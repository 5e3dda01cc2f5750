[package]
name = "bowo"
version = "0.1.0"
edition = "2021"
publish = false

[dependencies]
anyhow = "=1.0.104"
serde = { version = "=1.0.229", features = ["derive"] }
serde_json = "=1.0.154"
toml = "=0.9.12"
bevy = { version = "=0.19.1", default-features = false, features = ["std"] }
dhat = "0.3"

//! The allocation probe: what it adds to a function and what it refuses.

use bowo::probe::{alloc_probe, expand, probe_statement, refusal, Token};

fn ident(s: &str) -> Token {
    Token::Ident(s.to_string())
}

fn other(s: &str) -> Token {
    Token::Other(s.to_string())
}

fn braces(parts: &[&str]) -> Token {
    Token::Braces(parts.iter().map(|p| p.to_string()).collect())
}

/// What is left of a probed item when the guard's feature is off: the
/// item itself.
fn stripped(tokens: Vec<Token>, name: &str) -> Vec<String> {
    let guard = probe_statement(name);
    let mut out = Vec::new();
    for t in tokens {
        match t {
            Token::Ident(s) | Token::Other(s) => out.push(s),
            Token::Braces(inner) => {
                out.push("{".to_string());
                out.extend(inner.into_iter().filter(|s| *s != guard));
                out.push("}".to_string());
            }
        }
    }
    out
}

fn plain(x: u32) -> u32 {
    x + 1
}

fn decorated(items: &[u32]) -> u32 {
    let double = |v: u32| v * 2;
    items.iter().map(|&v| double(v)).sum()
}

struct Fixture;

impl Fixture {
    fn method(&self, x: u32) -> u32 {
        x * 10
    }
}

#[test]
fn probed_functions_keep_their_behavior() {
    assert_eq!(plain(1), 2);
    assert_eq!(decorated(&[1, 2, 3]), 12);
    assert_eq!(Fixture.method(4), 40);

    let items: [(&str, Vec<Token>, Vec<&str>); 3] = [
        (
            "plain",
            vec![ident("fn"), ident("plain"), other("(x : u32)"), braces(&["x + 1"])],
            vec!["fn", "plain", "(x : u32)", "{", "x + 1", "}"],
        ),
        (
            "decorated",
            vec![
                ident("pub"),
                ident("fn"),
                ident("decorated"),
                other("(items : & [u32])"),
                braces(&["let double = | v : u32 | { v * 2 } ;", "double"]),
            ],
            vec![
                "pub",
                "fn",
                "decorated",
                "(items : & [u32])",
                "{",
                "let double = | v : u32 | { v * 2 } ;",
                "double",
                "}",
            ],
        ),
        (
            "method",
            vec![
                ident("fn"),
                ident("method"),
                other("(& self , x : u32)"),
                braces(&["x * 10"]),
            ],
            vec!["fn", "method", "(& self , x : u32)", "{", "x * 10", "}"],
        ),
    ];
    for (name, item, want) in items {
        let Ok(tokens) = alloc_probe(true, item) else {
            panic!("{name} is a function");
        };
        assert_eq!(stripped(tokens, name), want);
    }
}

#[test]
fn the_guard_opens_the_first_body_after_fn() {
    let item = vec![
        braces(&["not the body"]),
        ident("fn"),
        ident("work"),
        other("()"),
        braces(&["a", "b"]),
        braces(&["c"]),
    ];
    let Ok(tokens) = expand(item) else {
        panic!("a function expands");
    };
    let bodies: Vec<&Vec<String>> = tokens
        .iter()
        .filter_map(|t| match t {
            Token::Braces(b) => Some(b),
            _ => None,
        })
        .collect();
    assert_eq!(bodies[0], &vec!["not the body".to_string()]);
    assert_eq!(
        bodies[1],
        &vec![
            "#[cfg(feature = \"perf-alloc\")] let _probe = ::bw_core::alloc_probe::Probe::new(\"work\");"
                .to_string(),
            "a".to_string(),
            "b".to_string(),
        ]
    );
    assert_eq!(bodies[2], &vec!["c".to_string()]);
}

fn refused(item: Vec<Token>) -> String {
    match expand(item) {
        Err(e) => e,
        Ok(_) => panic!("should have been refused"),
    }
}

#[test]
fn items_without_a_probed_body_are_refused() {
    assert_eq!(
        refused(vec![ident("struct"), ident("S"), other(";")]),
        "#[alloc_probe] requires a function item"
    );
    assert_eq!(
        refused(vec![ident("fn")]),
        "#[alloc_probe]: expected a function name after `fn`"
    );
    assert_eq!(
        refused(vec![ident("fn"), other("("), braces(&[])]),
        "#[alloc_probe]: expected a function name after `fn`"
    );
    assert_eq!(
        refused(vec![ident("fn"), ident("declared"), other("()"), other(";")]),
        "#[alloc_probe]: function has no body to probe"
    );
    let Err(e) = alloc_probe(false, vec![ident("fn"), ident("f"), braces(&[])]) else {
        panic!("arguments are refused");
    };
    assert_eq!(e, refusal("#[alloc_probe] takes no arguments"));
    assert_eq!(refusal("no"), "compile_error!(\"no\");");
}

//! Measurement records: append-only, never edited after being written,
//! only superseded. What maps names to values is a list in name order.
use vstd::prelude::*;

verus! {

use crate::table::names_ascend;

/// One measurement record.
#[derive(Debug, Clone, PartialEq)]
pub struct Record {
    pub schema: u32,
    /// Unix epoch seconds at measurement time.
    pub unix_time: u64,
    /// Who produced this record.
    pub runner: String,
    pub git: Git,
    pub env: Env,
    pub config: Config,
    /// Artifact name and size in bytes.
    pub artifacts: Vec<(String, u64)>,
    pub deps: Deps,
    /// Member name and whether it compiles for wasm32; empty when the
    /// check could not run.
    pub wasm: Vec<(String, bool)>,
    /// Bench id and instruction count.
    pub benches: Vec<(String, BenchMeasurement)>,
    /// Scene and frame-time statistics.
    pub runtime: Vec<(String, FrameMeasurement)>,
    /// Scene and allocation statistics.
    pub memory: Vec<(String, AllocMeasurement)>,
    /// Metrics that were not measured, with reasons.
    pub skipped: Vec<Skip>,
}

impl Record {
    /// Every named list stands in name order, each name once.
    pub open spec fn wf(&self) -> bool {
        &&& names_ascend(self.artifacts@)
        &&& names_ascend(self.deps.duplicates@)
        &&& names_ascend(self.wasm@)
        &&& names_ascend(self.benches@)
        &&& names_ascend(self.runtime@)
        &&& names_ascend(self.memory@)
    }
}

/// The commit that was measured.
#[derive(Debug, Clone, PartialEq)]
pub struct Git {
    pub sha: String,
    pub branch: String,
    pub dirty: bool,
    pub commit_time: String,
}

/// The machine that measured.
#[derive(Debug, Clone, PartialEq)]
pub struct Env {
    pub rustc: String,
    pub host: String,
    pub cpu: String,
    pub cores: u32,
    pub kernel: String,
}

/// The build that was measured.
#[derive(Debug, Clone, PartialEq)]
pub struct Config {
    pub profile: String,
    pub features: Vec<String>,
    pub target: String,
}

/// The dependency graph that was measured.
#[derive(Debug, Clone, PartialEq)]
pub struct Deps {
    /// Distinct external packages, by name and version.
    pub external_normal: u64,
    /// Crate name and the versions present, for names with several.
    pub duplicates: Vec<(String, Vec<String>)>,
}

/// A metric that was not measured.
#[derive(Debug, Clone, PartialEq)]
pub struct Skip {
    pub metric: String,
    pub reason: String,
}

/// One instruction-count bench.
#[derive(Debug, Clone, PartialEq)]
pub struct BenchMeasurement {
    pub instructions: u64,
}

/// One scene's frame times in milliseconds, as the bit patterns of
/// doubles. The median and the 99th percentile come also as they are
/// printed, with three decimals, and as whole microseconds.
#[derive(Debug, Clone, PartialEq)]
pub struct FrameMeasurement {
    pub frame_ms_min: u64,
    pub frame_ms_p50: u64,
    pub frame_ms_p90: u64,
    pub frame_ms_p99: u64,
    pub frame_ms_max: u64,
    pub shown_p50: String,
    pub shown_p99: String,
    pub p50_micros: u64,
    pub p99_micros: u64,
    pub entities: u64,
    pub ticks: u64,
    pub interactions: u64,
}

/// One scene's allocation statistics.
#[derive(Debug, Clone, PartialEq)]
pub struct AllocMeasurement {
    pub allocs: u64,
    pub peak_bytes: u64,
}

} // verus!

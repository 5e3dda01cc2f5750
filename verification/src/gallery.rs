//! The measurement report every gallery emits for its timing and
//! allocation passes, and the assembly of the allocation detail from the
//! snapshots taken at the window boundaries.
//!
//! Sampled statistics are bit patterns of doubles. The averages a reader
//! sees (per call, per tick) are quotients of the totals kept here.
use vstd::prelude::*;
use vstd::string::*;
use crate::stats::five_number_summary;
use crate::table::find;
use crate::text::hex16;

verus! {

use crate::stats::{percentile_of, ranked};
use crate::table::lookup;
use crate::text::hex;

/// Five numbers of a sample.
#[derive(Debug, Clone, Copy, PartialEq, Eq, Structural)]
pub struct FrameStats {
    pub min: u64,
    pub p50: u64,
    pub p90: u64,
    pub p99: u64,
    pub max: u64,
}

/// The five numbers of a sample.
pub open spec fn stats_of(sample: Seq<u64>) -> FrameStats {
    FrameStats {
        min: percentile_of(ranked(sample), 0, 100),
        p50: percentile_of(ranked(sample), 50, 100),
        p90: percentile_of(ranked(sample), 90, 100),
        p99: percentile_of(ranked(sample), 99, 100),
        max: percentile_of(ranked(sample), 100, 100),
    }
}

impl FrameStats {
    /// Summarize a sample.
    pub fn of(sample: &Vec<u64>) -> (r: FrameStats)
        ensures
            r == stats_of(sample@),
    {
        let (min, p50, p90, p99, max) = five_number_summary(sample);
        FrameStats { min, p50, p90, p99, max }
    }
}

/// Whole-run allocation statistics.
#[derive(Debug, Clone, Copy, PartialEq, Eq, Structural)]
pub struct AllocStats {
    pub count: u64,
    pub peak_bytes: u64,
}

/// Blocks and bytes allocated inside a window.
#[derive(Debug, Clone, Copy, PartialEq, Eq, Structural)]
pub struct WindowTotals {
    pub blocks: u64,
    pub bytes: u64,
}

/// What one probed function allocated, and how often it was called.
#[derive(Debug, Clone, Copy, PartialEq, Eq, Structural)]
pub struct ProbeTotals {
    pub blocks: u64,
    pub bytes: u64,
    pub calls: u64,
}

/// The measured window: the steady-state churn.
#[derive(Debug, Clone, Copy, PartialEq, Eq, Structural)]
pub struct MeasuredWindow {
    pub blocks: u64,
    pub bytes: u64,
    pub ticks: u64,
    pub blocks_per_tick: FrameStats,
    pub bytes_per_tick: FrameStats,
}

/// Live bytes at the window's ends. Flat means no leak; the drift per
/// tick is `(end - start) / ticks`, with at least one tick.
#[derive(Debug, Clone, Copy, PartialEq, Eq, Structural)]
pub struct LiveBytes {
    pub start: u64,
    pub end: u64,
    pub ticks: u64,
}

/// The allocation pass in full.
pub struct AllocDetail {
    /// One-off cost: everything up to the end of scene setup.
    pub setup: WindowTotals,
    /// First-run growth.
    pub warmup: WindowTotals,
    /// The steady state.
    pub measured: MeasuredWindow,
    /// Per-function attribution over the whole run.
    pub probes: Vec<(String, ProbeTotals)>,
    /// Per-function attribution within the measured window.
    pub measured_probes: Vec<(String, ProbeTotals)>,
    /// What no probed function accounts for inside the window.
    pub schedule_residual: WindowTotals,
    /// The leak signal.
    pub live: LiveBytes,
}

/// What a gallery reports.
pub struct PerfReport {
    pub scene: String,
    pub ticks: u64,
    pub warmup_ticks: u64,
    pub seed: u64,
    pub entities: usize,
    pub interactions: u64,
    pub state_checksum: String,
    pub frame_ms: Option<FrameStats>,
    pub allocs: Option<AllocStats>,
    pub alloc_detail: Option<AllocDetail>,
}

/// Running totals of blocks and bytes at a boundary.
pub struct Boundary {
    pub blocks: u64,
    pub bytes: u64,
}

/// A probe's running totals: blocks, bytes, calls.
pub type Counts = (u64, u64, u64);

/// A difference that stops at zero.
pub open spec fn less(a: u64, b: u64) -> u64 {
    if a >= b {
        (a - b) as u64
    } else {
        0
    }
}

/// What a probe added since an earlier snapshot; a probe absent there
/// started from nothing.
pub open spec fn added(before: Seq<(String, Counts)>, name: Seq<char>, now: Counts) -> Counts {
    match lookup(before, name) {
        Some(b) => (less(now.0, b.0), less(now.1, b.1), less(now.2, b.2)),
        None => now,
    }
}

/// A probe's calls in the whole run; an unknown probe counts as called
/// once.
pub open spec fn calls_in(calls: Seq<(String, Counts)>, name: Seq<char>) -> u64 {
    match lookup(calls, name) {
        Some(c) => c.2,
        None => 1,
    }
}

/// The entries of `r` are those of `source`, in order, each with the
/// whole run's calls.
pub open spec fn attributes(
    source: Seq<(String, Counts)>,
    calls: Seq<(String, Counts)>,
    r: Seq<(String, ProbeTotals)>,
) -> bool {
    r.len() == source.len() && forall|i: int|
        0 <= i < source.len() ==> (#[trigger] r[i]).0@ == source[i].0@ && r[i].1 == (ProbeTotals {
            blocks: source[i].1.0,
            bytes: source[i].1.1,
            calls: calls_in(calls, source[i].0@),
        })
}

/// The entries of `r` are those of the final snapshot less those of the
/// earlier one.
pub open spec fn windows(
    before: Seq<(String, Counts)>,
    end: Seq<(String, Counts)>,
    r: Seq<(String, Counts)>,
) -> bool {
    r.len() == end.len() && forall|i: int|
        0 <= i < end.len() ==> (#[trigger] r[i]).0@ == end[i].0@ && r[i].1 == added(
            before,
            end[i].0@,
            end[i].1,
        )
}

/// Blocks that the probes account for inside the window.
pub open spec fn probed_blocks(before: Seq<(String, Counts)>, end: Seq<(String, Counts)>) -> nat
    decreases end.len(),
{
    if end.len() == 0 {
        0
    } else {
        probed_blocks(before, end.drop_last()) + added(before, end.last().0@, end.last().1).0 as nat
    }
}

/// Bytes that the probes account for inside the window.
pub open spec fn probed_bytes(before: Seq<(String, Counts)>, end: Seq<(String, Counts)>) -> nat
    decreases end.len(),
{
    if end.len() == 0 {
        0
    } else {
        probed_bytes(before, end.drop_last()) + added(before, end.last().0@, end.last().1).1 as nat
    }
}

proof fn lemma_probed_ascends(before: Seq<(String, Counts)>, end: Seq<(String, Counts)>, i: int)
    requires
        0 <= i <= end.len(),
    ensures
        probed_blocks(before, end.take(i)) <= probed_blocks(before, end),
        probed_bytes(before, end.take(i)) <= probed_bytes(before, end),
    decreases end.len() - i,
{
    if i == end.len() {
        assert(end.take(i) =~= end);
    } else {
        lemma_probed_ascends(before, end, i + 1);
        assert(end.take(i + 1).drop_last() =~= end.take(i));
    }
}

fn minus(a: u64, b: u64) -> (r: u64)
    ensures
        r == less(a, b),
{
    if a >= b {
        a - b
    } else {
        0
    }
}

fn attribute(source: &Vec<(String, Counts)>, calls: &Vec<(String, Counts)>) -> (r: Vec<
    (String, ProbeTotals),
>)
    ensures
        attributes(source@, calls@, r@),
{
    let mut out: Vec<(String, ProbeTotals)> = Vec::new();
    let mut i: usize = 0;
    while i < source.len()
        invariant
            i <= source@.len(),
            attributes(source@.take(i as int), calls@, out@),
        decreases source@.len() - i,
    {
        let ghost front = source@.take(i as int);
        let ghost before = out@;
        let name = source[i].0.as_str();
        let n: u64 = match find(calls, name) {
            Some(k) => calls[k].1.2,
            None => 1,
        };
        out.push(
            (
                name.to_owned(),
                ProbeTotals { blocks: source[i].1.0, bytes: source[i].1.1, calls: n },
            ),
        );
        proof {
            assert forall|k: int| 0 <= k < i + 1 implies (#[trigger] out@[k]).0@ == source@.take(
                i + 1,
            )[k].0@ && out@[k].1 == (ProbeTotals {
                blocks: source@.take(i + 1)[k].1.0,
                bytes: source@.take(i + 1)[k].1.1,
                calls: calls_in(calls@, source@.take(i + 1)[k].0@),
            }) by {
                if k < i {
                    assert(out@[k] == before[k]);
                    assert(front[k] == source@[k]);
                }
            }
        }
        i = i + 1;
    }
    proof {
        assert(source@.take(i as int) =~= source@);
    }
    out
}

fn window(before: &Vec<(String, Counts)>, end: &Vec<(String, Counts)>) -> (r: Vec<(String, Counts)>)
    ensures
        windows(before@, end@, r@),
{
    let mut out: Vec<(String, Counts)> = Vec::new();
    let mut i: usize = 0;
    while i < end.len()
        invariant
            i <= end@.len(),
            windows(before@, end@.take(i as int), out@),
        decreases end@.len() - i,
    {
        let ghost front = end@.take(i as int);
        let ghost done = out@;
        let name = end[i].0.as_str();
        let (b, y, c) = match find(before, name) {
            Some(k) => (before[k].1.0, before[k].1.1, before[k].1.2),
            None => (0u64, 0u64, 0u64),
        };
        out.push(
            (
                name.to_owned(),
                (minus(end[i].1.0, b), minus(end[i].1.1, y), minus(end[i].1.2, c)),
            ),
        );
        proof {
            assert forall|k: int| 0 <= k < i + 1 implies (#[trigger] out@[k]).0@ == end@.take(
                i + 1,
            )[k].0@ && out@[k].1 == added(
                before@,
                end@.take(i + 1)[k].0@,
                end@.take(i + 1)[k].1,
            ) by {
                if k < i {
                    assert(out@[k] == done[k]);
                    assert(front[k] == end@[k]);
                }
            }
        }
        i = i + 1;
    }
    proof {
        assert(end@.take(i as int) =~= end@);
    }
    out
}

fn sum_window(
    before: Ghost<Seq<(String, Counts)>>,
    end: Ghost<Seq<(String, Counts)>>,
    entries: &Vec<(String, Counts)>,
) -> (r: (u64, u64))
    requires
        windows(before@, end@, entries@),
        probed_blocks(before@, end@) <= u64::MAX,
        probed_bytes(before@, end@) <= u64::MAX,
    ensures
        r.0 == probed_blocks(before@, end@),
        r.1 == probed_bytes(before@, end@),
{
    let mut blocks: u64 = 0;
    let mut bytes: u64 = 0;
    let mut i: usize = 0;
    while i < entries.len()
        invariant
            i <= entries@.len(),
            windows(before@, end@, entries@),
            probed_blocks(before@, end@) <= u64::MAX,
            probed_bytes(before@, end@) <= u64::MAX,
            blocks == probed_blocks(before@, end@.take(i as int)),
            bytes == probed_bytes(before@, end@.take(i as int)),
        decreases entries@.len() - i,
    {
        proof {
            lemma_probed_ascends(before@, end@, i + 1);
            assert(end@.take(i + 1).drop_last() =~= end@.take(i as int));
            assert(entries@[i as int].0@ == end@[i as int].0@);
        }
        blocks = blocks + entries[i].1.0;
        bytes = bytes + entries[i].1.1;
        i = i + 1;
    }
    proof {
        assert(end@.take(i as int) =~= end@);
    }
    (blocks, bytes)
}

/// The detail is what the snapshots say.
pub open spec fn details(
    before: Seq<(String, Counts)>,
    end: Seq<(String, Counts)>,
    setup: Boundary,
    warmup: Boundary,
    measured: Boundary,
    r: AllocDetail,
) -> bool {
    &&& r.setup == (WindowTotals { blocks: setup.blocks, bytes: setup.bytes })
    &&& r.warmup.blocks == warmup.blocks - setup.blocks
    &&& r.warmup.bytes == warmup.bytes - setup.bytes
    &&& r.measured.blocks == measured.blocks - warmup.blocks
    &&& r.measured.bytes == measured.bytes - warmup.bytes
    &&& attributes(end, end, r.probes@)
    &&& exists|w: Seq<(String, Counts)>|
        #![trigger windows(before, end, w)]
        windows(before, end, w) && attributes(w, end, r.measured_probes@)
    &&& r.schedule_residual.blocks == measured.blocks - warmup.blocks - probed_blocks(before, end)
    &&& r.schedule_residual.bytes == measured.bytes - warmup.bytes - probed_bytes(before, end)
}

/// Assemble the allocation detail from the boundary snapshots: totals at
/// the ends of setup, warmup, and the measured window; probe totals
/// before and after that window; live bytes at its ends; and the per-tick
/// samples in order.
pub fn alloc_detail(
    probes_before_window: &Vec<(String, Counts)>,
    probes_final: &Vec<(String, Counts)>,
    setup_totals: Boundary,
    warmup_totals: Boundary,
    measured_totals: Boundary,
    live_start: u64,
    live_end: u64,
    tick_blocks: &Vec<u64>,
    tick_bytes: &Vec<u64>,
    ticks: u64,
) -> (r: AllocDetail)
    requires
        setup_totals.blocks <= warmup_totals.blocks <= measured_totals.blocks,
        setup_totals.bytes <= warmup_totals.bytes <= measured_totals.bytes,
        probed_blocks(probes_before_window@, probes_final@) <= measured_totals.blocks
            - warmup_totals.blocks,
        probed_bytes(probes_before_window@, probes_final@) <= measured_totals.bytes
            - warmup_totals.bytes,
    ensures
        details(
            probes_before_window@,
            probes_final@,
            setup_totals,
            warmup_totals,
            measured_totals,
            r,
        ),
        r.measured.ticks == ticks,
        r.measured.blocks_per_tick == stats_of(tick_blocks@),
        r.measured.bytes_per_tick == stats_of(tick_bytes@),
        r.live == (LiveBytes {
            start: live_start,
            end: live_end,
            ticks: if ticks == 0 {
                1
            } else {
                ticks
            },
        }),
{
    let inside = window(probes_before_window, probes_final);
    let (probe_blocks, probe_bytes) = sum_window(
        Ghost(probes_before_window@),
        Ghost(probes_final@),
        &inside,
    );
    let blocks: u64 = measured_totals.blocks - warmup_totals.blocks;
    let bytes: u64 = measured_totals.bytes - warmup_totals.bytes;
    AllocDetail {
        setup: WindowTotals { blocks: setup_totals.blocks, bytes: setup_totals.bytes },
        warmup: WindowTotals {
            blocks: warmup_totals.blocks - setup_totals.blocks,
            bytes: warmup_totals.bytes - setup_totals.bytes,
        },
        measured: MeasuredWindow {
            blocks,
            bytes,
            ticks,
            blocks_per_tick: FrameStats::of(tick_blocks),
            bytes_per_tick: FrameStats::of(tick_bytes),
        },
        probes: attribute(probes_final, probes_final),
        measured_probes: attribute(&inside, probes_final),
        schedule_residual: WindowTotals {
            blocks: blocks - probe_blocks,
            bytes: bytes - probe_bytes,
        },
        live: LiveBytes {
            start: live_start,
            end: live_end,
            ticks: if ticks == 0 {
                1
            } else {
                ticks
            },
        },
    }
}

/// What a run counted, whatever its pass.
pub struct RunTotals {
    pub scene: String,
    pub ticks: u64,
    pub warmup_ticks: u64,
    pub seed: u64,
    pub entities: usize,
    pub interactions: u64,
    pub checksum: u64,
}

/// The report carries the run's totals.
pub open spec fn carries(r: PerfReport, t: RunTotals) -> bool {
    &&& r.scene@ == t.scene@
    &&& r.ticks == t.ticks
    &&& r.warmup_ticks == t.warmup_ticks
    &&& r.seed == t.seed
    &&& r.entities == t.entities
    &&& r.interactions == t.interactions
    &&& r.state_checksum@ == hex(t.checksum as nat, 16)
}

/// Assemble a gallery's report. The timing pass reports frame times; the
/// allocation pass reports what the counting allocator saw, and there is
/// no report when this build has none.
pub fn perf_report(
    totals: RunTotals,
    alloc_pass: bool,
    frame_ms: &Vec<u64>,
    allocs: Option<(AllocStats, Option<AllocDetail>)>,
) -> (r: Option<PerfReport>)
    ensures
        match r {
            None => alloc_pass && allocs is None,
            Some(report) => carries(report, totals) && if alloc_pass {
                allocs matches Some(a) && report.frame_ms is None && report.allocs == Some(a.0)
                    && report.alloc_detail == a.1
            } else {
                report.frame_ms == Some(stats_of(frame_ms@)) && report.allocs is None
                    && report.alloc_detail is None
            },
        },
{
    let mut report = PerfReport {
        state_checksum: hex16(totals.checksum),
        scene: totals.scene,
        ticks: totals.ticks,
        warmup_ticks: totals.warmup_ticks,
        seed: totals.seed,
        entities: totals.entities,
        interactions: totals.interactions,
        frame_ms: None,
        allocs: None,
        alloc_detail: None,
    };
    if alloc_pass {
        match allocs {
            Some((stats, detail)) => {
                report.allocs = Some(stats);
                report.alloc_detail = detail;
            },
            None => {
                return None;
            },
        }
    } else {
        report.frame_ms = Some(FrameStats::of(frame_ms));
    }
    Some(report)
}

/// The windows account for every block and byte of the run: setup,
/// warmup, the probes inside the window, and the residual add up to the
/// last snapshot.
pub proof fn lemma_windows_account_for_the_run(
    before: Seq<(String, Counts)>,
    end: Seq<(String, Counts)>,
    setup: Boundary,
    warmup: Boundary,
    measured: Boundary,
    r: AllocDetail,
)
    requires
        details(before, end, setup, warmup, measured, r),
    ensures
        r.setup.blocks + r.warmup.blocks + probed_blocks(before, end) + r.schedule_residual.blocks
            == measured.blocks,
        r.setup.bytes + r.warmup.bytes + probed_bytes(before, end) + r.schedule_residual.bytes
            == measured.bytes,
{
}

} // verus!

//! What a measurement report promises: each probe has its own whole-run
//! and window counts, what the probes and the rest allocate in the window
//! adds up to the window, and the five numbers of a sample bound and split
//! it.
use vstd::prelude::*;

verus! {

use crate::gallery::{
    carries, details, probed_blocks, probed_bytes, stats_of, windows, AllocDetail, Boundary, Counts,
    PerfReport, ProbeTotals, RunTotals,
};
use crate::particle_laws::{
    lemma_percentiles_cover_their_share, lemma_percentiles_end_at_the_extremes,
};
use crate::stats::{percentile_of, ranked, total_key};
use crate::table::{lemma_entries_are_found, lemma_first_at, names_ascend};
use crate::text::hex;

/// Every probe is attributed under its name what it counted in the whole
/// run, with its calls.
pub proof fn lemma_probes_have_their_whole_run(
    before: Seq<(String, Counts)>,
    end: Seq<(String, Counts)>,
    setup: Boundary,
    warmup: Boundary,
    measured: Boundary,
    r: AllocDetail,
    i: int,
)
    requires
        details(before, end, setup, warmup, measured, r),
        names_ascend(end),
        0 <= i < end.len(),
    ensures
        r.probes@.len() == end.len(),
        r.probes@[i].0@ == end[i].0@,
        r.probes@[i].1.blocks == end[i].1.0,
        r.probes@[i].1.bytes == end[i].1.1,
        r.probes@[i].1.calls == end[i].1.2,
{
    lemma_entries_are_found(end, i);
    assert(r.probes@[i].0@ == end[i].0@);
}

/// Inside the window every probe has what it counted since the snapshot
/// before it; one that was not in that snapshot has all it counted. The
/// calls are those of the whole run.
pub proof fn lemma_probes_have_their_window(
    before: Seq<(String, Counts)>,
    end: Seq<(String, Counts)>,
    setup: Boundary,
    warmup: Boundary,
    measured: Boundary,
    r: AllocDetail,
    i: int,
    j: int,
)
    requires
        details(before, end, setup, warmup, measured, r),
        names_ascend(end),
        names_ascend(before),
        0 <= i < end.len(),
    ensures
        r.measured_probes@.len() == end.len(),
        r.measured_probes@[i].0@ == end[i].0@,
        r.measured_probes@[i].1.calls == end[i].1.2,
        0 <= j < before.len() && before[j].0@ == end[i].0@ ==> {
            &&& before[j].1.0 <= end[i].1.0 ==> r.measured_probes@[i].1.blocks == end[i].1.0
                - before[j].1.0
            &&& before[j].1.1 <= end[i].1.1 ==> r.measured_probes@[i].1.bytes == end[i].1.1
                - before[j].1.1
            &&& before[j].1.0 > end[i].1.0 ==> r.measured_probes@[i].1.blocks == 0
            &&& before[j].1.1 > end[i].1.1 ==> r.measured_probes@[i].1.bytes == 0
        },
        (forall|k: int| 0 <= k < before.len() ==> (#[trigger] before[k]).0@ != end[i].0@) ==> {
            &&& r.measured_probes@[i].1.blocks == end[i].1.0
            &&& r.measured_probes@[i].1.bytes == end[i].1.1
        },
{
    let w = choose|w: Seq<(String, Counts)>|
        #![trigger windows(before, end, w)]
        windows(before, end, w) && crate::gallery::attributes(w, end, r.measured_probes@);
    lemma_entries_are_found(end, i);
    assert(w[i].0@ == end[i].0@);
    assert(r.measured_probes@[i].0@ == w[i].0@);
    lemma_first_at(before, end[i].0@);
    if 0 <= j < before.len() && before[j].0@ == end[i].0@ {
        lemma_entries_are_found(before, j);
    }
}

/// The blocks and bytes of some probes together.
pub open spec fn together(probes: Seq<(String, ProbeTotals)>) -> (nat, nat)
    decreases probes.len(),
{
    if probes.len() == 0 {
        (0, 0)
    } else {
        let front = together(probes.drop_last());
        (front.0 + probes.last().1.blocks as nat, front.1 + probes.last().1.bytes as nat)
    }
}

proof fn lemma_together(
    before: Seq<(String, Counts)>,
    end: Seq<(String, Counts)>,
    calls: Seq<(String, Counts)>,
    w: Seq<(String, Counts)>,
    probes: Seq<(String, ProbeTotals)>,
)
    requires
        windows(before, end, w),
        crate::gallery::attributes(w, calls, probes),
    ensures
        together(probes) == (probed_blocks(before, end), probed_bytes(before, end)),
    decreases end.len(),
{
    if end.len() > 0 {
        let last = end.len() - 1;
        let (e, v, p) = (end.drop_last(), w.drop_last(), probes.drop_last());
        assert forall|i: int| 0 <= i < e.len() implies (#[trigger] v[i]).0@ == e[i].0@ && v[i].1
            == crate::gallery::added(before, e[i].0@, e[i].1) by {
            assert(w[i].0@ == end[i].0@);
        }
        assert forall|i: int| 0 <= i < v.len() implies (#[trigger] p[i]).0@ == v[i].0@ && p[i].1
            == (ProbeTotals {
            blocks: v[i].1.0,
            bytes: v[i].1.1,
            calls: crate::gallery::calls_in(calls, v[i].0@),
        }) by {
            assert(probes[i].0@ == w[i].0@);
        }
        lemma_together(before, e, calls, v, p);
        assert(w[last].0@ == end[last].0@);
        assert(probes[last].0@ == w[last].0@);
    }
}

/// The three windows add up to the run, and what the probes and the rest
/// allocated in the measured one to that window.
pub proof fn lemma_windows_add_up(
    before: Seq<(String, Counts)>,
    end: Seq<(String, Counts)>,
    setup: Boundary,
    warmup: Boundary,
    measured: Boundary,
    r: AllocDetail,
)
    requires
        details(before, end, setup, warmup, measured, r),
    ensures
        r.setup.blocks == setup.blocks,
        r.setup.bytes == setup.bytes,
        r.setup.blocks + r.warmup.blocks == warmup.blocks,
        r.setup.bytes + r.warmup.bytes == warmup.bytes,
        r.setup.blocks + r.warmup.blocks + r.measured.blocks == measured.blocks,
        r.setup.bytes + r.warmup.bytes + r.measured.bytes == measured.bytes,
        together(r.measured_probes@).0 + r.schedule_residual.blocks == r.measured.blocks,
        together(r.measured_probes@).1 + r.schedule_residual.bytes == r.measured.bytes,
{
    let w = choose|w: Seq<(String, Counts)>|
        #![trigger windows(before, end, w)]
        windows(before, end, w) && crate::gallery::attributes(w, end, r.measured_probes@);
    lemma_together(before, end, end, w, r.measured_probes@);
}

/// The five numbers of a sample: none of it lies outside the first and
/// the last, which are values of it; and between them stand the values
/// that cover half, nine tenths and ninety-nine hundredths.
pub proof fn lemma_five_numbers_bound_and_split(sample: Seq<u64>, i: int)
    requires
        0 <= i < sample.len(),
    ensures
        ({
            let s = stats_of(sample);
            &&& total_key(s.min) <= total_key(sample[i]) <= total_key(s.max)
            &&& total_key(s.min) <= total_key(s.p50) <= total_key(s.p90) <= total_key(s.p99)
                <= total_key(s.max)
            &&& s.p50 == percentile_of(ranked(sample), 50, 100)
            &&& s.p90 == percentile_of(ranked(sample), 90, 100)
            &&& s.p99 == percentile_of(ranked(sample), 99, 100)
        }),
{
    lemma_percentiles_end_at_the_extremes(sample, i);
    lemma_percentiles_cover_their_share(sample, 50, 100);
    crate::stats::lemma_percentiles_ascend(sample, 0, 50, 100);
    crate::stats::lemma_percentiles_ascend(sample, 50, 90, 100);
    crate::stats::lemma_percentiles_ascend(sample, 90, 99, 100);
    crate::stats::lemma_percentiles_ascend(sample, 99, 100, 100);
}

/// A report carries what the run totaled, each number under its own name,
/// and the checksum as sixteen hexadecimal digits.
pub proof fn lemma_reports_carry_their_run(r: PerfReport, t: RunTotals)
    requires
        carries(r, t),
    ensures
        r.scene@ == t.scene@,
        r.ticks == t.ticks,
        r.warmup_ticks == t.warmup_ticks,
        r.seed == t.seed,
        r.entities == t.entities,
        r.interactions == t.interactions,
        r.state_checksum@ == hex(t.checksum as nat, 16),
{
}

} // verus!

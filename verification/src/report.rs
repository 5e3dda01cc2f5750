//! The trend report: which recorded measurements it covers, what moved
//! between the first and the last of one environment, and the document
//! that says so.
use vstd::prelude::*;
use vstd::string::*;
use crate::backlog::BacklogItem;
use crate::budgets::{compare, Budgets, Level};
use crate::chars::{parse_digits, split_lines, trimmed};
use crate::doc::Doc;
use crate::record::Record;
use crate::table::find;
use crate::text::{chars_of, fmt_num, same, string_of};

verus! {

use crate::backlog::item_texts;
use crate::budgets::{comparison, shown, Shown};
use crate::chars::{lines, plain_number, trim, views};
use crate::doc::joined;
use crate::table::{first_at, lookup};
use crate::text::{dec, grouped};

/// Open backlog items older than this are flagged.
pub const BACKLOG_FLAG_DAYS: u64 = 14;

/// Seconds of a day.
pub const DAY_SECONDS: u64 = 86_400;

// ---------------------------------------------------------------------------
// The window
// ---------------------------------------------------------------------------

/// Why a window is refused.
#[derive(Debug, Clone, PartialEq)]
pub enum SinceError {
    /// Neither `all` nor a number of days.
    Format,
    /// What stands before the `d` is not a number.
    NotANumber(String),
}

/// Read a window: `all` is no limit, and one or more digits followed by
/// a `d` are a number of days. Anything else is an error.
pub fn parse_since(since: &str) -> (r: Result<Option<u64>, SinceError>)
    ensures
        since@ == "all"@ ==> r == Ok::<Option<u64>, SinceError>(None),
        since@ != "all"@ && (since@.len() == 0 || since@.last() != 'd') ==> r == Err::<
            Option<u64>,
            SinceError,
        >(SinceError::Format),
        since@ != "all"@ && since@.len() > 0 && since@.last() == 'd' ==> match plain_number(
            since@.drop_last(),
        ) {
            Some(n) => r == Ok::<Option<u64>, SinceError>(Some(n)),
            None => r matches Err(SinceError::NotANumber(t)) && t@ == since@.drop_last(),
        },
{
    if same(since, "all") {
        return Ok(None);
    }
    let v = chars_of(since);
    let n: usize = v.len();
    if n == 0 || v[n - 1] != 'd' {
        return Err(SinceError::Format);
    }
    let days = crate::chars::cut(&v, 0, n - 1);
    proof {
        assert(days@ =~= since@.drop_last());
    }
    match parse_digits(&days) {
        Some(count) => Ok(Some(count)),
        None => {
            let t = string_of(days.as_slice(), 0, days.len());
            proof {
                assert(t@ =~= days@);
            }
            Err(SinceError::NotANumber(t))
        },
    }
}

/// A record of time `t` is no older than the window.
pub open spec fn in_window(t: u64, now: u64, days: Option<u64>) -> bool {
    match days {
        None => true,
        Some(d) => t as int >= now as int - d as int * 86_400,
    }
}

/// Whether a record of time `t` is no older than the window.
pub fn recent(t: u64, now: u64, days: Option<u64>) -> (r: bool)
    ensures
        r == in_window(t, now, days),
{
    match days {
        None => true,
        Some(d) => t as u128 + d as u128 * 86_400 >= now as u128,
    }
}

/// The positions of the first `n` records inside the window.
pub open spec fn window_of(times: Seq<u64>, now: u64, days: Option<u64>, n: int) -> Seq<usize>
    decreases n,
{
    if n <= 0 {
        Seq::empty()
    } else if in_window(times[n - 1], now, days) {
        window_of(times, now, days, n - 1).push((n - 1) as usize)
    } else {
        window_of(times, now, days, n - 1)
    }
}

/// The records inside a window, or the newest alone when none is.
pub open spec fn selected(times: Seq<u64>, now: u64, days: Option<u64>) -> Seq<usize> {
    let w = window_of(times, now, days, times.len() as int);
    if w.len() == 0 {
        seq![(times.len() - 1) as usize]
    } else {
        w
    }
}

/// The records that a report covers: those inside the window, or the
/// newest alone when none is.
pub fn select_window(times: &Vec<u64>, now: u64, days: Option<u64>) -> (r: Vec<usize>)
    requires
        times@.len() > 0,
    ensures
        r@.len() > 0,
        r@ == selected(times@, now, days),
{
    let mut out: Vec<usize> = Vec::new();
    let mut i: usize = 0;
    while i < times.len()
        invariant
            i <= times@.len(),
            out@ == window_of(times@, now, days, i as int),
        decreases times@.len() - i,
    {
        if recent(times[i], now, days) {
            out.push(i);
        }
        i = i + 1;
    }
    if out.len() == 0 {
        out.push(times.len() - 1);
        proof {
            assert(out@ =~= seq![(times@.len() - 1) as usize]);
        }
    }
    out
}

/// Earlier in time, ties by position.
pub open spec fn earlier(times: Seq<u64>, a: usize, b: usize) -> bool {
    times[a as int] < times[b as int] || (times[a as int] == times[b as int] && a < b)
}

/// The positions are in time order, records of one time in the order
/// they were read.
pub open spec fn in_time_order(times: Seq<u64>, order: Seq<usize>) -> bool {
    &&& forall|k: int| 0 <= k < order.len() ==> #[trigger] order[k] < times.len()
    &&& forall|a: int, b: int|
        0 <= a < b < order.len() ==> earlier(times, #[trigger] order[a], #[trigger] order[b])
}

/// Sort records by time, keeping the reading order of equals.
pub fn time_order(times: &Vec<u64>) -> (r: Vec<usize>)
    ensures
        r@.len() == times@.len(),
        in_time_order(times@, r@),
        forall|i: usize| i < times@.len() ==> r@.contains(i),
{
    let mut out: Vec<usize> = Vec::new();
    let mut i: usize = 0;
    while i < times.len()
        invariant
            i <= times@.len(),
            out@.len() == i,
            in_time_order(times@, out@),
            forall|k: int| 0 <= k < out@.len() ==> #[trigger] out@[k] < i,
            forall|j: usize| j < i ==> out@.contains(j),
        decreases times@.len() - i,
    {
        let mut at: usize = out.len();
        while at > 0 && times[out[at - 1]] > times[i]
            invariant
                at <= out@.len(),
                i < times@.len(),
                in_time_order(times@, out@),
                forall|k: int|
                    at <= k < out@.len() ==> times@[(#[trigger] out@[k]) as int] > times@[i as int],
            decreases at,
        {
            at = at - 1;
        }
        let ghost before = out@;
        proof {
            assert forall|k: int| 0 <= k < at implies earlier(
                times@,
                #[trigger] before[k],
                i,
            ) by {
                if k < at - 1 {
                    assert(earlier(times@, before[k], before[at - 1]));
                }
            }
        }
        out.insert(at, i);
        proof {
            let after = out@;
            assert(after == before.insert(at as int, i));
            assert forall|a: int, b: int| 0 <= a < b < after.len() implies earlier(
                times@,
                #[trigger] after[a],
                #[trigger] after[b],
            ) by {
                if a < at && b < at {
                    assert(earlier(times@, before[a], before[b]));
                } else if a < at && b == at {
                    assert(earlier(times@, before[a], i));
                } else if a < at {
                    assert(earlier(times@, before[a], before[b - 1]));
                } else if a == at {
                    assert(times@[before[b - 1] as int] > times@[i as int]);
                } else {
                    assert(earlier(times@, before[a - 1], before[b - 1]));
                }
            }
            assert forall|j: usize| j < i + 1 implies after.contains(j) by {
                if j == i {
                    assert(after[at as int] == i);
                } else {
                    assert(before.contains(j));
                    let k = choose|k: int| 0 <= k < before.len() && before[k] == j;
                    if k < at {
                        assert(after[k] == j);
                    } else {
                        assert(after[k + 1] == j);
                    }
                }
            }
        }
        i = i + 1;
    }
    out
}

/// Whether a file of the records directory is a shard.
pub fn is_shard(name: &str) -> (r: bool)
    ensures
        r == ".jsonl"@.is_suffix_of(name@),
{
    let v = chars_of(name);
    let suffix = chars_of(".jsonl");
    let n: usize = v.len();
    if n < suffix.len() {
        return false;
    }
    let from: usize = n - suffix.len();
    let mut i: usize = 0;
    while i < suffix.len()
        invariant
            i <= suffix@.len(),
            n == v@.len(),
            from + suffix@.len() == n,
            suffix@ == ".jsonl"@,
            v@ == name@,
            forall|j: int| 0 <= j < i ==> #[trigger] suffix@[j] == v@[from + j],
        decreases suffix@.len() - i,
    {
        if v[from + i] != suffix[i] {
            proof {
                assert(v@.subrange(from as int, n as int)[i as int] != suffix@[i as int]);
            }
            return false;
        }
        i = i + 1;
    }
    proof {
        assert(v@.subrange(from as int, n as int) =~= suffix@);
    }
    true
}

/// The lines of a shard that hold a record, with their numbers: all but
/// the blank ones.
pub open spec fn filled_lines(all: Seq<Seq<char>>, n: int) -> Seq<(usize, Seq<char>)>
    decreases n,
{
    if n <= 0 {
        Seq::empty()
    } else if trim(all[n - 1]).len() == 0 {
        filled_lines(all, n - 1)
    } else {
        filled_lines(all, n - 1).push((n as usize, all[n - 1]))
    }
}

/// Numbered lines as texts.
pub open spec fn line_texts(list: Seq<(usize, String)>) -> Seq<(usize, Seq<char>)> {
    list.map_values(|l: (usize, String)| (l.0, l.1@))
}

/// The lines of a shard that hold a record, numbered from one.
pub fn record_lines(shard: &str) -> (r: Vec<(usize, String)>)
    ensures
        line_texts(r@) == filled_lines(lines(shard@), lines(shard@).len() as int),
{
    let v = chars_of(shard);
    let all = split_lines(&v);
    let ghost ls = lines(shard@);
    let mut out: Vec<(usize, String)> = Vec::new();
    let mut i: usize = 0;
    proof {
        assert(views(all@).len() == all@.len());
        assert(line_texts(out@) =~= filled_lines(ls, 0));
    }
    while i < all.len()
        invariant
            i <= all@.len(),
            ls == views(all@),
            line_texts(out@) == filled_lines(ls, i as int),
        decreases all@.len() - i,
    {
        let t = trimmed(&all[i]);
        proof {
            assert(ls[i as int] == all@[i as int]@);
        }
        if t.len() > 0 {
            let line = string_of(all[i].as_slice(), 0, all[i].len());
            let ghost before = line_texts(out@);
            out.push((i + 1, line));
            proof {
                assert(line@ =~= ls[i as int]);
                assert(line_texts(out@) =~= before.push(((i + 1) as usize, line@)));
            }
        }
        i = i + 1;
    }
    out
}

// ---------------------------------------------------------------------------
// Deltas
// ---------------------------------------------------------------------------

/// One metric at both ends of a window.
pub struct Delta {
    pub metric: String,
    pub base: Option<u64>,
    pub last: Option<u64>,
    /// Whole percent beyond which the change is a finding; `None` flags
    /// any change.
    pub flag_pct: Option<u64>,
    pub action: &'static str,
}

/// A delta's content.
pub struct DeltaModel {
    pub metric: Seq<char>,
    pub base: Option<u64>,
    pub last: Option<u64>,
    pub flag_pct: Option<u64>,
    pub action: Seq<char>,
}

impl View for Delta {
    type V = DeltaModel;

    open spec fn view(&self) -> DeltaModel {
        DeltaModel {
            metric: self.metric@,
            base: self.base,
            last: self.last,
            flag_pct: self.flag_pct,
            action: self.action@,
        }
    }
}

/// The contents of deltas.
pub open spec fn delta_models(deltas: Seq<Delta>) -> Seq<DeltaModel> {
    deltas.map_values(|d: Delta| d@)
}

/// What to do about a size.
pub open spec fn action_attr() -> Seq<char> {
    "run `cargo xtask perf attribute` for size/monomorphization attribution"@
}

/// What to do about an instruction count.
pub open spec fn action_bench() -> Seq<char> {
    "re-run `cargo bench -p bw-core --bench iai_sim --profile runtime` locally to confirm, then `cargo xtask perf attribute` for pressure"@
}

/// What to do about a frame time.
pub open spec fn action_frame() -> Seq<char> {
    "wall-clock tier: re-run `cargo xtask perf measure` on a quiet machine before trusting (D2)"@
}

/// What to do about allocations.
pub open spec fn action_alloc() -> Seq<char> {
    "run `cargo xtask perf dhat` to name the allocating callsite"@
}

/// What to do about dependencies.
pub open spec fn action_deps() -> Seq<char> {
    "inspect `cargo tree -d`; dedupe via workspace dependencies"@
}

/// An artifact's delta. Sizes are deterministic: any change is real.
pub open spec fn artifact_delta(name: Seq<char>, base: Option<u64>, last: Option<u64>) -> DeltaModel {
    DeltaModel {
        metric: joined(seq!["artifact "@, name, " bytes"@]),
        base,
        last,
        flag_pct: Some(0),
        action: action_attr(),
    }
}

/// The deltas of the first `n` artifacts of the first record.
pub open spec fn kept_artifacts(base: Record, last: Record, n: int) -> Seq<DeltaModel>
    decreases n,
{
    if n <= 0 {
        Seq::empty()
    } else {
        let e = base.artifacts@[n - 1];
        kept_artifacts(base, last, n - 1).push(
            artifact_delta(e.0@, Some(e.1), lookup(last.artifacts@, e.0@)),
        )
    }
}

/// The deltas of the first `n` artifacts of the last record that the
/// first does not have.
pub open spec fn new_artifacts(base: Record, last: Record, n: int) -> Seq<DeltaModel>
    decreases n,
{
    if n <= 0 {
        Seq::empty()
    } else {
        let front = new_artifacts(base, last, n - 1);
        let e = last.artifacts@[n - 1];
        if first_at(base.artifacts@, e.0@) is None {
            front.push(artifact_delta(e.0@, None, Some(e.1)))
        } else {
            front
        }
    }
}

/// The dependency count's delta.
pub open spec fn deps_delta(base: Record, last: Record) -> DeltaModel {
    DeltaModel {
        metric: "deps external (normal)"@,
        base: Some(base.deps.external_normal),
        last: Some(last.deps.external_normal),
        flag_pct: Some(0),
        action: action_deps(),
    }
}

/// The deltas of the first `n` benches.
pub open spec fn bench_deltas(base: Record, last: Record, n: int) -> Seq<DeltaModel>
    decreases n,
{
    if n <= 0 {
        Seq::empty()
    } else {
        let e = base.benches@[n - 1];
        bench_deltas(base, last, n - 1).push(
            DeltaModel {
                metric: joined(seq!["bench "@, e.0@, " instructions"@]),
                base: Some(e.1.instructions),
                last: match lookup(last.benches@, e.0@) {
                    Some(m) => Some(m.instructions),
                    None => None,
                },
                flag_pct: Some(1),
                action: action_bench(),
            },
        )
    }
}

/// A frame-time delta, in microseconds.
pub open spec fn frame_delta(
    scene: Seq<char>,
    label: Seq<char>,
    base: u64,
    last: Option<u64>,
) -> DeltaModel {
    DeltaModel {
        metric: joined(seq!["runtime "@, scene, " frame_ms "@, label, " (×1000)"@]),
        base: Some(base),
        last,
        flag_pct: Some(10),
        action: action_frame(),
    }
}

/// The deltas of the first `n` scenes' frame times: median, then 99th
/// percentile.
pub open spec fn runtime_deltas(base: Record, last: Record, n: int) -> Seq<DeltaModel>
    decreases n,
{
    if n <= 0 {
        Seq::empty()
    } else {
        let e = base.runtime@[n - 1];
        let l = lookup(last.runtime@, e.0@);
        runtime_deltas(base, last, n - 1) + seq![
            frame_delta(
                e.0@,
                "p50"@,
                e.1.p50_micros,
                match l {
                    Some(m) => Some(m.p50_micros),
                    None => None,
                },
            ),
            frame_delta(
                e.0@,
                "p99"@,
                e.1.p99_micros,
                match l {
                    Some(m) => Some(m.p99_micros),
                    None => None,
                },
            ),
        ]
    }
}

/// The deltas of the first `n` scenes' allocations: count, then peak.
pub open spec fn memory_deltas(base: Record, last: Record, n: int) -> Seq<DeltaModel>
    decreases n,
{
    if n <= 0 {
        Seq::empty()
    } else {
        let e = base.memory@[n - 1];
        let l = lookup(last.memory@, e.0@);
        memory_deltas(base, last, n - 1) + seq![
            DeltaModel {
                metric: joined(seq!["memory "@, e.0@, " total allocs"@]),
                base: Some(e.1.allocs),
                last: match l {
                    Some(m) => Some(m.allocs),
                    None => None,
                },
                flag_pct: Some(0),
                action: action_alloc(),
            },
            DeltaModel {
                metric: joined(seq!["memory "@, e.0@, " peak bytes"@]),
                base: Some(e.1.peak_bytes),
                last: match l {
                    Some(m) => Some(m.peak_bytes),
                    None => None,
                },
                flag_pct: Some(2),
                action: action_alloc(),
            },
        ]
    }
}

/// All deltas between two records, in order.
pub open spec fn deltas_of(base: Record, last: Record) -> Seq<DeltaModel> {
    kept_artifacts(base, last, base.artifacts@.len() as int) + new_artifacts(
        base,
        last,
        last.artifacts@.len() as int,
    ) + seq![deps_delta(base, last)] + bench_deltas(base, last, base.benches@.len() as int)
        + runtime_deltas(base, last, base.runtime@.len() as int) + memory_deltas(
        base,
        last,
        base.memory@.len() as int,
    )
}

/// Three pieces as one string.
fn cat3(a: &str, b: &str, c: &str) -> (r: String)
    ensures
        r@ == joined(seq![a@, b@, c@]),
{
    let mut d = Doc::new();
    d.put(a);
    d.put(b);
    d.put(c);
    proof {
        assert(d@ =~= seq![a@, b@, c@]);
    }
    d.finish()
}

/// Append one delta.
fn put(deltas: &mut Vec<Delta>, d: Delta)
    ensures
        delta_models(final(deltas)@) == delta_models(old(deltas)@).push(d@),
{
    deltas.push(d);
    proof {
        assert(delta_models(deltas@) =~= delta_models(old(deltas)@).push(d@));
    }
}

/// The deltas of artifacts.
fn put_artifacts(deltas: &mut Vec<Delta>, base: &Record, last: &Record)
    ensures
        delta_models(final(deltas)@) == delta_models(old(deltas)@) + kept_artifacts(
            *base,
            *last,
            base.artifacts@.len() as int,
        ) + new_artifacts(*base, *last, last.artifacts@.len() as int),
{
    let ghost start = delta_models(deltas@);
    let mut i: usize = 0;
    proof {
        assert(delta_models(deltas@) =~= start + kept_artifacts(*base, *last, 0));
    }
    while i < base.artifacts.len()
        invariant
            i <= base.artifacts@.len(),
            delta_models(deltas@) == start + kept_artifacts(*base, *last, i as int),
        decreases base.artifacts@.len() - i,
    {
        let name = base.artifacts[i].0.as_str();
        let now: Option<u64> = match find(&last.artifacts, name) {
            Some(k) => Some(last.artifacts[k].1),
            None => None,
        };
        let d = Delta {
            metric: cat3("artifact ", name, " bytes"),
            base: Some(base.artifacts[i].1),
            last: now,
            flag_pct: Some(0),
            action: "run `cargo xtask perf attribute` for size/monomorphization attribution",
        };
        put(deltas, d);
        i = i + 1;
        proof {
            assert(delta_models(deltas@) =~= start + kept_artifacts(*base, *last, i as int));
        }
    }
    let ghost mid = delta_models(deltas@);
    i = 0;
    proof {
        assert(delta_models(deltas@) =~= mid + new_artifacts(*base, *last, 0));
    }
    while i < last.artifacts.len()
        invariant
            i <= last.artifacts@.len(),
            delta_models(deltas@) == mid + new_artifacts(*base, *last, i as int),
        decreases last.artifacts@.len() - i,
    {
        let name = last.artifacts[i].0.as_str();
        if find(&base.artifacts, name).is_none() {
            let d = Delta {
                metric: cat3("artifact ", name, " bytes"),
                base: None,
                last: Some(last.artifacts[i].1),
                flag_pct: Some(0),
                action: "run `cargo xtask perf attribute` for size/monomorphization attribution",
            };
            put(deltas, d);
        }
        i = i + 1;
        proof {
            assert(delta_models(deltas@) =~= mid + new_artifacts(*base, *last, i as int));
        }
    }
}

/// The deltas of benches.
fn put_benches(deltas: &mut Vec<Delta>, base: &Record, last: &Record)
    ensures
        delta_models(final(deltas)@) == delta_models(old(deltas)@) + bench_deltas(
            *base,
            *last,
            base.benches@.len() as int,
        ),
{
    let ghost start = delta_models(deltas@);
    let mut i: usize = 0;
    proof {
        assert(delta_models(deltas@) =~= start + bench_deltas(*base, *last, 0));
    }
    while i < base.benches.len()
        invariant
            i <= base.benches@.len(),
            delta_models(deltas@) == start + bench_deltas(*base, *last, i as int),
        decreases base.benches@.len() - i,
    {
        let id = base.benches[i].0.as_str();
        let now: Option<u64> = match find(&last.benches, id) {
            Some(k) => Some(last.benches[k].1.instructions),
            None => None,
        };
        let d = Delta {
            metric: cat3("bench ", id, " instructions"),
            base: Some(base.benches[i].1.instructions),
            last: now,
            flag_pct: Some(1),
            action: "re-run `cargo bench -p bw-core --bench iai_sim --profile runtime` locally to confirm, then `cargo xtask perf attribute` for pressure",
        };
        put(deltas, d);
        i = i + 1;
        proof {
            assert(delta_models(deltas@) =~= start + bench_deltas(*base, *last, i as int));
        }
    }
}

/// A frame-time delta.
fn frame(scene: &str, label: &str, base: u64, last: Option<u64>) -> (d: Delta)
    ensures
        d@ == frame_delta(scene@, label@, base, last),
{
    let mut t = Doc::new();
    t.put("runtime ");
    t.put(scene);
    t.put(" frame_ms ");
    t.put(label);
    t.put(" (×1000)");
    proof {
        assert(t@ =~= seq!["runtime "@, scene@, " frame_ms "@, label@, " (×1000)"@]);
    }
    Delta {
        metric: t.finish(),
        base: Some(base),
        last,
        flag_pct: Some(10),
        action: "wall-clock tier: re-run `cargo xtask perf measure` on a quiet machine before trusting (D2)",
    }
}

/// The deltas of frame times.
fn put_runtime(deltas: &mut Vec<Delta>, base: &Record, last: &Record)
    ensures
        delta_models(final(deltas)@) == delta_models(old(deltas)@) + runtime_deltas(
            *base,
            *last,
            base.runtime@.len() as int,
        ),
{
    let ghost start = delta_models(deltas@);
    let mut i: usize = 0;
    proof {
        assert(delta_models(deltas@) =~= start + runtime_deltas(*base, *last, 0));
    }
    while i < base.runtime.len()
        invariant
            i <= base.runtime@.len(),
            delta_models(deltas@) == start + runtime_deltas(*base, *last, i as int),
        decreases base.runtime@.len() - i,
    {
        let scene = base.runtime[i].0.as_str();
        let (p50, p99): (Option<u64>, Option<u64>) = match find(&last.runtime, scene) {
            Some(k) => (Some(last.runtime[k].1.p50_micros), Some(last.runtime[k].1.p99_micros)),
            None => (None, None),
        };
        put(deltas, frame(scene, "p50", base.runtime[i].1.p50_micros, p50));
        put(deltas, frame(scene, "p99", base.runtime[i].1.p99_micros, p99));
        i = i + 1;
        proof {
            assert(delta_models(deltas@) =~= start + runtime_deltas(*base, *last, i as int));
        }
    }
}

/// The deltas of allocations.
fn put_memory(deltas: &mut Vec<Delta>, base: &Record, last: &Record)
    ensures
        delta_models(final(deltas)@) == delta_models(old(deltas)@) + memory_deltas(
            *base,
            *last,
            base.memory@.len() as int,
        ),
{
    let ghost start = delta_models(deltas@);
    let mut i: usize = 0;
    proof {
        assert(delta_models(deltas@) =~= start + memory_deltas(*base, *last, 0));
    }
    while i < base.memory.len()
        invariant
            i <= base.memory@.len(),
            delta_models(deltas@) == start + memory_deltas(*base, *last, i as int),
        decreases base.memory@.len() - i,
    {
        let scene = base.memory[i].0.as_str();
        let (allocs, peak): (Option<u64>, Option<u64>) = match find(&last.memory, scene) {
            Some(k) => (Some(last.memory[k].1.allocs), Some(last.memory[k].1.peak_bytes)),
            None => (None, None),
        };
        let a = Delta {
            metric: cat3("memory ", scene, " total allocs"),
            base: Some(base.memory[i].1.allocs),
            last: allocs,
            flag_pct: Some(0),
            action: "run `cargo xtask perf dhat` to name the allocating callsite",
        };
        put(deltas, a);
        let b = Delta {
            metric: cat3("memory ", scene, " peak bytes"),
            base: Some(base.memory[i].1.peak_bytes),
            last: peak,
            flag_pct: Some(2),
            action: "run `cargo xtask perf dhat` to name the allocating callsite",
        };
        put(deltas, b);
        i = i + 1;
        proof {
            assert(delta_models(deltas@) =~= start + memory_deltas(*base, *last, i as int));
        }
    }
}

/// The deltas between two records.
pub fn collect_deltas(base: &Record, last: &Record) -> (r: Vec<Delta>)
    ensures
        delta_models(r@) == deltas_of(*base, *last),
{
    let mut deltas: Vec<Delta> = Vec::new();
    proof {
        assert(delta_models(deltas@) =~= Seq::<DeltaModel>::empty());
        assert(Seq::<DeltaModel>::empty() + kept_artifacts(
            *base,
            *last,
            base.artifacts@.len() as int,
        ) =~= kept_artifacts(*base, *last, base.artifacts@.len() as int));
    }
    put_artifacts(&mut deltas, base, last);
    let ghost arts = delta_models(deltas@);
    let d = Delta {
        metric: "deps external (normal)".to_owned(),
        base: Some(base.deps.external_normal),
        last: Some(last.deps.external_normal),
        flag_pct: Some(0),
        action: "inspect `cargo tree -d`; dedupe via workspace dependencies",
    };
    put(&mut deltas, d);
    proof {
        assert(arts.push(d@) =~= arts + seq![deps_delta(*base, *last)]);
    }
    put_benches(&mut deltas, base, last);
    put_runtime(&mut deltas, base, last);
    put_memory(&mut deltas, base, last);
    deltas
}

/// How a change prints. `share` is the signed percentage, already
/// printed, for metrics present at both ends with a base that is not
/// zero.
pub open spec fn change_text(d: DeltaModel, share: Seq<char>) -> Seq<char> {
    match (d.base, d.last) {
        (Some(base), Some(last)) => if base == 0 {
            if last == 0 {
                "0%"@
            } else {
                "new"@
            }
        } else {
            share + "%"@
        },
        _ => "new/removed"@,
    }
}

/// How a change prints.
pub fn delta_pct(d: &Delta, share: &str) -> (r: String)
    ensures
        r@ == change_text(d@, share@),
{
    match (d.base, d.last) {
        (Some(base), Some(last)) => {
            if base == 0 {
                if last == 0 {
                    "0%".to_owned()
                } else {
                    "new".to_owned()
                }
            } else {
                let mut out = share.to_owned();
                out.append("%");
                out
            }
        },
        _ => "new/removed".to_owned(),
    }
}

/// A change is a finding: it appeared or disappeared, it grew from
/// nothing, or it moved by more than the threshold.
pub open spec fn flagged(d: DeltaModel) -> bool {
    match (d.base, d.last) {
        (Some(base), Some(last)) => if base == 0 {
            last != 0
        } else {
            match d.flag_pct {
                Some(t) => 100 * crate::route::abs(last - base) > t * base,
                None => last != base,
            }
        },
        _ => true,
    }
}

/// Whether a change is a finding.
pub fn is_flagged(d: &Delta) -> (r: bool)
    ensures
        r == flagged(d@),
{
    match (d.base, d.last) {
        (Some(base), Some(last)) => {
            if base == 0 {
                last != 0
            } else {
                match d.flag_pct {
                    Some(t) => {
                        let moved: u64 = if last >= base {
                            last - base
                        } else {
                            base - last
                        };
                        proof {
                            let x = t as int;
                            let y = base as int;
                            assert(x * y <= u64::MAX * u64::MAX) by (nonlinear_arith)
                                requires
                                    0 <= x <= u64::MAX,
                                    0 <= y <= u64::MAX,
                            ;
                        }
                        100u128 * moved as u128 > t as u128 * base as u128
                    },
                    None => last != base,
                }
            }
        },
        _ => true,
    }
}

/// The first seven characters of a commit id.
pub open spec fn short_sha(sha: Seq<char>) -> Seq<char> {
    if sha.len() <= 7 {
        sha
    } else {
        sha.take(7)
    }
}

/// The first seven characters of a commit id.
pub fn truncate_sha(sha: &str) -> (r: String)
    ensures
        r@ == short_sha(sha@),
{
    let v = chars_of(sha);
    let n: usize = if v.len() < 7 {
        v.len()
    } else {
        7
    };
    let r = string_of(v.as_slice(), 0, n);
    proof {
        assert(v@.subrange(0, n as int) =~= short_sha(sha@));
    }
    r
}

// ---------------------------------------------------------------------------
// The document
// ---------------------------------------------------------------------------

/// Two records come from one environment: runner, compiler and host.
pub open spec fn same_env(a: Record, b: Record) -> bool {
    a.runner@ == b.runner@ && a.env.rustc@ == b.env.rustc@ && a.env.host@ == b.env.host@
}

/// How many of the first `n` records come from the environment of `r`.
pub open spec fn env_count(window: Seq<Record>, r: Record, n: int) -> nat
    decreases n,
{
    if n <= 0 {
        0
    } else {
        env_count(window, r, n - 1) + if same_env(window[n - 1], r) {
            1nat
        } else {
            0
        }
    }
}

/// The first record of the environment of the last one.
pub open spec fn first_env(window: Seq<Record>, r: Record, from: int) -> int
    decreases window.len() - from,
{
    if from >= window.len() - 1 || same_env(window[from], r) {
        from
    } else {
        first_env(window, r, from + 1)
    }
}

/// The record that the window is compared against.
pub open spec fn baseline(window: Seq<Record>) -> Record {
    window[first_env(window, window.last(), 0)]
}

/// The heading: window, environment, range, and what is left out.
pub open spec fn head_parts(window: Seq<Record>, since: Seq<char>) -> Seq<Seq<char>> {
    let latest = window.last();
    let same = env_count(window, latest, window.len() as int);
    seq![
        "# perf report\n\n- window: last "@,
        since,
        "; "@,
        dec(window.len()),
        " record(s) ("@,
        dec(same),
        " same env as latest)\n- env: runner "@,
        latest.runner@,
        ", "@,
        latest.env.rustc@,
        ", "@,
        latest.env.host@,
        "\n- range: "@,
        short_sha(baseline(window).git.sha@),
        " → "@,
        short_sha(latest.git.sha@),
        " ("@,
        latest.git.commit_time@,
        ")\n"@,
    ] + if same < window.len() {
        seq![
            "- ⚠ "@,
            dec((window.len() - same) as nat),
            " record(s) excluded from deltas: different runner/rustc/host (D8.1)\n"@,
        ]
    } else {
        Seq::empty()
    }
}

/// The tag of a level.
pub open spec fn level_tag(level: Level) -> Seq<char> {
    match level {
        Level::Pass => "- [ok] "@,
        Level::Warn => "- [warn] "@,
        Level::Breach => "- [breach] "@,
    }
}

/// The lines of findings.
pub open spec fn finding_parts(findings: Seq<Shown>) -> Seq<Seq<char>>
    decreases findings.len(),
{
    if findings.len() == 0 {
        Seq::empty()
    } else {
        finding_parts(findings.drop_last()) + seq![
            level_tag(findings.last().0),
            findings.last().1,
            "\n"@,
        ]
    }
}

/// The budget section.
pub open spec fn budget_parts(b: Option<Budgets>, latest: Record, shares: Seq<String>) -> Seq<
    Seq<char>,
> {
    match b {
        Some(loaded) => seq!["## budgets (latest record vs perf/budgets.toml)\n\n"@]
            + finding_parts(comparison(loaded, latest, shares)) + seq!["\n"@],
        None => seq!["## budgets\n\n- skipped: perf/budgets.toml not loadable\n\n"@],
    }
}

/// The age of an item in days, never negative.
pub open spec fn age(now: u64, added: i64) -> nat {
    let today = now as int / 86_400;
    if added >= today {
        0
    } else {
        (today - added) as nat
    }
}

/// An item's line.
pub open spec fn item_parts(item: (Seq<char>, Option<i64>), now: u64) -> Seq<Seq<char>> {
    match item.1 {
        Some(added) => {
            let days = age(now, added);
            if days > BACKLOG_FLAG_DAYS {
                seq![
                    "- ⚠ "@,
                    item.0,
                    " — added "@,
                    dec(days),
                    "d ago — older than two weekly cycles; action: schedule, split, or close\n"@,
                ]
            } else {
                seq!["- "@, item.0, " — added "@, dec(days), "d ago\n"@]
            }
        },
        None => seq!["- "@, item.0, " — no Added date (see backlog.md conventions)\n"@],
    }
}

/// The lines of items.
pub open spec fn items_parts(items: Seq<(Seq<char>, Option<i64>)>, now: u64) -> Seq<Seq<char>>
    decreases items.len(),
{
    if items.len() == 0 {
        Seq::empty()
    } else {
        items_parts(items.drop_last(), now) + item_parts(items.last(), now)
    }
}

/// The backlog section.
pub open spec fn backlog_parts(items: Option<Seq<(Seq<char>, Option<i64>)>>, now: u64) -> Seq<
    Seq<char>,
> {
    match items {
        Some(list) => seq!["## backlog ("@, dec(list.len()), " open, from backlog.md)\n\n"@]
            + if list.len() == 0 {
            seq!["- none — no open items\n"@]
        } else {
            items_parts(list, now)
        } + seq!["\n"@],
        None => seq!["## backlog\n\n- skipped: backlog.md not found at workspace root\n\n"@],
    }
}

/// A number of a delta, or a dash.
pub open spec fn cell(v: Option<u64>) -> Seq<char> {
    match v {
        Some(n) => grouped(n as nat),
        None => "—"@,
    }
}

/// The rows of the delta table.
pub open spec fn row_parts(deltas: Seq<DeltaModel>, shares: Seq<String>, n: int) -> Seq<Seq<char>>
    decreases n,
{
    if n <= 0 {
        Seq::empty()
    } else {
        let d = deltas[n - 1];
        row_parts(deltas, shares, n - 1) + seq![
            "| "@,
            d.metric,
            " | "@,
            cell(d.base),
            " | "@,
            cell(d.last),
            " | "@,
            change_text(d, shares[n - 1]@),
            " |\n"@,
        ]
    }
}

/// The findings among the deltas, each with an action.
pub open spec fn flag_parts(deltas: Seq<DeltaModel>, shares: Seq<String>, n: int) -> Seq<Seq<char>>
    decreases n,
{
    if n <= 0 {
        Seq::empty()
    } else {
        let front = flag_parts(deltas, shares, n - 1);
        let d = deltas[n - 1];
        if flagged(d) {
            front + seq![
                "- **"@,
                d.metric,
                "**: "@,
                change_text(d, shares[n - 1]@),
                " — action: "@,
                d.action,
                "\n"@,
            ]
        } else {
            front
        }
    }
}

/// The delta section.
pub open spec fn delta_parts(base: Record, latest: Record, shares: Seq<String>) -> Seq<Seq<char>> {
    let deltas = deltas_of(base, latest);
    let n = deltas.len() as int;
    seq!["## deltas (first → last in window, same env)\n\n"@] + if base.unix_time
        != latest.unix_time {
        seq!["| metric | first | last | Δ |\n|---|---|---|---|\n"@] + row_parts(deltas, shares, n)
            + seq!["\n"@] + if flag_parts(deltas, shares, n).len() == 0 {
            seq!["no flagged findings in window.\n"@]
        } else {
            seq!["### findings (each with a recommended action)\n\n"@] + flag_parts(
                deltas,
                shares,
                n,
            )
        } + seq!["\n"@]
    } else {
        seq!["only one record in this window/env — nothing to diff yet.\n\n"@]
    }
}

/// The lines of skipped metrics.
pub open spec fn skip_parts(r: Record, n: int) -> Seq<Seq<char>>
    decreases n,
{
    if n <= 0 {
        Seq::empty()
    } else {
        skip_parts(r, n - 1) + seq![
            "- "@,
            r.skipped@[n - 1].metric@,
            ": "@,
            r.skipped@[n - 1].reason@,
            "\n"@,
        ]
    }
}

/// The section of skipped metrics.
pub open spec fn skipped_parts(r: Record) -> Seq<Seq<char>> {
    seq!["## skipped metrics (latest record)\n\n"@] + if r.skipped@.len() == 0 {
        seq!["- none\n"@]
    } else {
        skip_parts(r, r.skipped@.len() as int)
    }
}

/// What a report is rendered from, besides the records.
pub struct Context<'a> {
    /// The budgets, when they could be loaded.
    pub budgets: Option<&'a Budgets>,
    /// For each budgeted artifact, its gap as a printed percentage.
    pub shares: Vec<String>,
    /// The open backlog items, when there is a backlog.
    pub backlog: Option<&'a Vec<BacklogItem>>,
    /// Unix epoch seconds.
    pub now: u64,
    /// The window as it was asked for.
    pub since: &'a str,
    /// For each delta, its signed change as a printed percentage.
    pub delta_shares: Vec<String>,
}

/// The budgets of a context.
pub open spec fn context_budgets(c: Context) -> Option<Budgets> {
    match c.budgets {
        Some(b) => Some(*b),
        None => None,
    }
}

/// The backlog of a context.
pub open spec fn context_backlog(c: Context) -> Option<Seq<(Seq<char>, Option<i64>)>> {
    match c.backlog {
        Some(items) => Some(item_texts(items@)),
        None => None,
    }
}

/// The whole report.
pub open spec fn report_document(window: Seq<Record>, c: Context) -> Seq<char> {
    let latest = window.last();
    joined(
        head_parts(window, c.since@) + seq!["\n"@] + budget_parts(
            context_budgets(c),
            latest,
            c.shares@,
        ) + backlog_parts(context_backlog(c), c.now) + delta_parts(
            baseline(window),
            latest,
            c.delta_shares@,
        ) + skipped_parts(latest),
    )
}

/// The context has a percentage for every budgeted artifact and every
/// delta of the window.
pub open spec fn context_fits(window: Seq<Record>, c: Context) -> bool {
    &&& window.len() > 0
    &&& c.budgets matches Some(b) ==> c.shares@.len() == b.artifact@.len()
    &&& c.delta_shares@.len() == deltas_of(baseline(window), window.last()).len()
}

/// Whether two records come from one environment.
fn env_matches(a: &Record, b: &Record) -> (r: bool)
    ensures
        r == same_env(*a, *b),
{
    same(a.runner.as_str(), b.runner.as_str()) && same(a.env.rustc.as_str(), b.env.rustc.as_str())
        && same(a.env.host.as_str(), b.env.host.as_str())
}

/// Position of the record that a window is compared against.
pub fn baseline_index(window: &Vec<Record>) -> (r: usize)
    requires
        window@.len() > 0,
    ensures
        r == first_env(window@, window@.last(), 0),
        r < window@.len(),
{
    let n: usize = window.len();
    let mut i: usize = 0;
    while i < n - 1 && !env_matches(&window[i], &window[n - 1])
        invariant
            n == window@.len(),
            0 < n,
            i <= n - 1,
            first_env(window@, window@.last(), 0) == first_env(window@, window@.last(), i as int),
        decreases n - i,
    {
        i = i + 1;
    }
    i
}

/// How many records of a window come from the last one's environment.
fn count_env(window: &Vec<Record>) -> (r: u64)
    requires
        window@.len() > 0,
    ensures
        r == env_count(window@, window@.last(), window@.len() as int),
        r <= window@.len(),
{
    let n: usize = window.len();
    let mut same: u64 = 0;
    let mut i: usize = 0;
    while i < n
        invariant
            n == window@.len(),
            0 < n,
            i <= n,
            same == env_count(window@, window@.last(), i as int),
            same <= i,
        decreases n - i,
    {
        if env_matches(&window[i], &window[n - 1]) {
            same = same + 1;
        }
        i = i + 1;
    }
    same
}

/// Append the heading.
fn put_head(d: &mut Doc, window: &Vec<Record>, since: &str)
    requires
        old(d).wf(),
        window@.len() > 0,
    ensures
        final(d).wf(),
        final(d)@ == old(d)@ + head_parts(window@, since@),
{
    let n: usize = window.len();
    let same: u64 = count_env(window);
    let base: usize = baseline_index(window);
    let first = truncate_sha(window[base].git.sha.as_str());
    let last = truncate_sha(window[n - 1].git.sha.as_str());
    d.put("# perf report\n\n- window: last ");
    d.put(since);
    d.put("; ");
    d.put_dec(n as u64);
    d.put(" record(s) (");
    d.put_dec(same);
    d.put(" same env as latest)\n- env: runner ");
    d.put(window[n - 1].runner.as_str());
    d.put(", ");
    d.put(window[n - 1].env.rustc.as_str());
    d.put(", ");
    d.put(window[n - 1].env.host.as_str());
    d.put("\n- range: ");
    d.put(first.as_str());
    d.put(" → ");
    d.put(last.as_str());
    d.put(" (");
    d.put(window[n - 1].git.commit_time.as_str());
    d.put(")\n");
    if same < n as u64 {
        d.put("- ⚠ ");
        d.put_dec(n as u64 - same);
        d.put(" record(s) excluded from deltas: different runner/rustc/host (D8.1)\n");
    }
    proof {
        assert(d@ =~= old(d)@ + head_parts(window@, since@));
    }
}

/// Append the budget section.
fn put_budgets(d: &mut Doc, budgets: Option<&Budgets>, latest: &Record, shares: &Vec<String>)
    requires
        old(d).wf(),
        budgets matches Some(b) ==> shares@.len() == b.artifact@.len(),
    ensures
        final(d).wf(),
        final(d)@ == old(d)@ + budget_parts(
            match budgets {
                Some(b) => Some(*b),
                None => None,
            },
            *latest,
            shares@,
        ),
{
    match budgets {
        Some(loaded) => {
            let findings = compare(loaded, latest, shares);
            let ghost all = shown(findings@);
            d.put("## budgets (latest record vs perf/budgets.toml)\n\n");
            let ghost start = old(d)@ + seq![
                "## budgets (latest record vs perf/budgets.toml)\n\n"@,
            ];
            let mut i: usize = 0;
            proof {
                assert(all.take(0) =~= Seq::<Shown>::empty());
                assert(d@ =~= start + finding_parts(all.take(0)));
            }
            while i < findings.len()
                invariant
                    i <= findings@.len(),
                    all == shown(findings@),
                    d.wf(),
                    d@ == start + finding_parts(all.take(i as int)),
                decreases findings@.len() - i,
            {
                match findings[i].level {
                    Level::Pass => d.put("- [ok] "),
                    Level::Warn => d.put("- [warn] "),
                    Level::Breach => d.put("- [breach] "),
                }
                d.put(findings[i].text.as_str());
                d.put("\n");
                proof {
                    assert(all.take(i + 1).drop_last() =~= all.take(i as int));
                    assert(all.take(i + 1).last() == all[i as int]);
                    assert(d@ =~= start + finding_parts(all.take(i + 1)));
                }
                i = i + 1;
            }
            proof {
                assert(all.take(i as int) =~= all);
            }
            d.put("\n");
            proof {
                assert(d@ =~= old(d)@ + budget_parts(Some(*loaded), *latest, shares@));
            }
        },
        None => {
            d.put("## budgets\n\n- skipped: perf/budgets.toml not loadable\n\n");
            proof {
                assert(d@ =~= old(d)@ + budget_parts(None, *latest, shares@));
            }
        },
    }
}

/// Append an item's line.
fn put_item(d: &mut Doc, item: &BacklogItem, now: u64)
    requires
        old(d).wf(),
    ensures
        final(d).wf(),
        final(d)@ == old(d)@ + item_parts((item.text@, item.added_days), now),
{
    match item.added_days {
        Some(added) => {
            let today: i64 = (now / DAY_SECONDS) as i64;
            let days: u64 = if added >= today {
                0
            } else {
                (today as i128 - added as i128) as u64
            };
            assert(days == age(now, added));
            if days > BACKLOG_FLAG_DAYS {
                d.put("- ⚠ ");
                d.put(item.text.as_str());
                d.put(" — added ");
                d.put_dec(days);
                d.put("d ago — older than two weekly cycles; action: schedule, split, or close\n");
            } else {
                d.put("- ");
                d.put(item.text.as_str());
                d.put(" — added ");
                d.put_dec(days);
                d.put("d ago\n");
            }
        },
        None => {
            d.put("- ");
            d.put(item.text.as_str());
            d.put(" — no Added date (see backlog.md conventions)\n");
        },
    }
    proof {
        assert(d@ =~= old(d)@ + item_parts((item.text@, item.added_days), now));
    }
}

/// Append the backlog section.
fn put_backlog(d: &mut Doc, backlog: Option<&Vec<BacklogItem>>, now: u64)
    requires
        old(d).wf(),
    ensures
        final(d).wf(),
        final(d)@ == old(d)@ + backlog_parts(
            match backlog {
                Some(items) => Some(item_texts(items@)),
                None => None,
            },
            now,
        ),
{
    match backlog {
        Some(items) => {
            let ghost all = item_texts(items@);
            d.put("## backlog (");
            d.put_dec(items.len() as u64);
            d.put(" open, from backlog.md)\n\n");
            let ghost start = old(d)@ + seq![
                "## backlog ("@,
                dec(all.len()),
                " open, from backlog.md)\n\n"@,
            ];
            proof {
                assert(all.len() == items@.len());
                assert(d@ =~= start);
            }
            if items.len() == 0 {
                d.put("- none — no open items\n");
            } else {
                let mut i: usize = 0;
                proof {
                    assert(all.take(0) =~= Seq::<(Seq<char>, Option<i64>)>::empty());
                    assert(d@ =~= start + items_parts(all.take(0), now));
                }
                while i < items.len()
                    invariant
                        i <= items@.len(),
                        all == item_texts(items@),
                        d.wf(),
                        d@ == start + items_parts(all.take(i as int), now),
                    decreases items@.len() - i,
                {
                    put_item(d, &items[i], now);
                    proof {
                        assert(all.take(i + 1).drop_last() =~= all.take(i as int));
                        assert(all.take(i + 1).last() == all[i as int]);
                        assert(d@ =~= start + items_parts(all.take(i + 1), now));
                    }
                    i = i + 1;
                }
                proof {
                    assert(all.take(i as int) =~= all);
                }
            }
            d.put("\n");
            proof {
                assert(d@ =~= old(d)@ + backlog_parts(Some(all), now));
            }
        },
        None => {
            d.put("## backlog\n\n- skipped: backlog.md not found at workspace root\n\n");
            proof {
                assert(d@ =~= old(d)@ + backlog_parts(None, now));
            }
        },
    }
}

/// A number of a delta, or a dash.
fn cell_text(v: Option<u64>) -> (r: String)
    ensures
        r@ == cell(v),
{
    match v {
        Some(n) => fmt_num(n),
        None => "—".to_owned(),
    }
}

/// Append the rows of the delta table.
fn put_rows(d: &mut Doc, deltas: &Vec<Delta>, shares: &Vec<String>)
    requires
        old(d).wf(),
        shares@.len() == deltas@.len(),
    ensures
        final(d).wf(),
        final(d)@ == old(d)@ + row_parts(
            delta_models(deltas@),
            shares@,
            deltas@.len() as int,
        ),
{
    let ghost all = delta_models(deltas@);
    let mut i: usize = 0;
    proof {
        assert(d@ =~= old(d)@ + row_parts(all, shares@, 0));
    }
    while i < deltas.len()
        invariant
            i <= deltas@.len(),
            shares@.len() == deltas@.len(),
            all == delta_models(deltas@),
            d.wf(),
            d@ == old(d)@ + row_parts(all, shares@, i as int),
        decreases deltas@.len() - i,
    {
        let base = cell_text(deltas[i].base);
        let last = cell_text(deltas[i].last);
        let change = delta_pct(&deltas[i], shares[i].as_str());
        d.put("| ");
        d.put(deltas[i].metric.as_str());
        d.put(" | ");
        d.put(base.as_str());
        d.put(" | ");
        d.put(last.as_str());
        d.put(" | ");
        d.put(change.as_str());
        d.put(" |\n");
        proof {
            assert(all[i as int] == deltas@[i as int]@);
            assert(d@ =~= old(d)@ + row_parts(all, shares@, i + 1));
        }
        i = i + 1;
    }
}

/// Append the findings among the deltas.
fn put_flags(d: &mut Doc, deltas: &Vec<Delta>, shares: &Vec<String>)
    requires
        old(d).wf(),
        shares@.len() == deltas@.len(),
    ensures
        final(d).wf(),
        final(d)@ == old(d)@ + flag_parts(
            delta_models(deltas@),
            shares@,
            deltas@.len() as int,
        ),
{
    let ghost all = delta_models(deltas@);
    let mut i: usize = 0;
    proof {
        assert(d@ =~= old(d)@ + flag_parts(all, shares@, 0));
    }
    while i < deltas.len()
        invariant
            i <= deltas@.len(),
            shares@.len() == deltas@.len(),
            all == delta_models(deltas@),
            d.wf(),
            d@ == old(d)@ + flag_parts(all, shares@, i as int),
        decreases deltas@.len() - i,
    {
        if is_flagged(&deltas[i]) {
            let change = delta_pct(&deltas[i], shares[i].as_str());
            d.put("- **");
            d.put(deltas[i].metric.as_str());
            d.put("**: ");
            d.put(change.as_str());
            d.put(" — action: ");
            d.put(deltas[i].action);
            d.put("\n");
        }
        proof {
            assert(all[i as int] == deltas@[i as int]@);
            assert(d@ =~= old(d)@ + flag_parts(all, shares@, i + 1));
        }
        i = i + 1;
    }
}

/// Whether any delta is a finding.
fn any_flagged(deltas: &Vec<Delta>, Ghost(shares): Ghost<Seq<String>>) -> (r: bool)
    ensures
        r == (flag_parts(delta_models(deltas@), shares, deltas@.len() as int).len() > 0),
{
    let ghost all = delta_models(deltas@);
    let mut found = false;
    let mut i: usize = 0;
    while i < deltas.len()
        invariant
            i <= deltas@.len(),
            all == delta_models(deltas@),
            found == (flag_parts(all, shares, i as int).len() > 0),
        decreases deltas@.len() - i,
    {
        proof {
            assert(all[i as int] == deltas@[i as int]@);
        }
        if is_flagged(&deltas[i]) {
            found = true;
        }
        i = i + 1;
    }
    found
}

/// Append the delta section.
fn put_deltas(d: &mut Doc, base: &Record, latest: &Record, shares: &Vec<String>)
    requires
        old(d).wf(),
        shares@.len() == deltas_of(*base, *latest).len(),
    ensures
        final(d).wf(),
        final(d)@ == old(d)@ + delta_parts(*base, *latest, shares@),
{
    d.put("## deltas (first → last in window, same env)\n\n");
    if base.unix_time != latest.unix_time {
        let deltas = collect_deltas(base, latest);
        proof {
            assert(delta_models(deltas@).len() == deltas@.len());
        }
        d.put("| metric | first | last | Δ |\n|---|---|---|---|\n");
        put_rows(d, &deltas, shares);
        d.put("\n");
        if !any_flagged(&deltas, Ghost(shares@)) {
            d.put("no flagged findings in window.\n");
        } else {
            d.put("### findings (each with a recommended action)\n\n");
            put_flags(d, &deltas, shares);
        }
        d.put("\n");
    } else {
        d.put("only one record in this window/env — nothing to diff yet.\n\n");
    }
    proof {
        assert(d@ =~= old(d)@ + delta_parts(*base, *latest, shares@));
    }
}

/// Append the section of skipped metrics.
fn put_skipped(d: &mut Doc, r: &Record)
    requires
        old(d).wf(),
    ensures
        final(d).wf(),
        final(d)@ == old(d)@ + skipped_parts(*r),
{
    d.put("## skipped metrics (latest record)\n\n");
    let ghost start = old(d)@ + seq!["## skipped metrics (latest record)\n\n"@];
    proof {
        assert(d@ =~= start);
    }
    if r.skipped.len() == 0 {
        d.put("- none\n");
    } else {
        let mut i: usize = 0;
        proof {
            assert(d@ =~= start + skip_parts(*r, 0));
        }
        while i < r.skipped.len()
            invariant
                i <= r.skipped@.len(),
                d.wf(),
                d@ == start + skip_parts(*r, i as int),
            decreases r.skipped@.len() - i,
        {
            d.put("- ");
            d.put(r.skipped[i].metric.as_str());
            d.put(": ");
            d.put(r.skipped[i].reason.as_str());
            d.put("\n");
            i = i + 1;
            proof {
                assert(d@ =~= start + skip_parts(*r, i as int));
            }
        }
    }
    proof {
        assert(d@ =~= old(d)@ + skipped_parts(*r));
    }
}

/// Render the report: budget state of the latest record, open backlog
/// items with their age, first to last deltas within one environment,
/// findings each paired with an action, and the skip log.
pub fn render(window: &Vec<Record>, context: &Context) -> (r: String)
    requires
        context_fits(window@, *context),
    ensures
        r@ == report_document(window@, *context),
{
    let n: usize = window.len();
    let base: usize = baseline_index(window);
    let mut d = Doc::new();
    put_head(&mut d, window, context.since);
    let ghost head = head_parts(window@, context.since@);
    proof {
        assert(d@ =~= head);
    }
    d.put("\n");
    proof {
        assert(d@ =~= head + seq!["\n"@]);
    }
    put_budgets(&mut d, context.budgets, &window[n - 1], &context.shares);
    put_backlog(&mut d, context.backlog, context.now);
    put_deltas(&mut d, &window[base], &window[n - 1], &context.delta_shares);
    put_skipped(&mut d, &window[n - 1]);
    d.finish()
}

/// Numbers are compared only like with like: the record that a window is
/// held against comes from the runner, compiler and host of its last one,
/// and no earlier record of the window does.
pub proof fn lemma_baseline_shares_the_environment(window: Seq<Record>)
    requires
        window.len() > 0,
    ensures
        same_env(baseline(window), window.last()),
        forall|i: int|
            0 <= i < first_env(window, window.last(), 0) ==> !same_env(
                #[trigger] window[i],
                window.last(),
            ),
{
    lemma_first_env(window, window.last(), 0);
}

proof fn lemma_first_env(window: Seq<Record>, r: Record, from: int)
    requires
        0 <= from < window.len(),
        same_env(window.last(), r),
    ensures
        from <= first_env(window, r, from) < window.len(),
        same_env(window[first_env(window, r, from)], r),
        forall|i: int|
            from <= i < first_env(window, r, from) ==> !same_env(#[trigger] window[i], r),
    decreases window.len() - from,
{
    if !(from >= window.len() - 1 || same_env(window[from], r)) {
        lemma_first_env(window, r, from + 1);
    }
}

/// One of the standing recommendations.
pub open spec fn recommended(action: Seq<char>) -> bool {
    action == action_attr() || action == action_bench() || action == action_frame() || action
        == action_alloc() || action == action_deps()
}

/// Every change between two records comes with a recommendation, so no
/// finding stands without one.
pub proof fn lemma_every_delta_has_an_action(base: Record, last: Record)
    ensures
        forall|i: int|
            0 <= i < deltas_of(base, last).len() ==> recommended(
                (#[trigger] deltas_of(base, last)[i]).action,
            ),
{
    lemma_artifact_actions(base, last, base.artifacts@.len() as int);
    lemma_new_artifact_actions(base, last, last.artifacts@.len() as int);
    lemma_bench_actions(base, last, base.benches@.len() as int);
    lemma_runtime_actions(base, last, base.runtime@.len() as int);
    lemma_memory_actions(base, last, base.memory@.len() as int);
}

/// Every delta comes with a recommendation.
spec fn all_recommended(deltas: Seq<DeltaModel>) -> bool {
    forall|i: int| 0 <= i < deltas.len() ==> recommended((#[trigger] deltas[i]).action)
}

proof fn lemma_artifact_actions(base: Record, last: Record, n: int)
    ensures
        all_recommended(kept_artifacts(base, last, n)),
    decreases n,
{
    if n > 0 {
        lemma_artifact_actions(base, last, n - 1);
    }
}

proof fn lemma_new_artifact_actions(base: Record, last: Record, n: int)
    ensures
        all_recommended(new_artifacts(base, last, n)),
    decreases n,
{
    if n > 0 {
        lemma_new_artifact_actions(base, last, n - 1);
    }
}

proof fn lemma_bench_actions(base: Record, last: Record, n: int)
    ensures
        all_recommended(bench_deltas(base, last, n)),
    decreases n,
{
    if n > 0 {
        lemma_bench_actions(base, last, n - 1);
    }
}

proof fn lemma_runtime_actions(base: Record, last: Record, n: int)
    ensures
        all_recommended(runtime_deltas(base, last, n)),
    decreases n,
{
    if n > 0 {
        lemma_runtime_actions(base, last, n - 1);
    }
}

proof fn lemma_memory_actions(base: Record, last: Record, n: int)
    ensures
        all_recommended(memory_deltas(base, last, n)),
    decreases n,
{
    if n > 0 {
        lemma_memory_actions(base, last, n - 1);
    }
}

} // verus!

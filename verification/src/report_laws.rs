//! What holds of every trend report: only records of one environment are
//! compared, every metric of both ends is compared, every finding is
//! listed with its action, and nothing that is skipped is passed over.
use vstd::prelude::*;

verus! {

use crate::doc::{
    holds, joined, lemma_ends_are_held, lemma_holds_through, lemma_runs_are_held, lemma_single,
    lemma_stretches_are_held,
};
use crate::budgets::{comparison, Level, Shown};
use crate::record::Record;
use crate::report::{
    backlog_parts, baseline, bench_deltas, budget_parts, change_text, context_backlog,
    context_budgets, delta_parts, deltas_of, env_count, filled_lines, finding_parts, first_env,
    flag_parts, flagged, head_parts, in_time_order, in_window, item_parts, items_parts, kept_artifacts,
    lemma_baseline_shares_the_environment, memory_deltas, new_artifacts, report_document,
    row_parts, runtime_deltas, same_env, selected, skip_parts, skipped_parts, window_of, Context, DeltaModel,
};
use crate::table::{first_at, lookup};
use crate::text::{dec, grouped};

// ---------------------------------------------------------------------------
// Environments
// ---------------------------------------------------------------------------

/// The record that a window is held against agrees with its last record
/// on runner, compiler and host, and no record before it does.
pub proof fn lemma_only_one_environment_is_compared(window: Seq<Record>)
    requires
        window.len() > 0,
    ensures
        baseline(window).runner@ == window.last().runner@,
        baseline(window).env.rustc@ == window.last().env.rustc@,
        baseline(window).env.host@ == window.last().env.host@,
        exists|at: int|
            0 <= at < window.len() && #[trigger] window[at] == baseline(window) && forall|i: int|
                0 <= i < at ==> (#[trigger] window[i]).runner@ != window.last().runner@
                    || window[i].env.rustc@ != window.last().env.rustc@ || window[i].env.host@
                    != window.last().env.host@,
{
    lemma_baseline_shares_the_environment(window);
    lemma_first_env_in_range(window, 0);
    let at = first_env(window, window.last(), 0);
    assert(window[at] == baseline(window));
    assert forall|i: int| 0 <= i < at implies (#[trigger] window[i]).runner@
        != window.last().runner@ || window[i].env.rustc@ != window.last().env.rustc@
        || window[i].env.host@ != window.last().env.host@ by {
        assert(!same_env(window[i], window.last()));
    }
}

proof fn lemma_first_env_in_range(window: Seq<Record>, from: int)
    requires
        0 <= from < window.len(),
    ensures
        from <= first_env(window, window.last(), from) < window.len(),
    decreases window.len() - from,
{
    if !(from >= window.len() - 1 || same_env(window[from], window.last())) {
        lemma_first_env_in_range(window, from + 1);
    }
}

/// The records of a window that share the environment of `r`.
pub open spec fn of_one_environment(window: Seq<Record>, r: Record, n: int) -> Set<int> {
    Set::new(
        |i: int|
            0 <= i < n && window[i].runner@ == r.runner@ && window[i].env.rustc@ == r.env.rustc@
                && window[i].env.host@ == r.env.host@,
    )
}

/// A record counts as of one environment exactly when runner, compiler
/// and host all agree.
pub proof fn lemma_environments_agree_on_all_three(window: Seq<Record>, r: Record, n: int)
    requires
        0 <= n <= window.len(),
    ensures
        of_one_environment(window, r, n).finite(),
        env_count(window, r, n) == of_one_environment(window, r, n).len(),
    decreases n,
{
    if n == 0 {
        assert(of_one_environment(window, r, 0) =~= Set::empty());
    } else {
        lemma_environments_agree_on_all_three(window, r, n - 1);
        if same_env(window[n - 1], r) {
            assert(of_one_environment(window, r, n) =~= of_one_environment(window, r, n - 1).insert(
                n - 1,
            ));
        } else {
            assert(of_one_environment(window, r, n) =~= of_one_environment(window, r, n - 1));
        }
    }
}

/// At most the first seven characters of a text.
pub open spec fn first_seven(text: Seq<char>) -> Seq<char> {
    text.take(
        if text.len() < 7 {
            text.len() as int
        } else {
            7
        },
    )
}

/// The report opens with its window, how many of its records share the
/// last one's environment, that environment, and the range compared; and
/// says how many records are left out where some are.
pub proof fn lemma_reports_open_with_their_range(window: Seq<Record>, c: Context)
    requires
        window.len() > 0,
    ensures
        ({
            let last = window.last();
            let all = of_one_environment(window, last, window.len() as int).len();
            let doc = report_document(window, c);
            &&& holds(
                doc,
                joined(
                    seq![
                        "# perf report\n\n- window: last "@,
                        c.since@,
                        "; "@,
                        dec(window.len()),
                        " record(s) ("@,
                        dec(all),
                        " same env as latest)\n- env: runner "@,
                        last.runner@,
                        ", "@,
                        last.env.rustc@,
                        ", "@,
                        last.env.host@,
                        "\n- range: "@,
                        first_seven(baseline(window).git.sha@),
                        " → "@,
                        first_seven(last.git.sha@),
                        " ("@,
                        last.git.commit_time@,
                        ")\n"@,
                    ],
                ),
            )
            &&& all < window.len() ==> holds(
                doc,
                joined(
                    seq![
                        "- ⚠ "@,
                        dec((window.len() - all) as nat),
                        " record(s) excluded from deltas: different runner/rustc/host (D8.1)\n"@,
                    ],
                ),
            )
        }),
{
    let last = window.last();
    lemma_environments_agree_on_all_three(window, last, window.len() as int);
    lemma_sections_are_held(window, c);
    let head = head_parts(window, c.since@);
    let doc = report_document(window, c);
    let same = env_count(window, last, window.len() as int);
    assert(first_seven(last.git.sha@) =~= crate::report::short_sha(last.git.sha@));
    assert(first_seven(baseline(window).git.sha@) =~= crate::report::short_sha(
        baseline(window).git.sha@,
    ));
    lemma_stretches_are_held(head, 0, 19);
    assert(head.subrange(0, 19) =~= seq![
        "# perf report\n\n- window: last "@,
        c.since@,
        "; "@,
        dec(window.len()),
        " record(s) ("@,
        dec(same),
        " same env as latest)\n- env: runner "@,
        last.runner@,
        ", "@,
        last.env.rustc@,
        ", "@,
        last.env.host@,
        "\n- range: "@,
        first_seven(baseline(window).git.sha@),
        " → "@,
        first_seven(last.git.sha@),
        " ("@,
        last.git.commit_time@,
        ")\n"@,
    ]);
    lemma_holds_through(doc, joined(head), joined(head.subrange(0, 19)));
    if same < window.len() {
        lemma_stretches_are_held(head, 19, 22);
        assert(head.subrange(19, 22) =~= seq![
            "- ⚠ "@,
            dec((window.len() - same) as nat),
            " record(s) excluded from deltas: different runner/rustc/host (D8.1)\n"@,
        ]);
        lemma_holds_through(doc, joined(head), joined(head.subrange(19, 22)));
    }
}

/// The document holds all its sections.
proof fn lemma_sections_are_held(window: Seq<Record>, c: Context)
    ensures
        ({
            let doc = report_document(window, c);
            let last = window.last();
            &&& holds(doc, joined(head_parts(window, c.since@)))
            &&& holds(doc, joined(budget_parts(context_budgets(c), last, c.shares@)))
            &&& holds(doc, joined(backlog_parts(context_backlog(c), c.now)))
            &&& holds(doc, joined(delta_parts(baseline(window), last, c.delta_shares@)))
            &&& holds(doc, joined(skipped_parts(last)))
        }),
{
    let last = window.last();
    let h = head_parts(window, c.since@);
    let nl = seq!["\n"@];
    let b = budget_parts(context_budgets(c), last, c.shares@);
    let l = backlog_parts(context_backlog(c), c.now);
    let d = delta_parts(baseline(window), last, c.delta_shares@);
    let s = skipped_parts(last);
    let all = h + nl + b + l + d + s;
    lemma_ends_are_held(h, nl + b + l + d + s);
    assert(h + (nl + b + l + d + s) =~= all);
    lemma_runs_are_held(h + nl, b, l + d + s);
    assert(h + nl + b + (l + d + s) =~= all);
    lemma_runs_are_held(h + nl + b, l, d + s);
    assert(h + nl + b + l + (d + s) =~= all);
    lemma_runs_are_held(h + nl + b + l, d, s);
    lemma_ends_are_held(h + nl + b + l + d, s);
}

// ---------------------------------------------------------------------------
// The window
// ---------------------------------------------------------------------------

/// A window holds exactly the records that are at most its days old.
pub proof fn lemma_windows_hold_the_recent(
    times: Seq<u64>,
    now: u64,
    days: Option<u64>,
    n: int,
    i: int,
)
    requires
        0 <= i < n <= times.len() <= usize::MAX,
    ensures
        window_of(times, now, days, n).contains(i as usize) <==> (days matches Some(d) ==> times[i]
            + d * 86_400 >= now),
    decreases n,
{
    let front = window_of(times, now, days, n - 1);
    let w = window_of(times, now, days, n);
    let it = i as usize;
    let kept = in_window(times[n - 1], now, days);
    if i == n - 1 {
        assert(kept <==> (days matches Some(d) ==> times[i] + d * 86_400 >= now));
        if kept {
            assert(w[w.len() - 1] == it);
        } else if w.contains(it) {
            let k = choose|k: int| 0 <= k < w.len() && w[k] == it;
            lemma_windows_ascend(times, now, days, n - 1, k, k);
        }
    } else {
        lemma_windows_hold_the_recent(times, now, days, n - 1, i);
        if front.contains(it) {
            let k = choose|k: int| 0 <= k < front.len() && front[k] == it;
            assert(w[k] == it);
        }
        if w.contains(it) {
            let k = choose|k: int| 0 <= k < w.len() && w[k] == it;
            if kept {
                assert(w[w.len() - 1] == (n - 1) as usize);
            }
            assert(front[k] == it);
        }
    }
}

/// A window keeps the order of its records, each once.
pub proof fn lemma_windows_ascend(
    times: Seq<u64>,
    now: u64,
    days: Option<u64>,
    n: int,
    j: int,
    k: int,
)
    requires
        0 <= n <= times.len() <= usize::MAX,
        0 <= j <= k < window_of(times, now, days, n).len(),
    ensures
        window_of(times, now, days, n)[k] < n,
        j < k ==> window_of(times, now, days, n)[j] < window_of(times, now, days, n)[k],
    decreases n,
{
    let front = window_of(times, now, days, n - 1);
    if n > 0 {
        if k < front.len() {
            lemma_windows_ascend(times, now, days, n - 1, j, k);
        } else if j < k {
            lemma_windows_ascend(times, now, days, n - 1, j, j);
        }
    }
}

/// A shard's records are its lines that are not blank, numbered from one,
/// in order.
pub proof fn lemma_blank_lines_hold_no_record(all: Seq<Seq<char>>, n: int, i: int)
    requires
        0 <= i < n <= all.len() < usize::MAX,
    ensures
        filled_lines(all, n).contains(((i + 1) as usize, all[i])) <==> crate::chars::trim(
            all[i],
        ).len() > 0,
    decreases n,
{
    let front = filled_lines(all, n - 1);
    let w = filled_lines(all, n);
    lemma_filled_lines_ascend(all, n - 1);
    let it = ((i + 1) as usize, all[i]);
    if i < n - 1 {
        lemma_blank_lines_hold_no_record(all, n - 1, i);
        if front.contains(it) {
            let k = choose|k: int| 0 <= k < front.len() && front[k] == it;
            assert(w[k] == it);
        }
        if w.contains(it) {
            let k = choose|k: int| 0 <= k < w.len() && w[k] == it;
            if k < front.len() {
                assert(front[k] == it);
            }
        }
    } else {
        if crate::chars::trim(all[i]).len() > 0 {
            assert(w[w.len() - 1] == it);
        } else if w.contains(it) {
            let k = choose|k: int| 0 <= k < w.len() && w[k] == it;
            assert(front[k].0 <= n - 1);
        }
    }
}

proof fn lemma_filled_lines_ascend(all: Seq<Seq<char>>, n: int)
    requires
        0 <= n <= all.len() < usize::MAX,
    ensures
        forall|k: int| 0 <= k < filled_lines(all, n).len() ==> (#[trigger] filled_lines(all, n)[k]).0
            <= n,
    decreases n,
{
    if n > 0 {
        lemma_filled_lines_ascend(all, n - 1);
        let front = filled_lines(all, n - 1);
        assert forall|k: int| 0 <= k < filled_lines(all, n).len() implies (#[trigger] filled_lines(
            all,
            n,
        )[k]).0 <= n by {
            if k < front.len() {
                assert(front[k].0 <= n - 1);
            }
        }
    }
}

// ---------------------------------------------------------------------------
// Deltas
// ---------------------------------------------------------------------------

/// An artifact's delta: any change of a size is real.
pub open spec fn size_delta(name: Seq<char>, base: Option<u64>, last: Option<u64>) -> DeltaModel {
    DeltaModel {
        metric: joined(seq!["artifact "@, name, " bytes"@]),
        base,
        last,
        flag_pct: Some(0),
        action: "run `cargo xtask perf attribute` for size/monomorphization attribution"@,
    }
}

/// Every artifact of either record is compared, those of the first with
/// what the last measured, the new ones with nothing.
pub proof fn lemma_every_artifact_is_compared(base: Record, last: Record, i: int)
    ensures
        0 <= i < base.artifacts@.len() ==> deltas_of(base, last).contains(
            size_delta(
                base.artifacts@[i].0@,
                Some(base.artifacts@[i].1),
                lookup(last.artifacts@, base.artifacts@[i].0@),
            ),
        ),
        0 <= i < last.artifacts@.len() && first_at(base.artifacts@, last.artifacts@[i].0@) is None
            ==> deltas_of(base, last).contains(
            size_delta(last.artifacts@[i].0@, None, Some(last.artifacts@[i].1)),
        ),
{
    let all = deltas_of(base, last);
    let kept = kept_artifacts(base, last, base.artifacts@.len() as int);
    let new = new_artifacts(base, last, last.artifacts@.len() as int);
    lemma_kept_len(base, last, base.artifacts@.len() as int);
    if 0 <= i < base.artifacts@.len() {
        lemma_kept_at(base, last, base.artifacts@.len() as int, i);
        assert(all[i] == kept[i]);
    }
    if 0 <= i < last.artifacts@.len() && first_at(base.artifacts@, last.artifacts@[i].0@) is None {
        let k = lemma_new_at(base, last, last.artifacts@.len() as int, i);
        assert(all[kept.len() + k] == new[k]);
    }
}

proof fn lemma_kept_len(base: Record, last: Record, n: int)
    requires
        0 <= n,
    ensures
        kept_artifacts(base, last, n).len() == n,
        bench_deltas(base, last, n).len() == n,
        runtime_deltas(base, last, n).len() == 2 * n,
        memory_deltas(base, last, n).len() == 2 * n,
        new_artifacts(base, last, n).len() <= n,
    decreases n,
{
    if n > 0 {
        lemma_kept_len(base, last, n - 1);
    }
}

proof fn lemma_kept_at(base: Record, last: Record, n: int, i: int)
    requires
        0 <= i < n <= base.artifacts@.len(),
    ensures
        kept_artifacts(base, last, n)[i] == size_delta(
            base.artifacts@[i].0@,
            Some(base.artifacts@[i].1),
            lookup(last.artifacts@, base.artifacts@[i].0@),
        ),
    decreases n,
{
    lemma_kept_len(base, last, n - 1);
    if i < n - 1 {
        lemma_kept_at(base, last, n - 1, i);
    }
}

proof fn lemma_new_at(base: Record, last: Record, n: int, i: int) -> (k: int)
    requires
        0 <= i < n <= last.artifacts@.len(),
        first_at(base.artifacts@, last.artifacts@[i].0@) is None,
    ensures
        0 <= k < new_artifacts(base, last, n).len(),
        new_artifacts(base, last, n)[k] == size_delta(
            last.artifacts@[i].0@,
            None,
            Some(last.artifacts@[i].1),
        ),
    decreases n,
{
    if i < n - 1 {
        lemma_new_at(base, last, n - 1, i)
    } else {
        new_artifacts(base, last, n - 1).len() as int
    }
}

/// Dependencies, benches, frame times and allocations are compared, each
/// with its threshold and its action: any change of the dependency and
/// allocation counts, one percent of instructions, two of peak memory,
/// ten of frame times.
pub proof fn lemma_every_metric_is_compared(base: Record, last: Record, i: int)
    ensures
        ({
            let all = deltas_of(base, last);
            &&& all.contains(
                DeltaModel {
                    metric: "deps external (normal)"@,
                    base: Some(base.deps.external_normal),
                    last: Some(last.deps.external_normal),
                    flag_pct: Some(0),
                    action: "inspect `cargo tree -d`; dedupe via workspace dependencies"@,
                },
            )
            &&& 0 <= i < base.benches@.len() ==> {
                let e = base.benches@[i];
                all.contains(
                    DeltaModel {
                        metric: joined(seq!["bench "@, e.0@, " instructions"@]),
                        base: Some(e.1.instructions),
                        last: match lookup(last.benches@, e.0@) {
                            Some(m) => Some(m.instructions),
                            None => None,
                        },
                        flag_pct: Some(1),
                        action: "re-run `cargo bench -p bw-core --bench iai_sim --profile runtime` locally to confirm, then `cargo xtask perf attribute` for pressure"@,
                    },
                )
            }
            &&& 0 <= i < base.runtime@.len() ==> {
                let e = base.runtime@[i];
                let l = lookup(last.runtime@, e.0@);
                let time = |label: Seq<char>, b: u64, m: Option<u64>|
                    DeltaModel {
                        metric: joined(
                            seq!["runtime "@, e.0@, " frame_ms "@, label, " (×1000)"@],
                        ),
                        base: Some(b),
                        last: m,
                        flag_pct: Some(10),
                        action: "wall-clock tier: re-run `cargo xtask perf measure` on a quiet machine before trusting (D2)"@,
                    };
                &&& all.contains(
                    time(
                        "p50"@,
                        e.1.p50_micros,
                        match l {
                            Some(m) => Some(m.p50_micros),
                            None => None,
                        },
                    ),
                )
                &&& all.contains(
                    time(
                        "p99"@,
                        e.1.p99_micros,
                        match l {
                            Some(m) => Some(m.p99_micros),
                            None => None,
                        },
                    ),
                )
            }
            &&& 0 <= i < base.memory@.len() ==> {
                let e = base.memory@[i];
                let l = lookup(last.memory@, e.0@);
                let action = "run `cargo xtask perf dhat` to name the allocating callsite"@;
                &&& all.contains(
                    DeltaModel {
                        metric: joined(seq!["memory "@, e.0@, " total allocs"@]),
                        base: Some(e.1.allocs),
                        last: match l {
                            Some(m) => Some(m.allocs),
                            None => None,
                        },
                        flag_pct: Some(0),
                        action,
                    },
                )
                &&& all.contains(
                    DeltaModel {
                        metric: joined(seq!["memory "@, e.0@, " peak bytes"@]),
                        base: Some(e.1.peak_bytes),
                        last: match l {
                            Some(m) => Some(m.peak_bytes),
                            None => None,
                        },
                        flag_pct: Some(2),
                        action,
                    },
                )
            }
        }),
{
    let all = deltas_of(base, last);
    let kept = kept_artifacts(base, last, base.artifacts@.len() as int);
    let new = new_artifacts(base, last, last.artifacts@.len() as int);
    let at = (kept.len() + new.len()) as int;
    let benches = bench_deltas(base, last, base.benches@.len() as int);
    let times = runtime_deltas(base, last, base.runtime@.len() as int);
    let memory = memory_deltas(base, last, base.memory@.len() as int);
    lemma_kept_len(base, last, base.benches@.len() as int);
    lemma_kept_len(base, last, base.runtime@.len() as int);
    lemma_kept_len(base, last, base.memory@.len() as int);
    assert(all[at] == crate::report::deps_delta(base, last));
    if 0 <= i < base.benches@.len() {
        lemma_benches_at(base, last, base.benches@.len() as int, i);
        assert(all[at + 1 + i] == benches[i]);
    }
    if 0 <= i < base.runtime@.len() {
        lemma_runtime_at(base, last, base.runtime@.len() as int, i);
        assert(all[at + 1 + benches.len() + 2 * i] == times[2 * i]);
        assert(all[at + 1 + benches.len() + 2 * i + 1] == times[2 * i + 1]);
    }
    if 0 <= i < base.memory@.len() {
        lemma_memory_at(base, last, base.memory@.len() as int, i);
        assert(all[at + 1 + benches.len() + times.len() + 2 * i] == memory[2 * i]);
        assert(all[at + 1 + benches.len() + times.len() + 2 * i + 1] == memory[2 * i + 1]);
    }
}

proof fn lemma_benches_at(base: Record, last: Record, n: int, i: int)
    requires
        0 <= i < n <= base.benches@.len(),
    ensures
        bench_deltas(base, last, n)[i] == bench_deltas(base, last, i + 1)[i],
        bench_deltas(base, last, i + 1).len() == i + 1,
        bench_deltas(base, last, i).len() == i,
    decreases n,
{
    lemma_kept_len(base, last, i);
    lemma_kept_len(base, last, i + 1);
    lemma_kept_len(base, last, n - 1);
    if i < n - 1 {
        lemma_benches_at(base, last, n - 1, i);
    }
}

proof fn lemma_runtime_at(base: Record, last: Record, n: int, i: int)
    requires
        0 <= i < n <= base.runtime@.len(),
    ensures
        runtime_deltas(base, last, n)[2 * i] == runtime_deltas(base, last, i + 1)[2 * i],
        runtime_deltas(base, last, n)[2 * i + 1] == runtime_deltas(base, last, i + 1)[2 * i + 1],
        runtime_deltas(base, last, i).len() == 2 * i,
    decreases n,
{
    lemma_kept_len(base, last, i);
    lemma_kept_len(base, last, n - 1);
    if i < n - 1 {
        lemma_runtime_at(base, last, n - 1, i);
    }
}

proof fn lemma_memory_at(base: Record, last: Record, n: int, i: int)
    requires
        0 <= i < n <= base.memory@.len(),
    ensures
        memory_deltas(base, last, n)[2 * i] == memory_deltas(base, last, i + 1)[2 * i],
        memory_deltas(base, last, n)[2 * i + 1] == memory_deltas(base, last, i + 1)[2 * i + 1],
        memory_deltas(base, last, i).len() == 2 * i,
    decreases n,
{
    lemma_kept_len(base, last, i);
    lemma_kept_len(base, last, n - 1);
    if i < n - 1 {
        lemma_memory_at(base, last, n - 1, i);
    }
}

proof fn lemma_new_count(base: Record, last: Record, n: int)
    requires
        0 <= n <= last.artifacts@.len(),
    ensures
        new_artifacts(base, last, n).len() == last.artifacts@.take(n).filter(
            |e: (String, u64)| first_at(base.artifacts@, e.0@) is None,
        ).len(),
    decreases n,
{
    reveal(Seq::filter);
    if n > 0 {
        lemma_new_count(base, last, n - 1);
        assert(last.artifacts@.take(n).drop_last() =~= last.artifacts@.take(n - 1));
        assert(last.artifacts@.take(n).last() == last.artifacts@[n - 1]);
    } else {
        assert(last.artifacts@.take(0) =~= Seq::<(String, u64)>::empty());
    }
}

/// Nothing is compared twice, and nothing else is: one delta for every
/// artifact of either record, one for the dependencies, one for every
/// bench and two for every scene's frame times and memory, in that order.
pub proof fn lemma_deltas_are_counted_and_ordered(base: Record, last: Record)
    ensures
        ({
            let all = deltas_of(base, last);
            let n1 = base.artifacts@.len() as int;
            let n2 = n1 + last.artifacts@.filter(
                |e: (String, u64)| first_at(base.artifacts@, e.0@) is None,
            ).len();
            let n3 = n2 + 1 + base.benches@.len();
            &&& all.len() == n3 + 2 * base.runtime@.len() + 2 * base.memory@.len()
            &&& n1 > 0 ==> all[0] == kept_artifacts(base, last, n1)[0]
            &&& all[n2].metric == "deps external (normal)"@
            &&& base.benches@.len() > 0 ==> all[n2 + 1] == bench_deltas(
                base,
                last,
                base.benches@.len() as int,
            )[0]
            &&& base.runtime@.len() > 0 ==> all[n3] == runtime_deltas(
                base,
                last,
                base.runtime@.len() as int,
            )[0]
            &&& base.memory@.len() > 0 ==> all[n3 + 2 * base.runtime@.len()] == memory_deltas(
                base,
                last,
                base.memory@.len() as int,
            )[0]
        }),
{
    lemma_kept_len(base, last, base.artifacts@.len() as int);
    lemma_kept_len(base, last, base.benches@.len() as int);
    lemma_kept_len(base, last, base.runtime@.len() as int);
    lemma_kept_len(base, last, base.memory@.len() as int);
    lemma_new_count(base, last, last.artifacts@.len() as int);
    assert(last.artifacts@.take(last.artifacts@.len() as int) =~= last.artifacts@);
}

/// A change is a finding exactly when something appeared or disappeared,
/// grew from nothing, or moved either way by more than its threshold.
pub proof fn lemma_findings_are_large_changes(d: DeltaModel)
    ensures
        d.base is None || d.last is None ==> flagged(d),
        d.base matches Some(b) ==> d.last matches Some(l) ==> {
            &&& b == l ==> !flagged(d)
            &&& b == 0 && l > 0 ==> flagged(d)
            &&& d.flag_pct is None ==> (flagged(d) <==> b != l)
            &&& b > 0 ==> (d.flag_pct matches Some(t) ==> (flagged(d) <==> 100 * (l - b) > t * b
                || 100 * (b - l) > t * b))
        },
{
    if let (Some(b), Some(t)) = (d.base, d.flag_pct) {
        assert(t * b >= 0) by (nonlinear_arith)
            requires
                t >= 0,
                b >= 0,
        ;
    }
}

/// How a change reads: in percent, unless there is nothing to take a
/// percentage of.
pub proof fn lemma_changes_read_in_percent(d: DeltaModel, share: Seq<char>)
    ensures
        d.base is None || d.last is None ==> change_text(d, share) == "new/removed"@,
        d.base matches Some(b) ==> d.last matches Some(l) ==> {
            &&& b > 0 ==> change_text(d, share) == share + "%"@
            &&& b == 0 && l == 0 ==> change_text(d, share) == "0%"@
            &&& b == 0 && l > 0 ==> change_text(d, share) == "new"@
        },
{
}

// ---------------------------------------------------------------------------
// The sections
// ---------------------------------------------------------------------------

/// The table row of a delta.
pub open spec fn row(d: DeltaModel, share: Seq<char>) -> Seq<char> {
    let number = |v: Option<u64>|
        match v {
            Some(n) => grouped(n as nat),
            None => "—"@,
        };
    joined(
        seq![
            "| "@,
            d.metric,
            " | "@,
            number(d.base),
            " | "@,
            number(d.last),
            " | "@,
            change_text(d, share),
            " |\n"@,
        ],
    )
}

/// The line of a finding: what moved, by how much, and what to do.
pub open spec fn finding(d: DeltaModel, share: Seq<char>) -> Seq<char> {
    joined(
        seq![
            "- **"@,
            d.metric,
            "**: "@,
            change_text(d, share),
            " — action: "@,
            d.action,
            "\n"@,
        ],
    )
}

/// Where two records of one environment differ in time, the report has a
/// table row for every delta and a line with an action for every finding,
/// and says so when there is none.
pub proof fn lemma_deltas_are_tabled_and_flagged(window: Seq<Record>, c: Context, k: int)
    requires
        window.len() > 0,
        baseline(window).unix_time != window.last().unix_time,
        0 <= k < deltas_of(baseline(window), window.last()).len(),
    ensures
        ({
            let deltas = deltas_of(baseline(window), window.last());
            let doc = report_document(window, c);
            let share = c.delta_shares@[k]@;
            &&& holds(doc, "| metric | first | last | Δ |\n|---|---|---|---|\n"@)
            &&& holds(doc, row(deltas[k], share))
            &&& flagged(deltas[k]) ==> holds(doc, finding(deltas[k], share))
            &&& (forall|i: int| 0 <= i < deltas.len() ==> !flagged(#[trigger] deltas[i]))
                ==> holds(doc, "no flagged findings in window.\n"@)
        }),
{
    let deltas = deltas_of(baseline(window), window.last());
    let n = deltas.len() as int;
    let shares = c.delta_shares@;
    let doc = report_document(window, c);
    let section = delta_parts(baseline(window), window.last(), shares);
    lemma_sections_are_held(window, c);
    let a = seq!["## deltas (first → last in window, same env)\n\n"@];
    let b = seq!["| metric | first | last | Δ |\n|---|---|---|---|\n"@];
    let rows = row_parts(deltas, shares, n);
    let nl = seq!["\n"@];
    let flags = flag_parts(deltas, shares, n);
    let found = if flags.len() == 0 {
        seq!["no flagged findings in window.\n"@]
    } else {
        seq!["### findings (each with a recommended action)\n\n"@] + flags
    };
    assert(section =~= a + b + (rows + nl + found + nl));
    lemma_runs_are_held(a, b, rows + nl + found + nl);
    lemma_single(b[0]);
    assert(b =~= seq![b[0]]);
    lemma_holds_through(doc, joined(section), joined(b));
    assert(section =~= a + b + rows + (nl + found + nl));
    lemma_runs_are_held(a + b, rows, nl + found + nl);
    lemma_rows_held(deltas, shares, n, k);
    lemma_holds_through(doc, joined(section), joined(rows));
    lemma_holds_through(doc, joined(rows), row(deltas[k], shares[k]@));
    assert(section =~= a + b + rows + nl + found + nl);
    lemma_runs_are_held(a + b + rows + nl, found, nl);
    lemma_holds_through(doc, joined(section), joined(found));
    lemma_flags_held(deltas, shares, n, k);
    if flagged(deltas[k]) {
        lemma_ends_are_held(seq!["### findings (each with a recommended action)\n\n"@], flags);
        lemma_holds_through(doc, joined(found), joined(flags));
        lemma_holds_through(doc, joined(flags), finding(deltas[k], shares[k]@));
    }
    if forall|i: int| 0 <= i < deltas.len() ==> !flagged(#[trigger] deltas[i]) {
        lemma_no_flags(deltas, shares, n);
        lemma_single("no flagged findings in window.\n"@);
    }
}

proof fn lemma_rows_held(deltas: Seq<DeltaModel>, shares: Seq<String>, n: int, k: int)
    requires
        0 <= k < n <= deltas.len(),
    ensures
        holds(joined(row_parts(deltas, shares, n)), row(deltas[k], shares[k]@)),
    decreases n,
{
    let d = deltas[n - 1];
    let front = row_parts(deltas, shares, n - 1);
    let line = seq![
        "| "@,
        d.metric,
        " | "@,
        crate::report::cell(d.base),
        " | "@,
        crate::report::cell(d.last),
        " | "@,
        change_text(d, shares[n - 1]@),
        " |\n"@,
    ];
    lemma_ends_are_held(front, line);
    if k < n - 1 {
        lemma_rows_held(deltas, shares, n - 1, k);
        lemma_holds_through(
            joined(row_parts(deltas, shares, n)),
            joined(front),
            row(deltas[k], shares[k]@),
        );
    }
}

/// Seven pieces to a finding, and none to anything else.
proof fn lemma_flags_held(deltas: Seq<DeltaModel>, shares: Seq<String>, n: int, k: int)
    requires
        0 <= k < n <= deltas.len(),
    ensures
        flagged(deltas[k]) ==> flag_parts(deltas, shares, n).len() > 0 && holds(
            joined(flag_parts(deltas, shares, n)),
            finding(deltas[k], shares[k]@),
        ),
    decreases n,
{
    let d = deltas[n - 1];
    let front = flag_parts(deltas, shares, n - 1);
    let line = seq![
        "- **"@,
        d.metric,
        "**: "@,
        change_text(d, shares[n - 1]@),
        " — action: "@,
        d.action,
        "\n"@,
    ];
    lemma_ends_are_held(front, line);
    if k < n - 1 {
        lemma_flags_held(deltas, shares, n - 1, k);
        if flagged(d) && flagged(deltas[k]) {
            lemma_holds_through(
                joined(flag_parts(deltas, shares, n)),
                joined(front),
                finding(deltas[k], shares[k]@),
            );
        }
    }
}

proof fn lemma_no_flags(deltas: Seq<DeltaModel>, shares: Seq<String>, n: int)
    requires
        0 <= n <= deltas.len(),
        forall|i: int| 0 <= i < n ==> !flagged(#[trigger] deltas[i]),
    ensures
        flag_parts(deltas, shares, n).len() == 0,
    decreases n,
{
    if n > 0 {
        lemma_no_flags(deltas, shares, n - 1);
    }
}

/// Where there is nothing to compare, the report says so.
pub proof fn lemma_single_records_are_not_compared(window: Seq<Record>, c: Context)
    requires
        window.len() > 0,
        baseline(window).unix_time == window.last().unix_time,
    ensures
        holds(
            report_document(window, c),
            "only one record in this window/env — nothing to diff yet.\n\n"@,
        ),
{
    let doc = report_document(window, c);
    let section = delta_parts(baseline(window), window.last(), c.delta_shares@);
    lemma_sections_are_held(window, c);
    lemma_stretches_are_held(section, 1, 2);
    let line = "only one record in this window/env — nothing to diff yet.\n\n"@;
    assert(section.subrange(1, 2) =~= seq![line]);
    lemma_single(line);
    lemma_holds_through(doc, joined(section), line);
}

/// Every budget finding of the last record is reported under its level.
pub proof fn lemma_budget_findings_are_reported(window: Seq<Record>, c: Context, k: int)
    requires
        window.len() > 0,
        context_budgets(c) is Some,
        0 <= k < comparison(context_budgets(c)->0, window.last(), c.shares@).len(),
    ensures
        ({
            let f = comparison(context_budgets(c)->0, window.last(), c.shares@)[k];
            let tag = match f.0 {
                Level::Pass => "- [ok] "@,
                Level::Warn => "- [warn] "@,
                Level::Breach => "- [breach] "@,
            };
            holds(report_document(window, c), joined(seq![tag, f.1, "\n"@]))
        }),
{
    let all = comparison(context_budgets(c)->0, window.last(), c.shares@);
    let doc = report_document(window, c);
    lemma_sections_are_held(window, c);
    let a = seq!["## budgets (latest record vs perf/budgets.toml)\n\n"@];
    let found = finding_parts(all);
    lemma_runs_are_held(a, found, seq!["\n"@]);
    lemma_holds_through(
        doc,
        joined(budget_parts(context_budgets(c), window.last(), c.shares@)),
        joined(found),
    );
    lemma_findings_held(all, k);
    let f = all[k];
    lemma_holds_through(
        doc,
        joined(found),
        joined(seq![crate::report::level_tag(f.0), f.1, "\n"@]),
    );
}

proof fn lemma_findings_held(all: Seq<Shown>, k: int)
    requires
        0 <= k < all.len(),
    ensures
        holds(
            joined(finding_parts(all)),
            joined(seq![crate::report::level_tag(all[k].0), all[k].1, "\n"@]),
        ),
    decreases all.len(),
{
    let front = finding_parts(all.drop_last());
    let f = all.last();
    lemma_ends_are_held(front, seq![crate::report::level_tag(f.0), f.1, "\n"@]);
    if k < all.len() - 1 {
        lemma_findings_held(all.drop_last(), k);
        assert(all.drop_last()[k] == all[k]);
        lemma_holds_through(
            joined(finding_parts(all)),
            joined(front),
            joined(seq![crate::report::level_tag(all[k].0), all[k].1, "\n"@]),
        );
    }
}

/// Every open item is reported with its age in days; one that is older
/// than two weeks is flagged for a decision, and one without a date says
/// so.
pub proof fn lemma_open_items_are_reported(window: Seq<Record>, c: Context, k: int)
    requires
        context_backlog(c) is Some,
        0 <= k < context_backlog(c)->0.len(),
    ensures
        ({
            let item = context_backlog(c)->0[k];
            let doc = report_document(window, c);
            &&& item.1 matches Some(added) ==> {
                let days = c.now as int / 86_400 - added;
                &&& days > 14 ==> holds(
                    doc,
                    joined(
                        seq![
                            "- ⚠ "@,
                            item.0,
                            " — added "@,
                            dec(days as nat),
                            "d ago — older than two weekly cycles; action: schedule, split, or close\n"@,
                        ],
                    ),
                )
                &&& 0 <= days <= 14 ==> holds(
                    doc,
                    joined(seq!["- "@, item.0, " — added "@, dec(days as nat), "d ago\n"@]),
                )
                &&& days < 0 ==> holds(
                    doc,
                    joined(seq!["- "@, item.0, " — added "@, dec(0), "d ago\n"@]),
                )
            }
            &&& item.1 is None ==> holds(
                doc,
                joined(seq!["- "@, item.0, " — no Added date (see backlog.md conventions)\n"@]),
            )
        }),
{
    let list = context_backlog(c)->0;
    let doc = report_document(window, c);
    lemma_sections_are_held(window, c);
    let a = seq!["## backlog ("@, dec(list.len()), " open, from backlog.md)\n\n"@];
    let found = items_parts(list, c.now);
    lemma_runs_are_held(a, found, seq!["\n"@]);
    lemma_holds_through(doc, joined(backlog_parts(context_backlog(c), c.now)), joined(found));
    lemma_items_held(list, c.now, k);
    lemma_holds_through(doc, joined(found), joined(item_parts(list[k], c.now)));
}

proof fn lemma_items_held(list: Seq<(Seq<char>, Option<i64>)>, now: u64, k: int)
    requires
        0 <= k < list.len(),
    ensures
        holds(joined(items_parts(list, now)), joined(item_parts(list[k], now))),
    decreases list.len(),
{
    let front = items_parts(list.drop_last(), now);
    lemma_ends_are_held(front, item_parts(list.last(), now));
    if k < list.len() - 1 {
        lemma_items_held(list.drop_last(), now, k);
        assert(list.drop_last()[k] == list[k]);
        lemma_holds_through(
            joined(items_parts(list, now)),
            joined(front),
            joined(item_parts(list[k], now)),
        );
    }
}

/// Every metric that the last record skipped is reported with its reason.
pub proof fn lemma_skips_are_reported(window: Seq<Record>, c: Context, k: int)
    requires
        window.len() > 0,
        0 <= k < window.last().skipped@.len(),
    ensures
        holds(
            report_document(window, c),
            joined(
                seq![
                    "- "@,
                    window.last().skipped@[k].metric@,
                    ": "@,
                    window.last().skipped@[k].reason@,
                    "\n"@,
                ],
            ),
        ),
{
    let r = window.last();
    let doc = report_document(window, c);
    lemma_sections_are_held(window, c);
    let a = seq!["## skipped metrics (latest record)\n\n"@];
    let found = skip_parts(r, r.skipped@.len() as int);
    lemma_ends_are_held(a, found);
    lemma_holds_through(doc, joined(skipped_parts(r)), joined(found));
    lemma_skips_held(r, r.skipped@.len() as int, k);
    lemma_holds_through(
        doc,
        joined(found),
        joined(seq!["- "@, r.skipped@[k].metric@, ": "@, r.skipped@[k].reason@, "\n"@]),
    );
}

proof fn lemma_skips_held(r: Record, n: int, k: int)
    requires
        0 <= k < n <= r.skipped@.len(),
    ensures
        holds(
            joined(skip_parts(r, n)),
            joined(seq!["- "@, r.skipped@[k].metric@, ": "@, r.skipped@[k].reason@, "\n"@]),
        ),
    decreases n,
{
    let front = skip_parts(r, n - 1);
    let s = r.skipped@[n - 1];
    lemma_ends_are_held(front, seq!["- "@, s.metric@, ": "@, s.reason@, "\n"@]);
    if k < n - 1 {
        lemma_skips_held(r, n - 1, k);
        lemma_holds_through(
            joined(skip_parts(r, n)),
            joined(front),
            joined(seq!["- "@, r.skipped@[k].metric@, ": "@, r.skipped@[k].reason@, "\n"@]),
        );
    }
}

/// Where there is nothing to report, the report says so: no skipped
/// metric, no open item, no backlog, no budgets.
pub proof fn lemma_empty_sections_say_so(window: Seq<Record>, c: Context)
    requires
        window.len() > 0,
    ensures
        ({
            let doc = report_document(window, c);
            &&& window.last().skipped@.len() == 0 ==> holds(
                doc,
                "## skipped metrics (latest record)\n\n"@ + "- none\n"@,
            )
            &&& context_budgets(c) is None ==> holds(
                doc,
                "## budgets\n\n- skipped: perf/budgets.toml not loadable\n\n"@,
            )
            &&& context_backlog(c) is None ==> holds(
                doc,
                "## backlog\n\n- skipped: backlog.md not found at workspace root\n\n"@,
            )
            &&& context_backlog(c) matches Some(items) ==> holds(
                doc,
                joined(seq!["## backlog ("@, dec(items.len()), " open, from backlog.md)\n\n"@]),
            ) && (items.len() == 0 ==> holds(doc, "- none — no open items\n"@))
        }),
{
    let doc = report_document(window, c);
    lemma_sections_are_held(window, c);
    if window.last().skipped@.len() == 0 {
        let (a, b) = ("## skipped metrics (latest record)\n\n"@, "- none\n"@);
        lemma_single(a);
        crate::doc::lemma_joined_push(seq![a], b);
        assert(skipped_parts(window.last()) =~= seq![a].push(b));
    }
    if context_budgets(c) is None {
        lemma_single("## budgets\n\n- skipped: perf/budgets.toml not loadable\n\n"@);
    }
    match context_backlog(c) {
        None => {
            lemma_single(
                "## backlog\n\n- skipped: backlog.md not found at workspace root\n\n"@,
            );
        },
        Some(items) => {
            let all = backlog_parts(context_backlog(c), c.now);
            let head = seq!["## backlog ("@, dec(items.len()), " open, from backlog.md)\n\n"@];
            lemma_stretches_are_held(all, 0, 3);
            assert(all.subrange(0, 3) =~= head);
            lemma_holds_through(doc, joined(all), joined(head));
            if items.len() == 0 {
                lemma_stretches_are_held(all, 3, 4);
                assert(all.subrange(3, 4) =~= seq!["- none — no open items\n"@]);
                lemma_single("- none — no open items\n"@);
                lemma_holds_through(doc, joined(all), "- none — no open items\n"@);
            }
        },
    }
}

/// A report covers every record that is at most its days old and no
/// other, unless there is none: then it covers the last record alone.
pub proof fn lemma_reports_cover_the_recent(
    times: Seq<u64>,
    now: u64,
    days: Option<u64>,
    i: int,
    j: int,
)
    requires
        0 <= i < times.len() <= usize::MAX,
        0 <= j < times.len(),
    ensures
        (days matches Some(d) ==> times[j] + d * 86_400 >= now) ==> (selected(
            times,
            now,
            days,
        ).contains(i as usize) <==> (days matches Some(d) ==> times[i] + d * 86_400 >= now)),
        (days matches Some(d) && forall|k: int|
            0 <= k < times.len() ==> #[trigger] times[k] + d * 86_400 < now) ==> selected(
            times,
            now,
            days,
        ) == seq![(times.len() - 1) as usize],
{
    let n = times.len() as int;
    let w = window_of(times, now, days, n);
    lemma_windows_hold_the_recent(times, now, days, n, i);
    lemma_windows_hold_the_recent(times, now, days, n, j);
    if w.len() > 0 {
        let k = w[0] as int;
        lemma_windows_ascend(times, now, days, n, 0, 0);
        lemma_windows_hold_the_recent(times, now, days, n, k);
        assert(w.contains(k as usize));
    }
}

/// Records stand in the order of their times, and those of one time in
/// the order in which they were read.
pub proof fn lemma_records_stand_in_time_order(
    times: Seq<u64>,
    order: Seq<usize>,
    a: int,
    b: int,
)
    requires
        in_time_order(times, order),
        0 <= a < b < order.len(),
    ensures
        order[a] < times.len(),
        order[b] < times.len(),
        times[order[a] as int] <= times[order[b] as int],
        times[order[a] as int] == times[order[b] as int] ==> order[a] < order[b],
{
    assert(crate::report::earlier(times, order[a], order[b]));
}

} // verus!

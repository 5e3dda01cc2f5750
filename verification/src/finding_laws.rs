//! What a budget check says: a finding for every budget, for everything
//! measured without one, for the dependencies, the duplicates and the
//! allowlist, for the wasm32 check, and for every trend.
use vstd::prelude::*;

verus! {

use crate::budgets::{
    artifact_findings, bench_findings, comparison, deps_finding, duplicates_finding,
    failed_members, stale_findings, trend_findings, unbudgeted_findings, unexpected, wasm_finding,
    Budgets, Level, Shown,
};
use crate::doc::{around, holds, joined, lemma_holds_through, lemma_joined_push};
use crate::picture_laws::lemma_lists_hold_their_items;
use crate::record::Record;
use crate::table::{interleaved, lemma_entries_are_found, lemma_first_at, listed, texts};
use crate::text::{dec, grouped};

/// A list holds what one of its parts holds.
proof fn lemma_among(whole: Seq<Shown>, part: Seq<Shown>, from: int, k: int)
    requires
        0 <= from,
        from + part.len() <= whole.len(),
        0 <= k < part.len(),
        whole.subrange(from, from + part.len()) == part,
    ensures
        whole.contains(part[k]),
{
    assert(whole.subrange(from, from + part.len())[k] == whole[from + k]);
}

/// The parts of a comparison, in order.
proof fn lemma_parts(b: Budgets, r: Record, shares: Seq<String>)
    ensures
        ({
            let all = comparison(b, r, shares);
            &&& forall|k: int|
                0 <= k < artifact_findings(b, r, shares, b.artifact@.len() as int).len()
                    ==> all.contains(
                    #[trigger] artifact_findings(b, r, shares, b.artifact@.len() as int)[k],
                )
            &&& forall|k: int|
                0 <= k < bench_findings(b, r, b.bench@.len() as int).len() ==> all.contains(
                    #[trigger] bench_findings(b, r, b.bench@.len() as int)[k],
                )
            &&& forall|k: int|
                0 <= k < unbudgeted_findings(
                    "artifact "@,
                    b.artifact@,
                    r.artifacts@,
                    r.artifacts@.len() as int,
                ).len() ==> all.contains(
                    #[trigger] unbudgeted_findings(
                        "artifact "@,
                        b.artifact@,
                        r.artifacts@,
                        r.artifacts@.len() as int,
                    )[k],
                )
            &&& forall|k: int|
                0 <= k < unbudgeted_findings(
                    "bench "@,
                    b.bench@,
                    r.benches@,
                    r.benches@.len() as int,
                ).len() ==> all.contains(
                    #[trigger] unbudgeted_findings(
                        "bench "@,
                        b.bench@,
                        r.benches@,
                        r.benches@.len() as int,
                    )[k],
                )
            &&& forall|k: int|
                0 <= k < stale_findings(
                    b.deps.allowed_duplicates@,
                    r.deps.duplicates@,
                    b.deps.allowed_duplicates@.len() as int,
                ).len() ==> all.contains(
                    #[trigger] stale_findings(
                        b.deps.allowed_duplicates@,
                        r.deps.duplicates@,
                        b.deps.allowed_duplicates@.len() as int,
                    )[k],
                )
            &&& all.contains(deps_finding(r.deps.external_normal, b.deps.max_external_normal))
            &&& all.contains(
                duplicates_finding(r.deps.duplicates@, b.deps.allowed_duplicates@),
            )
            &&& all.contains(wasm_finding(r.wasm@))
            &&& forall|k: int|
                0 <= k < trend_findings(r).len() ==> all.contains(#[trigger] trend_findings(r)[k])
        }),
{
    let all = comparison(b, r, shares);
    let p1 = artifact_findings(b, r, shares, b.artifact@.len() as int);
    let p2 = unbudgeted_findings(
        "artifact "@,
        b.artifact@,
        r.artifacts@,
        r.artifacts@.len() as int,
    );
    let p3 = seq![
        deps_finding(r.deps.external_normal, b.deps.max_external_normal),
        duplicates_finding(r.deps.duplicates@, b.deps.allowed_duplicates@),
    ];
    let p4 = stale_findings(
        b.deps.allowed_duplicates@,
        r.deps.duplicates@,
        b.deps.allowed_duplicates@.len() as int,
    );
    let p5 = seq![wasm_finding(r.wasm@)];
    let p6 = bench_findings(b, r, b.bench@.len() as int);
    let p7 = unbudgeted_findings("bench "@, b.bench@, r.benches@, r.benches@.len() as int);
    let p8 = trend_findings(r);
    assert(all == p1 + p2 + p3 + p4 + p5 + p6 + p7 + p8);
    let a1 = p1.len() as int;
    let a2 = a1 + p2.len();
    let a3 = a2 + p3.len();
    let a4 = a3 + p4.len();
    let a5 = a4 + p5.len();
    let a6 = a5 + p6.len();
    let a7 = a6 + p7.len();
    assert(all.subrange(0, a1) =~= p1);
    assert(all.subrange(a1, a2) =~= p2);
    assert(all.subrange(a2, a3) =~= p3);
    assert(all.subrange(a3, a4) =~= p4);
    assert(all.subrange(a4, a5) =~= p5);
    assert(all.subrange(a5, a6) =~= p6);
    assert(all.subrange(a6, a7) =~= p7);
    assert(all.subrange(a7, a7 + p8.len()) =~= p8);
    assert forall|k: int| 0 <= k < p1.len() implies all.contains(#[trigger] p1[k]) by {
        lemma_among(all, p1, 0, k);
    }
    assert forall|k: int| 0 <= k < p2.len() implies all.contains(#[trigger] p2[k]) by {
        lemma_among(all, p2, a1, k);
    }
    lemma_among(all, p3, a2, 0);
    lemma_among(all, p3, a2, 1);
    assert forall|k: int| 0 <= k < p4.len() implies all.contains(#[trigger] p4[k]) by {
        lemma_among(all, p4, a3, k);
    }
    lemma_among(all, p5, a4, 0);
    assert forall|k: int| 0 <= k < p6.len() implies all.contains(#[trigger] p6[k]) by {
        lemma_among(all, p6, a5, k);
    }
    assert forall|k: int| 0 <= k < p7.len() implies all.contains(#[trigger] p7[k]) by {
        lemma_among(all, p7, a6, k);
    }
    assert forall|k: int| 0 <= k < p8.len() implies all.contains(#[trigger] p8[k]) by {
        lemma_among(all, p8, a7, k);
    }
}

proof fn lemma_artifact_at(b: Budgets, r: Record, shares: Seq<String>, n: int, i: int)
    requires
        0 <= i < n,
    ensures
        artifact_findings(b, r, shares, n).len() == n,
        artifact_findings(b, r, shares, n)[i] == crate::budgets::artifact_finding(
            b.artifact@[i].0@,
            b.artifact@[i].1,
            crate::table::lookup(r.artifacts@, b.artifact@[i].0@),
            shares[i]@,
        ),
    decreases n,
{
    if n == 1 {
        assert(artifact_findings(b, r, shares, 0).len() == 0);
    } else if i < n - 1 {
        lemma_artifact_at(b, r, shares, n - 1, i);
    } else {
        lemma_artifact_at(b, r, shares, n - 1, 0);
    }
}

proof fn lemma_bench_at(b: Budgets, r: Record, n: int, i: int)
    requires
        0 <= i < n,
    ensures
        bench_findings(b, r, n).len() == n,
        bench_findings(b, r, n)[i] == crate::budgets::bench_finding(
            b.bench@[i].0@,
            b.bench@[i].1,
            crate::table::lookup(r.benches@, b.bench@[i].0@),
        ),
    decreases n,
{
    if n == 1 {
        assert(bench_findings(b, r, 0).len() == 0);
    } else if i < n - 1 {
        lemma_bench_at(b, r, n - 1, i);
    } else {
        lemma_bench_at(b, r, n - 1, 0);
    }
}

/// A budgeted artifact that was measured is found over its budget or
/// within it, with the distance, its share and, over it, the note.
pub proof fn lemma_measured_artifacts_are_judged(
    b: Budgets,
    r: Record,
    shares: Seq<String>,
    i: int,
    j: int,
)
    requires
        r.wf(),
        0 <= i < b.artifact@.len(),
        0 <= j < r.artifacts@.len(),
        b.artifact@[i].0@ == r.artifacts@[j].0@,
    ensures
        ({
            let name = b.artifact@[i].0@;
            let (bytes, budget) = (r.artifacts@[j].1, b.artifact@[i].1.budget_bytes);
            let size = seq![
                "artifact "@,
                name,
                ": "@,
                grouped(bytes as nat),
                " / "@,
                grouped(budget as nat),
            ];
            &&& bytes > budget ==> comparison(b, r, shares).contains(
                (
                    Level::Breach,
                    joined(
                        size + seq![
                            " bytes (over by "@,
                            grouped((bytes - budget) as nat),
                            ", "@,
                            shares[i]@,
                            "%) — note: "@,
                            b.artifact@[i].1.note@,
                        ],
                    ),
                ),
            )
            &&& bytes <= budget ==> comparison(b, r, shares).contains(
                (
                    Level::Pass,
                    joined(
                        size + seq![
                            " bytes (headroom "@,
                            grouped((budget - bytes) as nat),
                            ", "@,
                            shares[i]@,
                            "%)"@,
                        ],
                    ),
                ),
            )
        }),
{
    lemma_parts(b, r, shares);
    lemma_artifact_at(b, r, shares, b.artifact@.len() as int, i);
    lemma_entries_are_found(r.artifacts@, j);
    let f = artifact_findings(b, r, shares, b.artifact@.len() as int)[i];
    assert(comparison(b, r, shares).contains(f));
}

/// A budgeted artifact that was not measured is warned of.
pub proof fn lemma_missing_artifacts_are_warned_of(
    b: Budgets,
    r: Record,
    shares: Seq<String>,
    i: int,
)
    requires
        0 <= i < b.artifact@.len(),
        forall|j: int|
            0 <= j < r.artifacts@.len() ==> (#[trigger] r.artifacts@[j]).0@ != b.artifact@[i].0@,
    ensures
        comparison(b, r, shares).contains(
            (
                Level::Warn,
                joined(
                    seq![
                        "artifact "@,
                        b.artifact@[i].0@,
                        ": budgeted but not measured (was it built?)"@,
                    ],
                ),
            ),
        ),
{
    lemma_parts(b, r, shares);
    lemma_artifact_at(b, r, shares, b.artifact@.len() as int, i);
    lemma_first_at(r.artifacts@, b.artifact@[i].0@);
    let f = artifact_findings(b, r, shares, b.artifact@.len() as int)[i];
    assert(comparison(b, r, shares).contains(f));
}

/// A budgeted bench that was measured is found over its ceiling, with the
/// note, or within it.
pub proof fn lemma_measured_benches_are_judged(
    b: Budgets,
    r: Record,
    shares: Seq<String>,
    i: int,
    j: int,
)
    requires
        r.wf(),
        0 <= i < b.bench@.len(),
        0 <= j < r.benches@.len(),
        b.bench@[i].0@ == r.benches@[j].0@,
    ensures
        ({
            let (n, max) = (r.benches@[j].1.instructions, b.bench@[i].1.max_instructions);
            &&& n > max ==> comparison(b, r, shares).contains(
                (
                    Level::Breach,
                    joined(
                        seq![
                            "bench "@,
                            b.bench@[i].0@,
                            ": "@,
                            grouped(n as nat),
                            " instructions > budget "@,
                            grouped(max as nat),
                            " — note: "@,
                            b.bench@[i].1.note@,
                        ],
                    ),
                ),
            )
            &&& n <= max ==> comparison(b, r, shares).contains(
                (
                    Level::Pass,
                    joined(
                        seq![
                            "bench "@,
                            b.bench@[i].0@,
                            ": "@,
                            grouped(n as nat),
                            " / "@,
                            grouped(max as nat),
                            " instructions"@,
                        ],
                    ),
                ),
            )
        }),
{
    lemma_parts(b, r, shares);
    lemma_bench_at(b, r, b.bench@.len() as int, i);
    lemma_entries_are_found(r.benches@, j);
    let f = bench_findings(b, r, b.bench@.len() as int)[i];
    assert(comparison(b, r, shares).contains(f));
}

/// A budgeted bench that was not measured is warned of.
pub proof fn lemma_missing_benches_are_warned_of(
    b: Budgets,
    r: Record,
    shares: Seq<String>,
    i: int,
)
    requires
        0 <= i < b.bench@.len(),
        forall|j: int|
            0 <= j < r.benches@.len() ==> (#[trigger] r.benches@[j]).0@ != b.bench@[i].0@,
    ensures
        comparison(b, r, shares).contains(
            (
                Level::Warn,
                joined(
                    seq![
                        "bench "@,
                        b.bench@[i].0@,
                        ": budgeted but not measured (did the bench run?)"@,
                    ],
                ),
            ),
        ),
{
    lemma_parts(b, r, shares);
    lemma_bench_at(b, r, b.bench@.len() as int, i);
    lemma_first_at(r.benches@, b.bench@[i].0@);
    let f = bench_findings(b, r, b.bench@.len() as int)[i];
    assert(comparison(b, r, shares).contains(f));
}

proof fn lemma_unbudgeted_at<T, U>(
    kind: Seq<char>,
    budgeted: Seq<(String, T)>,
    measured: Seq<(String, U)>,
    n: int,
    j: int,
) -> (k: int)
    requires
        0 <= j < n <= measured.len(),
        forall|i: int|
            0 <= i < budgeted.len() ==> (#[trigger] budgeted[i]).0@ != measured[j].0@,
    ensures
        0 <= k < unbudgeted_findings(kind, budgeted, measured, n).len(),
        unbudgeted_findings(kind, budgeted, measured, n)[k] == (
            Level::Warn,
            joined(
                seq![
                    kind,
                    measured[j].0@,
                    ": measured but unbudgeted — add it to perf/budgets.toml"@,
                ],
            ),
        ),
    decreases n,
{
    let front = unbudgeted_findings(kind, budgeted, measured, n - 1);
    if j < n - 1 {
        lemma_unbudgeted_at(kind, budgeted, measured, n - 1, j)
    } else {
        lemma_first_at(budgeted, measured[j].0@);
        front.len() as int
    }
}

/// What was measured and has no budget is warned of by name.
pub proof fn lemma_unbudgeted_measurements_are_warned_of(
    b: Budgets,
    r: Record,
    shares: Seq<String>,
    j: int,
)
    ensures
        0 <= j < r.artifacts@.len() && (forall|i: int|
            0 <= i < b.artifact@.len() ==> (#[trigger] b.artifact@[i]).0@ != r.artifacts@[j].0@)
            ==> comparison(b, r, shares).contains(
            (
                Level::Warn,
                joined(
                    seq![
                        "artifact "@,
                        r.artifacts@[j].0@,
                        ": measured but unbudgeted — add it to perf/budgets.toml"@,
                    ],
                ),
            ),
        ),
        0 <= j < r.benches@.len() && (forall|i: int|
            0 <= i < b.bench@.len() ==> (#[trigger] b.bench@[i]).0@ != r.benches@[j].0@)
            ==> comparison(b, r, shares).contains(
            (
                Level::Warn,
                joined(
                    seq![
                        "bench "@,
                        r.benches@[j].0@,
                        ": measured but unbudgeted — add it to perf/budgets.toml"@,
                    ],
                ),
            ),
        ),
{
    lemma_parts(b, r, shares);
    let all = comparison(b, r, shares);
    if 0 <= j < r.artifacts@.len() && (forall|i: int|
        0 <= i < b.artifact@.len() ==> (#[trigger] b.artifact@[i]).0@ != r.artifacts@[j].0@) {
        let n = r.artifacts@.len() as int;
        let k = lemma_unbudgeted_at("artifact "@, b.artifact@, r.artifacts@, n, j);
        assert(all.contains(unbudgeted_findings("artifact "@, b.artifact@, r.artifacts@, n)[k]));
    }
    if 0 <= j < r.benches@.len() && (forall|i: int|
        0 <= i < b.bench@.len() ==> (#[trigger] b.bench@[i]).0@ != r.benches@[j].0@) {
        let n = r.benches@.len() as int;
        let k = lemma_unbudgeted_at("bench "@, b.bench@, r.benches@, n, j);
        assert(all.contains(unbudgeted_findings("bench "@, b.bench@, r.benches@, n)[k]));
    }
}

/// The external dependencies are found over their budget or within it.
pub proof fn lemma_dependencies_are_judged(b: Budgets, r: Record, shares: Seq<String>)
    ensures
        ({
            let (n, max) = (r.deps.external_normal, b.deps.max_external_normal);
            &&& n > max ==> comparison(b, r, shares).contains(
                (
                    Level::Breach,
                    joined(
                        seq![
                            "deps: "@,
                            dec(n as nat),
                            " external (normal) > budget "@,
                            dec(max as nat),
                            " — new dependency requires a visible budget raise"@,
                        ],
                    ),
                ),
            )
            &&& n <= max ==> comparison(b, r, shares).contains(
                (
                    Level::Pass,
                    joined(
                        seq!["deps: "@, dec(n as nat), " / "@, dec(max as nat), " external (normal)"@],
                    ),
                ),
            )
        }),
{
    lemma_parts(b, r, shares);
}

proof fn lemma_unexpected_at(
    dups: Seq<(String, Vec<String>)>,
    allowed: Seq<String>,
    n: int,
    j: int,
) -> (k: int)
    requires
        0 <= j < n <= dups.len(),
        !listed(allowed, dups[j].0@),
    ensures
        0 <= k < unexpected(dups, allowed, n).len(),
        unexpected(dups, allowed, n)[k] == joined(
            seq![dups[j].0@, " ("@, interleaved(texts(dups[j].1@), ", "@), ")"@],
        ),
    decreases n,
{
    let front = unexpected(dups, allowed, n - 1);
    if j < n - 1 {
        lemma_unexpected_at(dups, allowed, n - 1, j)
    } else {
        front.len() as int
    }
}

proof fn lemma_none_unexpected(dups: Seq<(String, Vec<String>)>, allowed: Seq<String>, n: int)
    requires
        0 <= n <= dups.len(),
        forall|j: int| 0 <= j < n ==> listed(allowed, (#[trigger] dups[j]).0@),
    ensures
        unexpected(dups, allowed, n).len() == 0,
    decreases n,
{
    if n > 0 {
        lemma_none_unexpected(dups, allowed, n - 1);
        assert(listed(allowed, dups[n - 1].0@));
    }
}

/// A duplicate that is not allowlisted is named in a breach with its
/// versions; where all are allowlisted the check passes on how many there
/// are.
pub proof fn lemma_duplicates_are_judged(b: Budgets, r: Record, shares: Seq<String>, j: int)
    ensures
        0 <= j < r.deps.duplicates@.len() && !listed(
            b.deps.allowed_duplicates@,
            r.deps.duplicates@[j].0@,
        ) ==> exists|f: Shown|
            {
                &&& #[trigger] comparison(b, r, shares).contains(f)
                &&& f.0 == Level::Breach
                &&& "duplicates: unallowlisted duplicate versions: "@.is_prefix_of(f.1)
                &&& holds(
                    f.1,
                    joined(
                        seq![
                            r.deps.duplicates@[j].0@,
                            " ("@,
                            interleaved(texts(r.deps.duplicates@[j].1@), ", "@),
                            ")"@,
                        ],
                    ),
                )
            },
        (forall|k: int|
            0 <= k < r.deps.duplicates@.len() ==> listed(
                b.deps.allowed_duplicates@,
                (#[trigger] r.deps.duplicates@[k]).0@,
            )) ==> comparison(b, r, shares).contains(
            (
                Level::Pass,
                joined(
                    seq![
                        "duplicates: "@,
                        dec(r.deps.duplicates@.len()),
                        " duplicated crate name(s), all allowlisted"@,
                    ],
                ),
            ),
        ),
{
    lemma_parts(b, r, shares);
    let (dups, allowed) = (r.deps.duplicates@, b.deps.allowed_duplicates@);
    let n = dups.len() as int;
    let bad = unexpected(dups, allowed, n);
    let f = duplicates_finding(dups, allowed);
    assert(comparison(b, r, shares).contains(f));
    if 0 <= j < n && !listed(allowed, dups[j].0@) {
        let k = lemma_unexpected_at(dups, allowed, n, j);
        let head = "duplicates: unallowlisted duplicate versions: "@;
        let list = interleaved(bad, "; "@);
        lemma_joined_push(seq![head], list);
        crate::doc::lemma_single(head);
        assert(seq![head].push(list) =~= seq![head, list]);
        assert(f.1 == head + list);
        assert(head =~= f.1.subrange(0, head.len() as int));
        assert(f.1 =~= around(head, list, Seq::empty()));
        lemma_lists_hold_their_items(bad, "; "@, k);
        lemma_holds_through(f.1, list, bad[k]);
    }
    if forall|k: int| 0 <= k < n ==> listed(allowed, (#[trigger] dups[k]).0@) {
        lemma_none_unexpected(dups, allowed, n);
    }
}

proof fn lemma_stale_at(
    allowed: Seq<String>,
    dups: Seq<(String, Vec<String>)>,
    n: int,
    i: int,
) -> (k: int)
    requires
        0 <= i < n <= allowed.len(),
        forall|j: int| 0 <= j < dups.len() ==> (#[trigger] dups[j]).0@ != allowed[i]@,
    ensures
        0 <= k < stale_findings(allowed, dups, n).len(),
        stale_findings(allowed, dups, n)[k] == (
            Level::Warn,
            joined(
                seq![
                    "duplicates: "@,
                    allowed[i]@,
                    " is allowlisted but no longer duplicated — remove the allowlist entry"@,
                ],
            ),
        ),
    decreases n,
{
    let front = stale_findings(allowed, dups, n - 1);
    if i < n - 1 {
        lemma_stale_at(allowed, dups, n - 1, i)
    } else {
        lemma_first_at(dups, allowed[i]@);
        front.len() as int
    }
}

/// An allowlisted crate that is no longer duplicated is warned of.
pub proof fn lemma_stale_entries_are_warned_of(b: Budgets, r: Record, shares: Seq<String>, i: int)
    requires
        0 <= i < b.deps.allowed_duplicates@.len(),
        forall|j: int|
            0 <= j < r.deps.duplicates@.len() ==> (#[trigger] r.deps.duplicates@[j]).0@
                != b.deps.allowed_duplicates@[i]@,
    ensures
        comparison(b, r, shares).contains(
            (
                Level::Warn,
                joined(
                    seq![
                        "duplicates: "@,
                        b.deps.allowed_duplicates@[i]@,
                        " is allowlisted but no longer duplicated — remove the allowlist entry"@,
                    ],
                ),
            ),
        ),
{
    lemma_parts(b, r, shares);
    let (allowed, dups) = (b.deps.allowed_duplicates@, r.deps.duplicates@);
    let n = allowed.len() as int;
    let k = lemma_stale_at(allowed, dups, n, i);
    assert(comparison(b, r, shares).contains(stale_findings(allowed, dups, n)[k]));
}

proof fn lemma_failed_at(wasm: Seq<(String, bool)>, n: int, j: int) -> (k: int)
    requires
        0 <= j < n <= wasm.len(),
        !wasm[j].1,
    ensures
        0 <= k < failed_members(wasm, n).len(),
        failed_members(wasm, n)[k] == wasm[j].0@,
    decreases n,
{
    let front = failed_members(wasm, n - 1);
    if j < n - 1 {
        lemma_failed_at(wasm, n - 1, j)
    } else {
        front.len() as int
    }
}

proof fn lemma_none_failed(wasm: Seq<(String, bool)>, n: int)
    requires
        0 <= n <= wasm.len(),
        forall|j: int| 0 <= j < n ==> (#[trigger] wasm[j]).1,
    ensures
        failed_members(wasm, n).len() == 0,
    decreases n,
{
    if n > 0 {
        lemma_none_failed(wasm, n - 1);
    }
}

/// A member that does not compile for wasm32 is named in a breach; where
/// all do, the check passes on how many; where none was checked, that is
/// warned of.
pub proof fn lemma_the_wasm_check_is_judged(b: Budgets, r: Record, shares: Seq<String>, j: int)
    ensures
        0 <= j < r.wasm@.len() && !r.wasm@[j].1 ==> exists|f: Shown|
            {
                &&& #[trigger] comparison(b, r, shares).contains(f)
                &&& f.0 == Level::Breach
                &&& "wasm32 check failed for: "@.is_prefix_of(f.1)
                &&& holds(f.1, r.wasm@[j].0@)
            },
        r.wasm@.len() > 0 && (forall|k: int| 0 <= k < r.wasm@.len() ==> (#[trigger] r.wasm@[k]).1)
            ==> comparison(b, r, shares).contains(
            (
                Level::Pass,
                joined(seq!["wasm32 check: "@, dec(r.wasm@.len()), " member(s) compile"@]),
            ),
        ),
        r.wasm@.len() == 0 ==> comparison(b, r, shares).contains(
            (Level::Warn, "wasm: not checked (see record skipped[] for the reason)"@),
        ),
{
    lemma_parts(b, r, shares);
    let n = r.wasm@.len() as int;
    let failed = failed_members(r.wasm@, n);
    let f = wasm_finding(r.wasm@);
    assert(comparison(b, r, shares).contains(f));
    if 0 <= j < n && !r.wasm@[j].1 {
        let k = lemma_failed_at(r.wasm@, n, j);
        let head = "wasm32 check failed for: "@;
        let list = interleaved(failed, ", "@);
        lemma_joined_push(seq![head], list);
        crate::doc::lemma_single(head);
        assert(seq![head].push(list) =~= seq![head, list]);
        assert(f.1 == head + list);
        assert(head =~= f.1.subrange(0, head.len() as int));
        assert(f.1 =~= around(head, list, Seq::empty()));
        lemma_lists_hold_their_items(failed, ", "@, k);
        lemma_holds_through(f.1, list, failed[k]);
    }
    if forall|k: int| 0 <= k < n ==> (#[trigger] r.wasm@[k]).1 {
        lemma_none_failed(r.wasm@, n);
    }
}

/// Every measured scene has its trend line, frame times and memory alike.
pub proof fn lemma_trends_are_told(b: Budgets, r: Record, shares: Seq<String>, j: int)
    ensures
        0 <= j < r.runtime@.len() ==> comparison(b, r, shares).contains(
            (
                Level::Pass,
                joined(
                    seq![
                        "trend runtime "@,
                        r.runtime@[j].0@,
                        ": p50 "@,
                        r.runtime@[j].1.shown_p50@,
                        " ms, p99 "@,
                        r.runtime@[j].1.shown_p99@,
                        " ms over "@,
                        dec(r.runtime@[j].1.ticks as nat),
                        " ticks of "@,
                        dec(r.runtime@[j].1.entities as nat),
                        " entities"@,
                    ],
                ),
            ),
        ),
        0 <= j < r.memory@.len() ==> comparison(b, r, shares).contains(
            (
                Level::Pass,
                joined(
                    seq![
                        "trend memory "@,
                        r.memory@[j].0@,
                        ": "@,
                        grouped(r.memory@[j].1.allocs as nat),
                        " allocs, peak "@,
                        grouped(r.memory@[j].1.peak_bytes as nat),
                        " bytes"@,
                    ],
                ),
            ),
        ),
{
    lemma_parts(b, r, shares);
    let all = comparison(b, r, shares);
    if 0 <= j < r.runtime@.len() {
        assert(all.contains(trend_findings(r)[j]));
    }
    if 0 <= j < r.memory@.len() {
        assert(all.contains(trend_findings(r)[r.runtime@.len() + j]));
    }
}

/// The names among measurements that no budget has.
pub open spec fn without_budget<T, U>(
    budgeted: Seq<(String, T)>,
    measured: Seq<(String, U)>,
) -> Seq<(String, U)> {
    measured.filter(
        |e: (String, U)| forall|i: int| 0 <= i < budgeted.len() ==> (#[trigger] budgeted[i]).0@ != e.0@,
    )
}

proof fn lemma_unbudgeted_count<T, U>(
    kind: Seq<char>,
    budgeted: Seq<(String, T)>,
    measured: Seq<(String, U)>,
    n: int,
)
    requires
        0 <= n <= measured.len(),
    ensures
        unbudgeted_findings(kind, budgeted, measured, n).len() == without_budget(
            budgeted,
            measured.take(n),
        ).len(),
    decreases n,
{
    reveal(Seq::filter);
    if n > 0 {
        lemma_unbudgeted_count(kind, budgeted, measured, n - 1);
        let all = measured.take(n);
        assert(all.drop_last() =~= measured.take(n - 1));
        assert(all.last() == measured[n - 1]);
        lemma_first_at(budgeted, measured[n - 1].0@);
        if crate::table::first_at(budgeted, measured[n - 1].0@) is Some {
            let at = crate::table::first_at(budgeted, measured[n - 1].0@)->0;
            assert(budgeted[at].0@ == measured[n - 1].0@);
        }
    } else {
        assert(measured.take(0) =~= Seq::<(String, U)>::empty());
    }
}

/// The allowlist entries that are no longer duplicated.
pub open spec fn no_longer_duplicated(
    allowed: Seq<String>,
    dups: Seq<(String, Vec<String>)>,
) -> Seq<String> {
    allowed.filter(
        |a: String| forall|j: int| 0 <= j < dups.len() ==> (#[trigger] dups[j]).0@ != a@,
    )
}

proof fn lemma_stale_count(allowed: Seq<String>, dups: Seq<(String, Vec<String>)>, n: int)
    requires
        0 <= n <= allowed.len(),
    ensures
        stale_findings(allowed, dups, n).len() == no_longer_duplicated(allowed.take(n), dups).len(),
    decreases n,
{
    reveal(Seq::filter);
    if n > 0 {
        lemma_stale_count(allowed, dups, n - 1);
        let all = allowed.take(n);
        assert(all.drop_last() =~= allowed.take(n - 1));
        assert(all.last() == allowed[n - 1]);
        lemma_first_at(dups, allowed[n - 1]@);
        if crate::table::first_at(dups, allowed[n - 1]@) is Some {
            let at = crate::table::first_at(dups, allowed[n - 1]@)->0;
            assert(dups[at].0@ == allowed[n - 1]@);
        }
    } else {
        assert(allowed.take(0) =~= Seq::<String>::empty());
    }
}

/// There are as many findings as there are budgets, measurements without
/// one, stale allowlist entries and trends, and three more: on the
/// dependencies, the duplicates and the wasm32 check. They come in that
/// order: artifacts, dependencies, duplicates, the wasm32 check, benches
/// and trends.
pub proof fn lemma_findings_are_counted_and_ordered(b: Budgets, r: Record, shares: Seq<String>)
    ensures
        ({
            let all = comparison(b, r, shares);
            let n1 = b.artifact@.len() as int;
            let n2 = n1 + without_budget(b.artifact@, r.artifacts@).len();
            let n3 = n2 + 2 + no_longer_duplicated(
                b.deps.allowed_duplicates@,
                r.deps.duplicates@,
            ).len();
            let n4 = n3 + 1 + b.bench@.len();
            let n5 = n4 + without_budget(b.bench@, r.benches@).len();
            &&& all.len() == n5 + r.runtime@.len() + r.memory@.len()
            &&& n1 > 0 ==> all[0] == artifact_findings(b, r, shares, n1)[0]
            &&& all[n2] == deps_finding(r.deps.external_normal, b.deps.max_external_normal)
            &&& all[n2 + 1] == duplicates_finding(r.deps.duplicates@, b.deps.allowed_duplicates@)
            &&& all[n3] == wasm_finding(r.wasm@)
            &&& b.bench@.len() > 0 ==> all[n3 + 1] == bench_findings(
                b,
                r,
                b.bench@.len() as int,
            )[0]
            &&& r.runtime@.len() + r.memory@.len() > 0 ==> all[n5] == trend_findings(r)[0]
        }),
{
    let all = comparison(b, r, shares);
    let p1 = artifact_findings(b, r, shares, b.artifact@.len() as int);
    let p2 = unbudgeted_findings(
        "artifact "@,
        b.artifact@,
        r.artifacts@,
        r.artifacts@.len() as int,
    );
    let p3 = seq![
        deps_finding(r.deps.external_normal, b.deps.max_external_normal),
        duplicates_finding(r.deps.duplicates@, b.deps.allowed_duplicates@),
    ];
    let p4 = stale_findings(
        b.deps.allowed_duplicates@,
        r.deps.duplicates@,
        b.deps.allowed_duplicates@.len() as int,
    );
    let p5 = seq![wasm_finding(r.wasm@)];
    let p6 = bench_findings(b, r, b.bench@.len() as int);
    let p7 = unbudgeted_findings("bench "@, b.bench@, r.benches@, r.benches@.len() as int);
    let p8 = trend_findings(r);
    assert(all == p1 + p2 + p3 + p4 + p5 + p6 + p7 + p8);
    if b.artifact@.len() > 0 {
        lemma_artifact_at(b, r, shares, b.artifact@.len() as int, 0);
    } else {
        assert(p1.len() == 0);
    }
    if b.bench@.len() > 0 {
        lemma_bench_at(b, r, b.bench@.len() as int, 0);
    } else {
        assert(p6.len() == 0);
    }
    lemma_unbudgeted_count("artifact "@, b.artifact@, r.artifacts@, r.artifacts@.len() as int);
    lemma_unbudgeted_count("bench "@, b.bench@, r.benches@, r.benches@.len() as int);
    lemma_stale_count(
        b.deps.allowed_duplicates@,
        r.deps.duplicates@,
        b.deps.allowed_duplicates@.len() as int,
    );
    assert(r.artifacts@.take(r.artifacts@.len() as int) =~= r.artifacts@);
    assert(r.benches@.take(r.benches@.len() as int) =~= r.benches@);
    assert(b.deps.allowed_duplicates@.take(b.deps.allowed_duplicates@.len() as int)
        =~= b.deps.allowed_duplicates@);
    assert(p8.len() == r.runtime@.len() + r.memory@.len());
    assert(p3[0] == deps_finding(r.deps.external_normal, b.deps.max_external_normal));
    assert(p5[0] == wasm_finding(r.wasm@));
}

} // verus!

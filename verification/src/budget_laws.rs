//! What a budget check gates on: it fails if and only if a budget is
//! exceeded. Missing measurements, unbudgeted ones, stale allowlist
//! entries and trends never fail it, and looser budgets add no breach.
use vstd::prelude::*;

verus! {

use crate::budgets::{
    artifact_finding, artifact_findings, bench_finding, bench_findings, comparison, deps_finding,
    duplicates_finding, failed_members, stale_findings,
    trend_findings, unbudgeted_findings, unexpected, wasm_finding, Budgets, Level, Shown,
};
use crate::perf::count_level;
use crate::record::Record;
use crate::table::{lemma_entries_are_found, lemma_first_at, listed, lookup};

/// The artifacts found by name are within the first `n` budgets.
spec fn artifacts_found_within(b: Budgets, r: Record, n: int) -> bool {
    forall|i: int|
        #![trigger b.artifact@[i]]
        0 <= i < n ==> (lookup(r.artifacts@, b.artifact@[i].0@) matches Some(v) ==> v
            <= b.artifact@[i].1.budget_bytes)
}

/// The benches found by name are within the first `n` budgets.
spec fn benches_found_within(b: Budgets, r: Record, n: int) -> bool {
    forall|i: int|
        #![trigger b.bench@[i]]
        0 <= i < n ==> (lookup(r.benches@, b.bench@[i].0@) matches Some(m) ==> m.instructions
            <= b.bench@[i].1.max_instructions)
}

/// Every measured artifact that has a budget is within it.
pub open spec fn artifacts_within(b: Budgets, r: Record) -> bool {
    forall|i: int, j: int|
        #![trigger b.artifact@[i], r.artifacts@[j]]
        0 <= i < b.artifact@.len() && 0 <= j < r.artifacts@.len() && b.artifact@[i].0@
            == r.artifacts@[j].0@ ==> r.artifacts@[j].1 <= b.artifact@[i].1.budget_bytes
}

/// Every measured bench that has a budget is within it.
pub open spec fn benches_within(b: Budgets, r: Record) -> bool {
    forall|i: int, j: int|
        #![trigger b.bench@[i], r.benches@[j]]
        0 <= i < b.bench@.len() && 0 <= j < r.benches@.len() && b.bench@[i].0@
            == r.benches@[j].0@ ==> r.benches@[j].1.instructions
            <= b.bench@[i].1.max_instructions
}

/// Where names occur once, what is found by name is all there is.
proof fn lemma_found_is_measured(b: Budgets, r: Record)
    requires
        r.wf(),
    ensures
        artifacts_within(b, r) <==> artifacts_found_within(b, r, b.artifact@.len() as int),
        benches_within(b, r) <==> benches_found_within(b, r, b.bench@.len() as int),
{
    if artifacts_within(b, r) {
        assert forall|i: int|
            #![trigger b.artifact@[i]]
            0 <= i < b.artifact@.len() implies (lookup(r.artifacts@, b.artifact@[i].0@) matches Some(
            v,
        ) ==> v <= b.artifact@[i].1.budget_bytes) by {
            lemma_first_at(r.artifacts@, b.artifact@[i].0@);
        }
    }
    if artifacts_found_within(b, r, b.artifact@.len() as int) {
        assert forall|i: int, j: int|
            #![trigger b.artifact@[i], r.artifacts@[j]]
            0 <= i < b.artifact@.len() && 0 <= j < r.artifacts@.len() && b.artifact@[i].0@
                == r.artifacts@[j].0@ implies r.artifacts@[j].1
            <= b.artifact@[i].1.budget_bytes by {
            lemma_entries_are_found(r.artifacts@, j);
        }
    }
    if benches_within(b, r) {
        assert forall|i: int|
            #![trigger b.bench@[i]]
            0 <= i < b.bench@.len() implies (lookup(r.benches@, b.bench@[i].0@) matches Some(m)
            ==> m.instructions <= b.bench@[i].1.max_instructions) by {
            lemma_first_at(r.benches@, b.bench@[i].0@);
        }
    }
    if benches_found_within(b, r, b.bench@.len() as int) {
        assert forall|i: int, j: int|
            #![trigger b.bench@[i], r.benches@[j]]
            0 <= i < b.bench@.len() && 0 <= j < r.benches@.len() && b.bench@[i].0@
                == r.benches@[j].0@ implies r.benches@[j].1.instructions
            <= b.bench@[i].1.max_instructions by {
            lemma_entries_are_found(r.benches@, j);
        }
    }
}

/// Every duplicated crate is allowlisted.
pub open spec fn duplicates_allowed(b: Budgets, r: Record, n: int) -> bool {
    forall|i: int|
        #![trigger r.deps.duplicates@[i]]
        0 <= i < n ==> listed(b.deps.allowed_duplicates@, r.deps.duplicates@[i].0@)
}

/// Every checked member compiles for wasm32.
pub open spec fn wasm_compiles(r: Record, n: int) -> bool {
    forall|i: int| #![trigger r.wasm@[i]] 0 <= i < n ==> r.wasm@[i].1
}

/// The record keeps every budget.
pub open spec fn within(b: Budgets, r: Record) -> bool {
    &&& artifacts_within(b, r)
    &&& r.deps.external_normal <= b.deps.max_external_normal
    &&& duplicates_allowed(b, r, r.deps.duplicates@.len() as int)
    &&& wasm_compiles(r, r.wasm@.len() as int)
    &&& benches_within(b, r)
}

/// Counting in two goes.
proof fn lemma_count_append(a: Seq<Shown>, b: Seq<Shown>, level: Level)
    ensures
        count_level(a + b, level) == count_level(a, level) + count_level(b, level),
    decreases b.len(),
{
    if b.len() == 0 {
        assert(a + b =~= a);
    } else {
        lemma_count_append(a, b.drop_last(), level);
        assert((a + b).drop_last() =~= a + b.drop_last());
    }
}

/// Counting one more.
proof fn lemma_count_push(a: Seq<Shown>, f: Shown, level: Level)
    ensures
        count_level(a.push(f), level) == count_level(a, level) + if f.0 == level {
            1nat
        } else {
            0
        },
{
    assert(a.push(f).drop_last() =~= a);
}

/// Artifacts breach exactly when one is over budget.
proof fn lemma_artifacts(b: Budgets, r: Record, shares: Seq<String>, n: int)
    requires
        0 <= n <= b.artifact@.len(),
    ensures
        count_level(artifact_findings(b, r, shares, n), Level::Breach) == 0 <==> artifacts_found_within(
            b,
            r,
            n,
        ),
    decreases n,
{
    if n > 0 {
        lemma_artifacts(b, r, shares, n - 1);
        let e = b.artifact@[n - 1];
        let f = artifact_finding(e.0@, e.1, lookup(r.artifacts@, e.0@), shares[n - 1]@);
        lemma_count_push(artifact_findings(b, r, shares, n - 1), f, Level::Breach);
        if artifacts_found_within(b, r, n) {
            assert(artifacts_found_within(b, r, n - 1));
        }
        if artifacts_found_within(b, r, n - 1) && f.0 != Level::Breach {
            assert forall|i: int|
                #![trigger b.artifact@[i]]
                0 <= i < n implies (lookup(r.artifacts@, b.artifact@[i].0@) matches Some(v) ==> v
                <= b.artifact@[i].1.budget_bytes) by {
                if i == n - 1 {
                    assert(b.artifact@[i] == e);
                }
            }
        }
    }
}

/// Benches breach exactly when one is over budget.
proof fn lemma_benches(b: Budgets, r: Record, n: int)
    requires
        0 <= n <= b.bench@.len(),
    ensures
        count_level(bench_findings(b, r, n), Level::Breach) == 0 <==> benches_found_within(b, r, n),
    decreases n,
{
    if n > 0 {
        lemma_benches(b, r, n - 1);
        let e = b.bench@[n - 1];
        let f = bench_finding(e.0@, e.1, lookup(r.benches@, e.0@));
        lemma_count_push(bench_findings(b, r, n - 1), f, Level::Breach);
        if benches_found_within(b, r, n) {
            assert(benches_found_within(b, r, n - 1));
        }
        if benches_found_within(b, r, n - 1) && f.0 != Level::Breach {
            assert forall|i: int|
                #![trigger b.bench@[i]]
                0 <= i < n implies (lookup(r.benches@, b.bench@[i].0@) matches Some(m)
                ==> m.instructions <= b.bench@[i].1.max_instructions) by {
                if i == n - 1 {
                    assert(b.bench@[i] == e);
                }
            }
        }
    }
}

/// Unbudgeted measurements never breach.
proof fn lemma_unbudgeted<T, U>(
    kind: Seq<char>,
    budgeted: Seq<(String, T)>,
    measured: Seq<(String, U)>,
    n: int,
)
    ensures
        count_level(unbudgeted_findings(kind, budgeted, measured, n), Level::Breach) == 0,
    decreases n,
{
    if n > 0 {
        lemma_unbudgeted(kind, budgeted, measured, n - 1);
        lemma_count_push(
            unbudgeted_findings(kind, budgeted, measured, n - 1),
            crate::budgets::unbudgeted(kind, measured[n - 1].0@),
            Level::Breach,
        );
    }
}

/// Stale allowlist entries never breach.
proof fn lemma_stale(b: Budgets, r: Record, n: int)
    ensures
        count_level(
            stale_findings(b.deps.allowed_duplicates@, r.deps.duplicates@, n),
            Level::Breach,
        ) == 0,
    decreases n,
{
    let allowed = b.deps.allowed_duplicates@;
    let dups = r.deps.duplicates@;
    if n > 0 {
        lemma_stale(b, r, n - 1);
        let front = stale_findings(allowed, dups, n - 1);
        let full = stale_findings(allowed, dups, n);
        if full != front {
            assert(full.drop_last() =~= front);
        }
    }
}

/// The unexpected duplicates are empty exactly when all are allowlisted.
proof fn lemma_unexpected(b: Budgets, r: Record, n: int)
    requires
        0 <= n <= r.deps.duplicates@.len(),
    ensures
        unexpected(r.deps.duplicates@, b.deps.allowed_duplicates@, n).len() == 0
            <==> duplicates_allowed(b, r, n),
    decreases n,
{
    if n > 0 {
        lemma_unexpected(b, r, n - 1);
        let e = r.deps.duplicates@[n - 1];
        if duplicates_allowed(b, r, n) {
            assert(listed(b.deps.allowed_duplicates@, e.0@));
            assert(duplicates_allowed(b, r, n - 1));
        }
        if duplicates_allowed(b, r, n - 1) && listed(b.deps.allowed_duplicates@, e.0@) {
            assert(duplicates_allowed(b, r, n));
        }
    }
}

/// The failed members are empty exactly when all compile.
proof fn lemma_failed(r: Record, n: int)
    requires
        0 <= n <= r.wasm@.len(),
    ensures
        failed_members(r.wasm@, n).len() == 0 <==> wasm_compiles(r, n),
    decreases n,
{
    if n > 0 {
        lemma_failed(r, n - 1);
        if wasm_compiles(r, n) {
            assert(r.wasm@[n - 1].1);
            assert(wasm_compiles(r, n - 1));
        }
        if wasm_compiles(r, n - 1) && r.wasm@[n - 1].1 {
            assert(wasm_compiles(r, n));
        }
    }
}

/// A list without a level counts none of it.
proof fn lemma_none_counted(a: Seq<Shown>, level: Level)
    requires
        forall|i: int| 0 <= i < a.len() ==> (#[trigger] a[i]).0 != level,
    ensures
        count_level(a, level) == 0,
    decreases a.len(),
{
    if a.len() > 0 {
        let front = a.drop_last();
        assert forall|i: int| 0 <= i < front.len() implies (#[trigger] front[i]).0 != level by {
            assert(front[i] == a[i]);
        }
        lemma_none_counted(front, level);
        assert(a[a.len() - 1].0 != level);
    }
}

/// One for a finding of the level.
spec fn one(f: Shown, level: Level) -> nat {
    if f.0 == level {
        1
    } else {
        0
    }
}

/// The levels of a comparison, counted part by part; trends are always
/// passes.
proof fn lemma_counts_add_up(b: Budgets, r: Record, shares: Seq<String>, level: Level)
    ensures
        level != Level::Pass ==> count_level(comparison(b, r, shares), level) == count_level(
            artifact_findings(b, r, shares, b.artifact@.len() as int),
            level,
        ) + count_level(
            unbudgeted_findings(
                "artifact "@,
                b.artifact@,
                r.artifacts@,
                r.artifacts@.len() as int,
            ),
            level,
        ) + one(deps_finding(r.deps.external_normal, b.deps.max_external_normal), level) + one(
            duplicates_finding(r.deps.duplicates@, b.deps.allowed_duplicates@),
            level,
        ) + count_level(
            stale_findings(
                b.deps.allowed_duplicates@,
                r.deps.duplicates@,
                b.deps.allowed_duplicates@.len() as int,
            ),
            level,
        ) + one(wasm_finding(r.wasm@), level) + count_level(
            bench_findings(b, r, b.bench@.len() as int),
            level,
        ) + count_level(
            unbudgeted_findings("bench "@, b.bench@, r.benches@, r.benches@.len() as int),
            level,
        ),
{
    let s1 = artifact_findings(b, r, shares, b.artifact@.len() as int);
    let s2 = unbudgeted_findings(
        "artifact "@,
        b.artifact@,
        r.artifacts@,
        r.artifacts@.len() as int,
    );
    let f1 = deps_finding(r.deps.external_normal, b.deps.max_external_normal);
    let f2 = duplicates_finding(r.deps.duplicates@, b.deps.allowed_duplicates@);
    let s3 = seq![f1, f2];
    let s4 = stale_findings(
        b.deps.allowed_duplicates@,
        r.deps.duplicates@,
        b.deps.allowed_duplicates@.len() as int,
    );
    let f3 = wasm_finding(r.wasm@);
    let s5 = seq![f3];
    let s6 = bench_findings(b, r, b.bench@.len() as int);
    let s7 = unbudgeted_findings("bench "@, b.bench@, r.benches@, r.benches@.len() as int);
    let s8 = trend_findings(r);
    if level != Level::Pass {
        lemma_none_counted(s8, level);
    }
    let none = Seq::<Shown>::empty();
    lemma_count_push(none, f1, level);
    lemma_count_push(none.push(f1), f2, level);
    assert(s3 =~= none.push(f1).push(f2));
    lemma_count_push(none, f3, level);
    assert(s5 =~= none.push(f3));
    lemma_count_append(s1, s2, level);
    lemma_count_append(s1 + s2, s3, level);
    lemma_count_append(s1 + s2 + s3, s4, level);
    lemma_count_append(s1 + s2 + s3 + s4, s5, level);
    lemma_count_append(s1 + s2 + s3 + s4 + s5, s6, level);
    lemma_count_append(s1 + s2 + s3 + s4 + s5 + s6, s7, level);
    lemma_count_append(s1 + s2 + s3 + s4 + s5 + s6 + s7, s8, level);
}

/// A check breaches if and only if a budget is exceeded: an artifact or
/// a bench over its ceiling, too many external dependencies, a duplicate
/// that is not allowlisted, or a member that does not compile for
/// wasm32. Nothing else gates, frame times and memory in particular.
pub proof fn lemma_breach_iff_over_budget(b: Budgets, r: Record, shares: Seq<String>)
    requires
        b.wf(),
        r.wf(),
    ensures
        count_level(comparison(b, r, shares), Level::Breach) == 0 <==> within(b, r),
{
    lemma_counts_add_up(b, r, shares, Level::Breach);
    lemma_found_is_measured(b, r);
    lemma_artifacts(b, r, shares, b.artifact@.len() as int);
    lemma_unbudgeted("artifact "@, b.artifact@, r.artifacts@, r.artifacts@.len() as int);
    lemma_unexpected(b, r, r.deps.duplicates@.len() as int);
    lemma_stale(b, r, b.deps.allowed_duplicates@.len() as int);
    lemma_failed(r, r.wasm@.len() as int);
    lemma_benches(b, r, b.bench@.len() as int);
    lemma_unbudgeted("bench "@, b.bench@, r.benches@, r.benches@.len() as int);
}

/// Two records that may differ in frame times and memory, and in nothing
/// else that is compared.
pub open spec fn same_but_trends(r: Record, s: Record) -> bool {
    &&& r.artifacts@ == s.artifacts@
    &&& r.deps.external_normal == s.deps.external_normal
    &&& r.deps.duplicates@ == s.deps.duplicates@
    &&& r.wasm@ == s.wasm@
    &&& r.benches@ == s.benches@
}

proof fn lemma_artifacts_alike(b: Budgets, r: Record, s: Record, shares: Seq<String>, n: int)
    requires
        r.artifacts@ == s.artifacts@,
    ensures
        artifact_findings(b, r, shares, n) == artifact_findings(b, s, shares, n),
    decreases n,
{
    if n > 0 {
        lemma_artifacts_alike(b, r, s, shares, n - 1);
    }
}

proof fn lemma_benches_alike(b: Budgets, r: Record, s: Record, n: int)
    requires
        r.benches@ == s.benches@,
    ensures
        bench_findings(b, r, n) == bench_findings(b, s, n),
    decreases n,
{
    if n > 0 {
        lemma_benches_alike(b, r, s, n - 1);
    }
}

/// Frame times and memory are trends, never gates: records that differ
/// in nothing else breach and warn alike.
pub proof fn lemma_trends_never_gate(b: Budgets, r: Record, s: Record, shares: Seq<String>)
    requires
        same_but_trends(r, s),
    ensures
        count_level(comparison(b, r, shares), Level::Breach) == count_level(
            comparison(b, s, shares),
            Level::Breach,
        ),
        count_level(comparison(b, r, shares), Level::Warn) == count_level(
            comparison(b, s, shares),
            Level::Warn,
        ),
{
    lemma_artifacts_alike(b, r, s, shares, b.artifact@.len() as int);
    lemma_benches_alike(b, r, s, b.bench@.len() as int);
    lemma_counts_add_up(b, r, shares, Level::Breach);
    lemma_counts_add_up(b, s, shares, Level::Breach);
    lemma_counts_add_up(b, r, shares, Level::Warn);
    lemma_counts_add_up(b, s, shares, Level::Warn);
}

/// Budgets `c` ask no more than budgets `b`: each of their ceilings is at
/// least a ceiling of `b` on the same name, and every allowlisted
/// duplicate stays allowlisted.
pub open spec fn looser(b: Budgets, c: Budgets) -> bool {
    &&& forall|i: int|
        #![trigger c.artifact@[i]]
        0 <= i < c.artifact@.len() ==> exists|j: int|
            #![trigger b.artifact@[j]]
            0 <= j < b.artifact@.len() && b.artifact@[j].0@ == c.artifact@[i].0@
                && b.artifact@[j].1.budget_bytes <= c.artifact@[i].1.budget_bytes
    &&& forall|i: int|
        #![trigger c.bench@[i]]
        0 <= i < c.bench@.len() ==> exists|j: int|
            #![trigger b.bench@[j]]
            0 <= j < b.bench@.len() && b.bench@[j].0@ == c.bench@[i].0@
                && b.bench@[j].1.max_instructions <= c.bench@[i].1.max_instructions
    &&& b.deps.max_external_normal <= c.deps.max_external_normal
    &&& forall|name: Seq<char>|
        #![trigger listed(b.deps.allowed_duplicates@, name)]
        listed(b.deps.allowed_duplicates@, name) ==> listed(c.deps.allowed_duplicates@, name)
}

/// Looser budgets fail no check that passed: a record without a breach
/// has none under them either, whatever names they drop.
pub proof fn lemma_looser_budgets_keep_passing(
    b: Budgets,
    c: Budgets,
    r: Record,
    b_shares: Seq<String>,
    c_shares: Seq<String>,
)
    requires
        b.wf(),
        c.wf(),
        r.wf(),
        looser(b, c),
        count_level(comparison(b, r, b_shares), Level::Breach) == 0,
    ensures
        count_level(comparison(c, r, c_shares), Level::Breach) == 0,
{
    lemma_breach_iff_over_budget(b, r, b_shares);
    lemma_breach_iff_over_budget(c, r, c_shares);
    assert forall|i: int, j: int|
        #![trigger c.artifact@[i], r.artifacts@[j]]
        0 <= i < c.artifact@.len() && 0 <= j < r.artifacts@.len() && c.artifact@[i].0@
            == r.artifacts@[j].0@ implies r.artifacts@[j].1 <= c.artifact@[i].1.budget_bytes by {
        let k = choose|k: int|
            #![trigger b.artifact@[k]]
            0 <= k < b.artifact@.len() && b.artifact@[k].0@ == c.artifact@[i].0@
                && b.artifact@[k].1.budget_bytes <= c.artifact@[i].1.budget_bytes;
        assert(r.artifacts@[j].1 <= b.artifact@[k].1.budget_bytes);
    }
    assert forall|i: int, j: int|
        #![trigger c.bench@[i], r.benches@[j]]
        0 <= i < c.bench@.len() && 0 <= j < r.benches@.len() && c.bench@[i].0@
            == r.benches@[j].0@ implies r.benches@[j].1.instructions
        <= c.bench@[i].1.max_instructions by {
        let k = choose|k: int|
            #![trigger b.bench@[k]]
            0 <= k < b.bench@.len() && b.bench@[k].0@ == c.bench@[i].0@
                && b.bench@[k].1.max_instructions <= c.bench@[i].1.max_instructions;
        assert(r.benches@[j].1.instructions <= b.bench@[k].1.max_instructions);
    }
}

/// Budgets `c` are budgets `b` with ceilings raised: the same names in
/// the same places, and every allowlisted duplicate stays allowlisted.
pub open spec fn raised(b: Budgets, c: Budgets) -> bool {
    &&& b.artifact@.len() == c.artifact@.len()
    &&& forall|i: int|
        #![trigger b.artifact@[i], c.artifact@[i]]
        0 <= i < b.artifact@.len() ==> b.artifact@[i].0@ == c.artifact@[i].0@
            && b.artifact@[i].1.budget_bytes <= c.artifact@[i].1.budget_bytes
    &&& b.bench@.len() == c.bench@.len()
    &&& forall|i: int|
        #![trigger b.bench@[i], c.bench@[i]]
        0 <= i < b.bench@.len() ==> b.bench@[i].0@ == c.bench@[i].0@
            && b.bench@[i].1.max_instructions <= c.bench@[i].1.max_instructions
    &&& b.deps.max_external_normal <= c.deps.max_external_normal
    &&& forall|name: Seq<char>|
        #![trigger listed(b.deps.allowed_duplicates@, name)]
        listed(b.deps.allowed_duplicates@, name) ==> listed(c.deps.allowed_duplicates@, name)
}

proof fn lemma_raised_artifacts(
    b: Budgets,
    c: Budgets,
    r: Record,
    b_shares: Seq<String>,
    c_shares: Seq<String>,
    n: int,
)
    requires
        raised(b, c),
        0 <= n <= b.artifact@.len(),
    ensures
        count_level(artifact_findings(c, r, c_shares, n), Level::Breach) <= count_level(
            artifact_findings(b, r, b_shares, n),
            Level::Breach,
        ),
    decreases n,
{
    if n > 0 {
        lemma_raised_artifacts(b, c, r, b_shares, c_shares, n - 1);
        let (e, d) = (b.artifact@[n - 1], c.artifact@[n - 1]);
        let measured = lookup(r.artifacts@, e.0@);
        let f = artifact_finding(e.0@, e.1, measured, b_shares[n - 1]@);
        let g = artifact_finding(d.0@, d.1, measured, c_shares[n - 1]@);
        lemma_count_push(artifact_findings(b, r, b_shares, n - 1), f, Level::Breach);
        lemma_count_push(artifact_findings(c, r, c_shares, n - 1), g, Level::Breach);
    }
}

proof fn lemma_raised_benches(b: Budgets, c: Budgets, r: Record, n: int)
    requires
        raised(b, c),
        0 <= n <= b.bench@.len(),
    ensures
        count_level(bench_findings(c, r, n), Level::Breach) <= count_level(
            bench_findings(b, r, n),
            Level::Breach,
        ),
    decreases n,
{
    if n > 0 {
        lemma_raised_benches(b, c, r, n - 1);
        let (e, d) = (b.bench@[n - 1], c.bench@[n - 1]);
        let measured = lookup(r.benches@, e.0@);
        let f = bench_finding(e.0@, e.1, measured);
        let g = bench_finding(d.0@, d.1, measured);
        lemma_count_push(bench_findings(b, r, n - 1), f, Level::Breach);
        lemma_count_push(bench_findings(c, r, n - 1), g, Level::Breach);
    }
}

/// Raising budgets adds no breach: there are never more of them after.
pub proof fn lemma_looser_budgets_add_no_breach(
    b: Budgets,
    c: Budgets,
    r: Record,
    b_shares: Seq<String>,
    c_shares: Seq<String>,
)
    requires
        raised(b, c),
    ensures
        count_level(comparison(c, r, c_shares), Level::Breach) <= count_level(
            comparison(b, r, b_shares),
            Level::Breach,
        ),
{
    lemma_counts_add_up(b, r, b_shares, Level::Breach);
    lemma_counts_add_up(c, r, c_shares, Level::Breach);
    lemma_raised_artifacts(b, c, r, b_shares, c_shares, b.artifact@.len() as int);
    lemma_raised_benches(b, c, r, b.bench@.len() as int);
    lemma_unbudgeted("artifact "@, c.artifact@, r.artifacts@, r.artifacts@.len() as int);
    lemma_unbudgeted("bench "@, c.bench@, r.benches@, r.benches@.len() as int);
    lemma_stale(c, r, c.deps.allowed_duplicates@.len() as int);
    lemma_unexpected(b, r, r.deps.duplicates@.len() as int);
    lemma_unexpected(c, r, r.deps.duplicates@.len() as int);
}

} // verus!

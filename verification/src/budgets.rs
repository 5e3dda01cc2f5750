//! Performance budgets: the checked-in ratchet that a measurement record
//! is compared against. Budgets gate sizes, dependencies and instruction
//! counts; frame times and memory are surfaced, never gated.
use vstd::prelude::*;
use vstd::string::*;
use crate::doc::Doc;
use crate::record::{AllocMeasurement, BenchMeasurement, FrameMeasurement, Record};
use crate::table::{contains, find, join};
use crate::text::fmt_num;

verus! {

use crate::doc::joined;
use crate::table::{first_at, interleaved, listed, lookup, names_ascend, texts};
use crate::text::{dec, grouped};

/// The budgets file.
#[derive(Debug, Clone, PartialEq)]
pub struct Budgets {
    pub schema: u32,
    /// Last human review of these budgets.
    pub reviewed: String,
    pub scope: Scope,
    pub artifact: Vec<(String, ArtifactBudget)>,
    pub deps: Deps,
    /// Bench id and instruction-count ceiling.
    pub bench: Vec<(String, BenchBudget)>,
    pub advisory: Advisory,
}

impl Budgets {
    /// Both named lists stand in name order, each name once.
    pub open spec fn wf(&self) -> bool {
        &&& names_ascend(self.artifact@)
        &&& names_ascend(self.bench@)
    }
}

/// An instruction-count ceiling.
#[derive(Debug, Clone, PartialEq)]
pub struct BenchBudget {
    pub max_instructions: u64,
    pub note: String,
}

/// The members whose dependency graphs count.
#[derive(Debug, Clone, PartialEq)]
pub struct Scope {
    pub measured_members: Vec<String>,
}

/// A size ceiling and why it has its value.
#[derive(Debug, Clone, PartialEq)]
pub struct ArtifactBudget {
    pub budget_bytes: u64,
    pub note: String,
}

/// The dependency ceiling and the duplicates that are accepted.
#[derive(Debug, Clone, PartialEq)]
pub struct Deps {
    pub max_external_normal: u64,
    pub allowed_duplicates: Vec<String>,
}

/// Thresholds that never gate.
#[derive(Debug, Clone, PartialEq)]
pub struct Advisory {
    pub build: AdvisoryBuild,
}

/// The compile-time trend threshold.
#[derive(Debug, Clone, PartialEq)]
pub struct AdvisoryBuild {
    pub check_clean_growth_pct: u32,
}

impl Default for AdvisoryBuild {
    fn default() -> (r: AdvisoryBuild)
        ensures
            r.check_clean_growth_pct == 10,
    {
        AdvisoryBuild { check_clean_growth_pct: 10 }
    }
}

impl Default for Advisory {
    fn default() -> (r: Advisory)
        ensures
            r.build.check_clean_growth_pct == 10,
    {
        Advisory { build: AdvisoryBuild::default() }
    }
}

/// How serious a finding is.
#[derive(Debug, Clone, Copy, PartialEq, Eq, Structural)]
pub enum Level {
    Pass,
    Warn,
    Breach,
}

/// One line of a comparison.
#[derive(Debug, Clone, PartialEq)]
pub struct Finding {
    pub level: Level,
    pub text: String,
}

impl Finding {
    /// Within budget.
    pub fn ok(text: String) -> (f: Finding)
        ensures
            f.level == Level::Pass,
            f.text@ == text@,
    {
        Finding { level: Level::Pass, text }
    }

    /// Worth a look, never a gate.
    pub fn warn(text: String) -> (f: Finding)
        ensures
            f.level == Level::Warn,
            f.text@ == text@,
    {
        Finding { level: Level::Warn, text }
    }

    /// Over budget.
    pub fn breach(text: String) -> (f: Finding)
        ensures
            f.level == Level::Breach,
            f.text@ == text@,
    {
        Finding { level: Level::Breach, text }
    }
}

/// A finding's level and text.
pub type Shown = (Level, Seq<char>);

/// Levels and texts of findings.
pub open spec fn shown(findings: Seq<Finding>) -> Seq<Shown> {
    findings.map_values(|f: Finding| (f.level, f.text@))
}

/// How far a measurement is from its budget, over or under.
pub open spec fn gap_spec(budget: u64, measured: u64) -> u64 {
    if measured > budget {
        (measured - budget) as u64
    } else {
        (budget - measured) as u64
    }
}

/// How far a measurement is from its budget, over or under.
pub fn gap(budget: u64, measured: u64) -> (r: u64)
    ensures
        r == gap_spec(budget, measured),
{
    if measured > budget {
        measured - budget
    } else {
        budget - measured
    }
}

/// The finding on one budgeted artifact. `share` is the gap as a
/// percentage of the budget, already printed.
pub open spec fn artifact_finding(
    name: Seq<char>,
    budget: ArtifactBudget,
    measured: Option<u64>,
    share: Seq<char>,
) -> Shown {
    match measured {
        Some(bytes) => {
            let size = seq![
                "artifact "@,
                name,
                ": "@,
                grouped(bytes as nat),
                " / "@,
                grouped(budget.budget_bytes as nat),
            ];
            let g = grouped(gap_spec(budget.budget_bytes, bytes) as nat);
            if bytes > budget.budget_bytes {
                (
                    Level::Breach,
                    joined(
                        size + seq![
                            " bytes (over by "@,
                            g,
                            ", "@,
                            share,
                            "%) — note: "@,
                            budget.note@,
                        ],
                    ),
                )
            } else {
                (
                    Level::Pass,
                    joined(size + seq![" bytes (headroom "@, g, ", "@, share, "%)"@]),
                )
            }
        },
        None => (
            Level::Warn,
            joined(seq!["artifact "@, name, ": budgeted but not measured (was it built?)"@]),
        ),
    }
}

/// The findings on the first `n` budgeted artifacts.
pub open spec fn artifact_findings(b: Budgets, r: Record, shares: Seq<String>, n: int) -> Seq<Shown>
    decreases n,
{
    if n <= 0 {
        Seq::empty()
    } else {
        let e = b.artifact@[n - 1];
        artifact_findings(b, r, shares, n - 1).push(
            artifact_finding(e.0@, e.1, lookup(r.artifacts@, e.0@), shares[n - 1]@),
        )
    }
}

/// Something measured that no budget names.
pub open spec fn unbudgeted(kind: Seq<char>, name: Seq<char>) -> Shown {
    (
        Level::Warn,
        joined(seq![kind, name, ": measured but unbudgeted — add it to perf/budgets.toml"@]),
    )
}

/// The findings on unbudgeted names among the first `n` measured.
pub open spec fn unbudgeted_findings<T, U>(
    kind: Seq<char>,
    budgeted: Seq<(String, T)>,
    measured: Seq<(String, U)>,
    n: int,
) -> Seq<Shown>
    decreases n,
{
    if n <= 0 {
        Seq::empty()
    } else {
        let front = unbudgeted_findings(kind, budgeted, measured, n - 1);
        let name = measured[n - 1].0@;
        if first_at(budgeted, name) is None {
            front.push(unbudgeted(kind, name))
        } else {
            front
        }
    }
}

/// The finding on the external dependency count.
pub open spec fn deps_finding(measured: u64, budget: u64) -> Shown {
    if measured > budget {
        (
            Level::Breach,
            joined(
                seq![
                    "deps: "@,
                    dec(measured as nat),
                    " external (normal) > budget "@,
                    dec(budget as nat),
                    " — new dependency requires a visible budget raise"@,
                ],
            ),
        )
    } else {
        (
            Level::Pass,
            joined(
                seq![
                    "deps: "@,
                    dec(measured as nat),
                    " / "@,
                    dec(budget as nat),
                    " external (normal)"@,
                ],
            ),
        )
    }
}

/// The duplicated crates among the first `n` that no allowlist entry
/// names, each with its versions.
pub open spec fn unexpected(
    dups: Seq<(String, Vec<String>)>,
    allowed: Seq<String>,
    n: int,
) -> Seq<Seq<char>>
    decreases n,
{
    if n <= 0 {
        Seq::empty()
    } else {
        let front = unexpected(dups, allowed, n - 1);
        let e = dups[n - 1];
        if listed(allowed, e.0@) {
            front
        } else {
            front.push(joined(seq![e.0@, " ("@, interleaved(texts(e.1@), ", "@), ")"@]))
        }
    }
}

/// The finding on duplicated crates.
pub open spec fn duplicates_finding(dups: Seq<(String, Vec<String>)>, allowed: Seq<String>) -> Shown {
    let bad = unexpected(dups, allowed, dups.len() as int);
    if bad.len() == 0 {
        (
            Level::Pass,
            joined(
                seq![
                    "duplicates: "@,
                    dec(dups.len()),
                    " duplicated crate name(s), all allowlisted"@,
                ],
            ),
        )
    } else {
        (
            Level::Breach,
            joined(
                seq![
                    "duplicates: unallowlisted duplicate versions: "@,
                    interleaved(bad, "; "@),
                ],
            ),
        )
    }
}

/// The findings on allowlist entries among the first `n` that no longer
/// apply.
pub open spec fn stale_findings(
    allowed: Seq<String>,
    dups: Seq<(String, Vec<String>)>,
    n: int,
) -> Seq<Shown>
    decreases n,
{
    if n <= 0 {
        Seq::empty()
    } else {
        let front = stale_findings(allowed, dups, n - 1);
        let name = allowed[n - 1]@;
        if first_at(dups, name) is None {
            front.push(
                (
                    Level::Warn,
                    joined(
                        seq![
                            "duplicates: "@,
                            name,
                            " is allowlisted but no longer duplicated — remove the allowlist entry"@,
                        ],
                    ),
                ),
            )
        } else {
            front
        }
    }
}

/// The members among the first `n` that do not compile for wasm32.
pub open spec fn failed_members(wasm: Seq<(String, bool)>, n: int) -> Seq<Seq<char>>
    decreases n,
{
    if n <= 0 {
        Seq::empty()
    } else if wasm[n - 1].1 {
        failed_members(wasm, n - 1)
    } else {
        failed_members(wasm, n - 1).push(wasm[n - 1].0@)
    }
}

/// The finding on the wasm32 check.
pub open spec fn wasm_finding(wasm: Seq<(String, bool)>) -> Shown {
    let failed = failed_members(wasm, wasm.len() as int);
    if wasm.len() == 0 {
        (Level::Warn, "wasm: not checked (see record skipped[] for the reason)"@)
    } else if failed.len() == 0 {
        (Level::Pass, joined(seq!["wasm32 check: "@, dec(wasm.len()), " member(s) compile"@]))
    } else {
        (Level::Breach, joined(seq!["wasm32 check failed for: "@, interleaved(failed, ", "@)]))
    }
}

/// The finding on one budgeted bench.
pub open spec fn bench_finding(
    id: Seq<char>,
    budget: BenchBudget,
    measured: Option<BenchMeasurement>,
) -> Shown {
    match measured {
        Some(m) => if m.instructions > budget.max_instructions {
            (
                Level::Breach,
                joined(
                    seq![
                        "bench "@,
                        id,
                        ": "@,
                        grouped(m.instructions as nat),
                        " instructions > budget "@,
                        grouped(budget.max_instructions as nat),
                        " — note: "@,
                        budget.note@,
                    ],
                ),
            )
        } else {
            (
                Level::Pass,
                joined(
                    seq![
                        "bench "@,
                        id,
                        ": "@,
                        grouped(m.instructions as nat),
                        " / "@,
                        grouped(budget.max_instructions as nat),
                        " instructions"@,
                    ],
                ),
            )
        },
        None => (
            Level::Warn,
            joined(seq!["bench "@, id, ": budgeted but not measured (did the bench run?)"@]),
        ),
    }
}

/// The findings on the first `n` budgeted benches.
pub open spec fn bench_findings(b: Budgets, r: Record, n: int) -> Seq<Shown>
    decreases n,
{
    if n <= 0 {
        Seq::empty()
    } else {
        let e = b.bench@[n - 1];
        bench_findings(b, r, n - 1).push(bench_finding(e.0@, e.1, lookup(r.benches@, e.0@)))
    }
}

/// A frame-time trend line.
pub open spec fn runtime_finding(scene: Seq<char>, f: FrameMeasurement) -> Shown {
    (
        Level::Pass,
        joined(
            seq![
                "trend runtime "@,
                scene,
                ": p50 "@,
                f.shown_p50@,
                " ms, p99 "@,
                f.shown_p99@,
                " ms over "@,
                dec(f.ticks as nat),
                " ticks of "@,
                dec(f.entities as nat),
                " entities"@,
            ],
        ),
    )
}

/// An allocation trend line.
pub open spec fn memory_finding(scene: Seq<char>, m: AllocMeasurement) -> Shown {
    (
        Level::Pass,
        joined(
            seq![
                "trend memory "@,
                scene,
                ": "@,
                grouped(m.allocs as nat),
                " allocs, peak "@,
                grouped(m.peak_bytes as nat),
                " bytes"@,
            ],
        ),
    )
}

/// The trend lines of the record's scenes.
pub open spec fn trend_findings(r: Record) -> Seq<Shown> {
    r.runtime@.map_values(|e: (String, FrameMeasurement)| runtime_finding(e.0@, e.1))
        + r.memory@.map_values(|e: (String, AllocMeasurement)| memory_finding(e.0@, e.1))
}

/// The whole comparison, in order.
pub open spec fn comparison(b: Budgets, r: Record, shares: Seq<String>) -> Seq<Shown> {
    artifact_findings(b, r, shares, b.artifact@.len() as int) + unbudgeted_findings(
        "artifact "@,
        b.artifact@,
        r.artifacts@,
        r.artifacts@.len() as int,
    ) + seq![
        deps_finding(r.deps.external_normal, b.deps.max_external_normal),
        duplicates_finding(r.deps.duplicates@, b.deps.allowed_duplicates@),
    ] + stale_findings(
        b.deps.allowed_duplicates@,
        r.deps.duplicates@,
        b.deps.allowed_duplicates@.len() as int,
    ) + seq![wasm_finding(r.wasm@)] + bench_findings(b, r, b.bench@.len() as int)
        + unbudgeted_findings("bench "@, b.bench@, r.benches@, r.benches@.len() as int)
        + trend_findings(r)
}

/// Showing one more finding.
proof fn lemma_shown_push(findings: Seq<Finding>, f: Finding)
    ensures
        shown(findings.push(f)) == shown(findings).push((f.level, f.text@)),
{
    assert(shown(findings.push(f)) =~= shown(findings).push((f.level, f.text@)));
}

/// Append one finding.
fn put(findings: &mut Vec<Finding>, f: Finding)
    ensures
        shown(final(findings)@) == shown(old(findings)@).push((f.level, f.text@)),
{
    proof {
        lemma_shown_push(findings@, f);
    }
    findings.push(f);
}

/// The finding on one budgeted artifact.
fn judge_artifact(name: &str, budget: &ArtifactBudget, measured: Option<u64>, share: &str) -> (f:
    Finding)
    ensures
        (f.level, f.text@) == artifact_finding(name@, *budget, measured, share@),
{
    let mut d = Doc::new();
    d.put("artifact ");
    d.put(name);
    match measured {
        Some(bytes) => {
            let size = fmt_num(bytes);
            let limit = fmt_num(budget.budget_bytes);
            let g = fmt_num(gap(budget.budget_bytes, bytes));
            d.put(": ");
            d.put(size.as_str());
            d.put(" / ");
            d.put(limit.as_str());
            let ghost head = seq![
                "artifact "@,
                name@,
                ": "@,
                grouped(bytes as nat),
                " / "@,
                grouped(budget.budget_bytes as nat),
            ];
            assert(d@ =~= head);
            if bytes > budget.budget_bytes {
                d.put(" bytes (over by ");
                d.put(g.as_str());
                d.put(", ");
                d.put(share);
                d.put("%) — note: ");
                d.put(budget.note.as_str());
                proof {
                    assert(d@ =~= head + seq![
                        " bytes (over by "@,
                        g@,
                        ", "@,
                        share@,
                        "%) — note: "@,
                        budget.note@,
                    ]);
                }
                Finding::breach(d.finish())
            } else {
                d.put(" bytes (headroom ");
                d.put(g.as_str());
                d.put(", ");
                d.put(share);
                d.put("%)");
                proof {
                    assert(d@ =~= head + seq![" bytes (headroom "@, g@, ", "@, share@, "%)"@]);
                }
                Finding::ok(d.finish())
            }
        },
        None => {
            d.put(": budgeted but not measured (was it built?)");
            proof {
                assert(d@ =~= seq![
                    "artifact "@,
                    name@,
                    ": budgeted but not measured (was it built?)"@,
                ]);
            }
            Finding::warn(d.finish())
        },
    }
}

/// The findings on budgeted artifacts.
fn put_artifacts(findings: &mut Vec<Finding>, b: &Budgets, r: &Record, shares: &Vec<String>)
    requires
        shares@.len() == b.artifact@.len(),
    ensures
        shown(final(findings)@) == shown(old(findings)@) + artifact_findings(
            *b,
            *r,
            shares@,
            b.artifact@.len() as int,
        ),
{
    let mut i: usize = 0;
    proof {
        assert(shown(findings@) =~= shown(old(findings)@) + artifact_findings(*b, *r, shares@, 0));
    }
    while i < b.artifact.len()
        invariant
            i <= b.artifact@.len(),
            shares@.len() == b.artifact@.len(),
            shown(findings@) == shown(old(findings)@) + artifact_findings(
                *b,
                *r,
                shares@,
                i as int,
            ),
        decreases b.artifact@.len() - i,
    {
        let name = b.artifact[i].0.as_str();
        let measured: Option<u64> = match find(&r.artifacts, name) {
            Some(k) => Some(r.artifacts[k].1),
            None => None,
        };
        let f = judge_artifact(name, &b.artifact[i].1, measured, shares[i].as_str());
        put(findings, f);
        i = i + 1;
        proof {
            assert(shown(findings@) =~= shown(old(findings)@) + artifact_findings(
                *b,
                *r,
                shares@,
                i as int,
            ));
        }
    }
}

/// The findings on measured names without a budget.
fn put_unbudgeted<T, U>(
    findings: &mut Vec<Finding>,
    kind: &str,
    budgeted: &Vec<(String, T)>,
    measured: &Vec<(String, U)>,
)
    ensures
        shown(final(findings)@) == shown(old(findings)@) + unbudgeted_findings(
            kind@,
            budgeted@,
            measured@,
            measured@.len() as int,
        ),
{
    let mut i: usize = 0;
    proof {
        assert(shown(findings@) =~= shown(old(findings)@) + unbudgeted_findings(
            kind@,
            budgeted@,
            measured@,
            0,
        ));
    }
    while i < measured.len()
        invariant
            i <= measured@.len(),
            shown(findings@) == shown(old(findings)@) + unbudgeted_findings(
                kind@,
                budgeted@,
                measured@,
                i as int,
            ),
        decreases measured@.len() - i,
    {
        let name = measured[i].0.as_str();
        if find(budgeted, name).is_none() {
            let mut d = Doc::new();
            d.put(kind);
            d.put(name);
            d.put(": measured but unbudgeted — add it to perf/budgets.toml");
            proof {
                assert(d@ =~= seq![
                    kind@,
                    name@,
                    ": measured but unbudgeted — add it to perf/budgets.toml"@,
                ]);
            }
            put(findings, Finding::warn(d.finish()));
        }
        i = i + 1;
        proof {
            assert(shown(findings@) =~= shown(old(findings)@) + unbudgeted_findings(
                kind@,
                budgeted@,
                measured@,
                i as int,
            ));
        }
    }
}

/// The finding on the external dependency count.
fn judge_deps(measured: u64, budget: u64) -> (f: Finding)
    ensures
        (f.level, f.text@) == deps_finding(measured, budget),
{
    let mut d = Doc::new();
    d.put("deps: ");
    d.put_dec(measured);
    if measured > budget {
        d.put(" external (normal) > budget ");
        d.put_dec(budget);
        d.put(" — new dependency requires a visible budget raise");
        proof {
            assert(d@ =~= seq![
                "deps: "@,
                dec(measured as nat),
                " external (normal) > budget "@,
                dec(budget as nat),
                " — new dependency requires a visible budget raise"@,
            ]);
        }
        Finding::breach(d.finish())
    } else {
        d.put(" / ");
        d.put_dec(budget);
        d.put(" external (normal)");
        proof {
            assert(d@ =~= seq![
                "deps: "@,
                dec(measured as nat),
                " / "@,
                dec(budget as nat),
                " external (normal)"@,
            ]);
        }
        Finding::ok(d.finish())
    }
}

/// The finding on duplicated crates.
fn judge_duplicates(dups: &Vec<(String, Vec<String>)>, allowed: &Vec<String>) -> (f: Finding)
    ensures
        (f.level, f.text@) == duplicates_finding(dups@, allowed@),
{
    let mut bad: Vec<String> = Vec::new();
    let mut i: usize = 0;
    proof {
        assert(texts(bad@) =~= unexpected(dups@, allowed@, 0));
    }
    while i < dups.len()
        invariant
            i <= dups@.len(),
            texts(bad@) == unexpected(dups@, allowed@, i as int),
        decreases dups@.len() - i,
    {
        let name = dups[i].0.as_str();
        if !contains(allowed, name) {
            let versions = join(&dups[i].1, ", ");
            let mut d = Doc::new();
            d.put(name);
            d.put(" (");
            d.put(versions.as_str());
            d.put(")");
            proof {
                assert(d@ =~= seq![name@, " ("@, versions@, ")"@]);
            }
            let line = d.finish();
            let ghost before = bad@;
            bad.push(line);
            proof {
                assert(texts(bad@) =~= texts(before).push(line@));
            }
        }
        i = i + 1;
    }
    proof {
        assert(texts(bad@).len() == bad@.len());
    }
    let mut d = Doc::new();
    if bad.len() == 0 {
        d.put("duplicates: ");
        d.put_dec(dups.len() as u64);
        d.put(" duplicated crate name(s), all allowlisted");
        proof {
            assert(d@ =~= seq![
                "duplicates: "@,
                dec(dups@.len()),
                " duplicated crate name(s), all allowlisted"@,
            ]);
        }
        Finding::ok(d.finish())
    } else {
        let list = join(&bad, "; ");
        d.put("duplicates: unallowlisted duplicate versions: ");
        d.put(list.as_str());
        proof {
            assert(d@ =~= seq!["duplicates: unallowlisted duplicate versions: "@, list@]);
        }
        Finding::breach(d.finish())
    }
}

/// The findings on allowlist entries that no longer apply.
fn put_stale(findings: &mut Vec<Finding>, allowed: &Vec<String>, dups: &Vec<(String, Vec<String>)>)
    ensures
        shown(final(findings)@) == shown(old(findings)@) + stale_findings(
            allowed@,
            dups@,
            allowed@.len() as int,
        ),
{
    let mut i: usize = 0;
    proof {
        assert(shown(findings@) =~= shown(old(findings)@) + stale_findings(allowed@, dups@, 0));
    }
    while i < allowed.len()
        invariant
            i <= allowed@.len(),
            shown(findings@) == shown(old(findings)@) + stale_findings(allowed@, dups@, i as int),
        decreases allowed@.len() - i,
    {
        let name = allowed[i].as_str();
        if find(dups, name).is_none() {
            let mut d = Doc::new();
            d.put("duplicates: ");
            d.put(name);
            d.put(" is allowlisted but no longer duplicated — remove the allowlist entry");
            proof {
                assert(d@ =~= seq![
                    "duplicates: "@,
                    name@,
                    " is allowlisted but no longer duplicated — remove the allowlist entry"@,
                ]);
            }
            put(findings, Finding::warn(d.finish()));
        }
        i = i + 1;
        proof {
            assert(shown(findings@) =~= shown(old(findings)@) + stale_findings(
                allowed@,
                dups@,
                i as int,
            ));
        }
    }
}

/// The finding on the wasm32 check.
fn judge_wasm(wasm: &Vec<(String, bool)>) -> (f: Finding)
    ensures
        (f.level, f.text@) == wasm_finding(wasm@),
{
    if wasm.len() == 0 {
        return Finding::warn(
            "wasm: not checked (see record skipped[] for the reason)".to_owned(),
        );
    }
    let mut failed: Vec<String> = Vec::new();
    let mut i: usize = 0;
    proof {
        assert(texts(failed@) =~= failed_members(wasm@, 0));
    }
    while i < wasm.len()
        invariant
            i <= wasm@.len(),
            texts(failed@) == failed_members(wasm@, i as int),
        decreases wasm@.len() - i,
    {
        if !wasm[i].1 {
            let name = wasm[i].0.as_str().to_owned();
            let ghost before = failed@;
            failed.push(name);
            proof {
                assert(texts(failed@) =~= texts(before).push(name@));
            }
        }
        i = i + 1;
    }
    proof {
        assert(texts(failed@).len() == failed@.len());
    }
    let mut d = Doc::new();
    if failed.len() == 0 {
        d.put("wasm32 check: ");
        d.put_dec(wasm.len() as u64);
        d.put(" member(s) compile");
        proof {
            assert(d@ =~= seq!["wasm32 check: "@, dec(wasm@.len()), " member(s) compile"@]);
        }
        Finding::ok(d.finish())
    } else {
        let list = join(&failed, ", ");
        d.put("wasm32 check failed for: ");
        d.put(list.as_str());
        proof {
            assert(d@ =~= seq!["wasm32 check failed for: "@, list@]);
        }
        Finding::breach(d.finish())
    }
}

/// The finding on one budgeted bench.
fn judge_bench(id: &str, budget: &BenchBudget, measured: Option<&BenchMeasurement>) -> (f: Finding)
    ensures
        (f.level, f.text@) == bench_finding(
            id@,
            *budget,
            match measured {
                Some(m) => Some(*m),
                None => None,
            },
        ),
{
    let mut d = Doc::new();
    d.put("bench ");
    d.put(id);
    match measured {
        Some(m) => {
            let count = fmt_num(m.instructions);
            let limit = fmt_num(budget.max_instructions);
            d.put(": ");
            d.put(count.as_str());
            if m.instructions > budget.max_instructions {
                d.put(" instructions > budget ");
                d.put(limit.as_str());
                d.put(" — note: ");
                d.put(budget.note.as_str());
                proof {
                    assert(d@ =~= seq![
                        "bench "@,
                        id@,
                        ": "@,
                        count@,
                        " instructions > budget "@,
                        limit@,
                        " — note: "@,
                        budget.note@,
                    ]);
                }
                Finding::breach(d.finish())
            } else {
                d.put(" / ");
                d.put(limit.as_str());
                d.put(" instructions");
                proof {
                    assert(d@ =~= seq![
                        "bench "@,
                        id@,
                        ": "@,
                        count@,
                        " / "@,
                        limit@,
                        " instructions"@,
                    ]);
                }
                Finding::ok(d.finish())
            }
        },
        None => {
            d.put(": budgeted but not measured (did the bench run?)");
            proof {
                assert(d@ =~= seq![
                    "bench "@,
                    id@,
                    ": budgeted but not measured (did the bench run?)"@,
                ]);
            }
            Finding::warn(d.finish())
        },
    }
}

/// The findings on budgeted benches.
fn put_benches(findings: &mut Vec<Finding>, b: &Budgets, r: &Record)
    ensures
        shown(final(findings)@) == shown(old(findings)@) + bench_findings(
            *b,
            *r,
            b.bench@.len() as int,
        ),
{
    let mut i: usize = 0;
    proof {
        assert(shown(findings@) =~= shown(old(findings)@) + bench_findings(*b, *r, 0));
    }
    while i < b.bench.len()
        invariant
            i <= b.bench@.len(),
            shown(findings@) == shown(old(findings)@) + bench_findings(*b, *r, i as int),
        decreases b.bench@.len() - i,
    {
        let id = b.bench[i].0.as_str();
        let measured: Option<&BenchMeasurement> = match find(&r.benches, id) {
            Some(k) => Some(&r.benches[k].1),
            None => None,
        };
        let f = judge_bench(id, &b.bench[i].1, measured);
        put(findings, f);
        i = i + 1;
        proof {
            assert(shown(findings@) =~= shown(old(findings)@) + bench_findings(*b, *r, i as int));
        }
    }
}

/// A frame-time trend line.
fn tell_runtime(scene: &str, m: &FrameMeasurement) -> (f: Finding)
    ensures
        (f.level, f.text@) == runtime_finding(scene@, *m),
{
    let mut d = Doc::new();
    d.put("trend runtime ");
    d.put(scene);
    d.put(": p50 ");
    d.put(m.shown_p50.as_str());
    d.put(" ms, p99 ");
    d.put(m.shown_p99.as_str());
    d.put(" ms over ");
    d.put_dec(m.ticks);
    d.put(" ticks of ");
    d.put_dec(m.entities);
    d.put(" entities");
    proof {
        assert(d@ =~= seq![
            "trend runtime "@,
            scene@,
            ": p50 "@,
            m.shown_p50@,
            " ms, p99 "@,
            m.shown_p99@,
            " ms over "@,
            dec(m.ticks as nat),
            " ticks of "@,
            dec(m.entities as nat),
            " entities"@,
        ]);
    }
    Finding::ok(d.finish())
}

/// An allocation trend line.
fn tell_memory(scene: &str, m: &AllocMeasurement) -> (f: Finding)
    ensures
        (f.level, f.text@) == memory_finding(scene@, *m),
{
    let allocs = fmt_num(m.allocs);
    let peak = fmt_num(m.peak_bytes);
    let mut d = Doc::new();
    d.put("trend memory ");
    d.put(scene);
    d.put(": ");
    d.put(allocs.as_str());
    d.put(" allocs, peak ");
    d.put(peak.as_str());
    d.put(" bytes");
    proof {
        assert(d@ =~= seq![
            "trend memory "@,
            scene@,
            ": "@,
            allocs@,
            " allocs, peak "@,
            peak@,
            " bytes"@,
        ]);
    }
    Finding::ok(d.finish())
}

/// The trend lines.
fn put_trends(findings: &mut Vec<Finding>, r: &Record)
    ensures
        shown(final(findings)@) == shown(old(findings)@) + trend_findings(*r),
{
    let ghost start = shown(findings@);
    let ghost runtime = r.runtime@.map_values(
        |e: (String, FrameMeasurement)| runtime_finding(e.0@, e.1),
    );
    let ghost memory = r.memory@.map_values(
        |e: (String, AllocMeasurement)| memory_finding(e.0@, e.1),
    );
    let mut i: usize = 0;
    proof {
        assert(shown(findings@) =~= start + runtime.take(0));
    }
    while i < r.runtime.len()
        invariant
            i <= r.runtime@.len(),
            runtime == r.runtime@.map_values(
                |e: (String, FrameMeasurement)| runtime_finding(e.0@, e.1),
            ),
            shown(findings@) == start + runtime.take(i as int),
        decreases r.runtime@.len() - i,
    {
        let f = tell_runtime(r.runtime[i].0.as_str(), &r.runtime[i].1);
        put(findings, f);
        proof {
            assert(start + runtime.take(i + 1) =~= (start + runtime.take(i as int)).push(
                runtime[i as int],
            ));
        }
        i = i + 1;
    }
    let ghost mid = start + runtime;
    proof {
        assert(runtime.take(i as int) =~= runtime);
        assert(shown(findings@) =~= mid + memory.take(0));
    }
    i = 0;
    while i < r.memory.len()
        invariant
            i <= r.memory@.len(),
            memory == r.memory@.map_values(
                |e: (String, AllocMeasurement)| memory_finding(e.0@, e.1),
            ),
            shown(findings@) == mid + memory.take(i as int),
        decreases r.memory@.len() - i,
    {
        let f = tell_memory(r.memory[i].0.as_str(), &r.memory[i].1);
        put(findings, f);
        proof {
            assert(mid + memory.take(i + 1) =~= (mid + memory.take(i as int)).push(
                memory[i as int],
            ));
        }
        i = i + 1;
    }
    proof {
        assert(memory.take(i as int) =~= memory);
        assert(mid + memory =~= start + trend_findings(*r));
    }
}

/// Compare a measurement record against the budgets. `shares` prints,
/// for each budgeted artifact, its gap as a percentage of the budget.
pub fn compare(budgets: &Budgets, record: &Record, shares: &Vec<String>) -> (r: Vec<Finding>)
    requires
        shares@.len() == budgets.artifact@.len(),
    ensures
        shown(r@) == comparison(*budgets, *record, shares@),
{
    let mut findings: Vec<Finding> = Vec::new();
    let ghost empty = Seq::<Shown>::empty();
    proof {
        assert(shown(findings@) =~= empty);
    }
    put_artifacts(&mut findings, budgets, record, shares);
    let ghost s1 = artifact_findings(*budgets, *record, shares@, budgets.artifact@.len() as int);
    proof {
        assert(empty + s1 =~= s1);
    }
    put_unbudgeted(&mut findings, "artifact ", &budgets.artifact, &record.artifacts);
    let ghost s2 = s1 + unbudgeted_findings(
        "artifact "@,
        budgets.artifact@,
        record.artifacts@,
        record.artifacts@.len() as int,
    );
    let deps = judge_deps(record.deps.external_normal, budgets.deps.max_external_normal);
    let ghost f1 = (deps.level, deps.text@);
    put(&mut findings, deps);
    let dups = judge_duplicates(&record.deps.duplicates, &budgets.deps.allowed_duplicates);
    let ghost f2 = (dups.level, dups.text@);
    put(&mut findings, dups);
    proof {
        assert(s2.push(f1).push(f2) =~= s2 + seq![f1, f2]);
    }
    put_stale(&mut findings, &budgets.deps.allowed_duplicates, &record.deps.duplicates);
    let ghost s3 = shown(findings@);
    let wasm = judge_wasm(&record.wasm);
    let ghost f3 = (wasm.level, wasm.text@);
    put(&mut findings, wasm);
    proof {
        assert(s3.push(f3) =~= s3 + seq![f3]);
    }
    put_benches(&mut findings, budgets, record);
    put_unbudgeted(&mut findings, "bench ", &budgets.bench, &record.benches);
    put_trends(&mut findings, record);
    findings
}

} // verus!

//! Budgets, measurement records, the dependency listing, and the trend
//! report.

use bowo::backlog::{find_added_days, parse_backlog, BacklogItem};
use bowo::budgets::{compare, gap, Advisory, ArtifactBudget, BenchBudget, Budgets, Finding, Level};
use bowo::budgets::{Deps as BudgetDeps, Scope};
use bowo::calendar::{count_days, days_from_civil};
use bowo::packages::parse_tree_packages;
use bowo::perf::{build_args, building_note, cpu_model, default_members, dispatch, flag};
use bowo::perf::{git_info, host_triple, measure_artifacts, or_unknown, parse_flags};
use bowo::perf::{phase0_skips, record_of, report_findings, tree_args};
use bowo::perf::{Command, Measured, Package, Target};
use bowo::record as rec;
use bowo::record::Record;
use bowo::report::{baseline_index, collect_deltas, delta_pct, is_flagged, is_shard};
use bowo::report::{parse_since, record_lines, render, select_window, time_order, truncate_sha};
use bowo::report::{Context, Delta, SinceError};
use bowo::table::{contains, find, join};
use bowo::text::{decimal, fmt_num, hex16};

fn text(s: &str) -> String {
    s.to_string()
}

fn texts(v: &[&str]) -> Vec<String> {
    v.iter().map(|s| s.to_string()).collect()
}

fn fixture(budget_bytes: u64, max_deps: u64) -> Budgets {
    Budgets {
        schema: 1,
        reviewed: text("2026-09-22"),
        scope: Scope {
            measured_members: texts(&["bw-core", "bw-demo"]),
        },
        artifact: vec![(
            text("bw-demo"),
            ArtifactBudget {
                budget_bytes,
                note: text("test"),
            },
        )],
        deps: BudgetDeps {
            max_external_normal: max_deps,
            allowed_duplicates: texts(&["old-dup"]),
        },
        bench: vec![],
        advisory: Advisory::default(),
    }
}

fn record_fixture(bytes: u64, deps: u64, dups: &[(&str, &[&str])]) -> Record {
    Record {
        schema: 1,
        unix_time: 0,
        runner: text("test"),
        git: rec::Git {
            sha: String::new(),
            branch: String::new(),
            dirty: false,
            commit_time: String::new(),
        },
        env: rec::Env {
            rustc: String::new(),
            host: String::new(),
            cpu: String::new(),
            cores: 0,
            kernel: String::new(),
        },
        config: rec::Config {
            profile: text("size"),
            features: vec![],
            target: String::new(),
        },
        artifacts: vec![(text("bw-demo"), bytes)],
        deps: rec::Deps {
            external_normal: deps,
            duplicates: dups
                .iter()
                .map(|(name, versions)| (name.to_string(), texts(versions)))
                .collect(),
        },
        wasm: vec![(text("bw-demo"), true)],
        benches: vec![],
        runtime: vec![],
        memory: vec![],
        skipped: vec![],
    }
}

/// Each budgeted artifact's gap as a percentage.
fn shares(budgets: &Budgets, record: &Record) -> Vec<String> {
    budgets
        .artifact
        .iter()
        .map(|(name, budget)| {
            let measured = record
                .artifacts
                .iter()
                .find(|(n, _)| n == name)
                .map_or(0, |(_, bytes)| *bytes);
            let gap = gap(budget.budget_bytes, measured);
            format!("{:.1}", 100.0 * gap as f64 / budget.budget_bytes as f64)
        })
        .collect()
}

fn compared(budgets: &Budgets, record: &Record) -> Vec<Finding> {
    compare(budgets, record, &shares(budgets, record))
}

fn breaches(findings: &[Finding]) -> Vec<&str> {
    findings
        .iter()
        .filter(|f| f.level == Level::Breach)
        .map(|f| f.text.as_str())
        .collect()
}

#[test]
fn compare_passes_within_budgets() {
    let findings = compared(&fixture(100, 10), &record_fixture(99, 10, &[]));
    assert_eq!(breaches(&findings).len(), 0);
    assert!(findings.iter().any(|f| f.text.contains("headroom 1")));
}

#[test]
fn trends_never_gate() {
    let plain = record_fixture(101, 11, &[]);
    let mut slow = record_fixture(101, 11, &[]);
    slow.memory = vec![(
        text("swarm"),
        rec::AllocMeasurement {
            allocs: u64::MAX,
            peak_bytes: u64::MAX,
        },
    )];
    let b = fixture(100, 10);
    let (quiet, loud) = (compared(&b, &plain), compared(&b, &slow));
    assert_eq!(loud.len(), quiet.len() + 1);
    assert_eq!(breaches(&loud), breaches(&quiet));
    let warnings = |found: &[Finding]| found.iter().filter(|f| f.level == Level::Warn).count();
    assert_eq!(warnings(&loud), warnings(&quiet));
}

#[test]
fn looser_budgets_add_no_breach() {
    let record = record_fixture(101, 11, &[("new-dup", &["1.0.0", "2.0.0"])]);
    let count = |b: &Budgets| breaches(&compared(b, &record)).len();
    let mut open = fixture(101, 11);
    open.deps.allowed_duplicates = texts(&["new-dup", "old-dup"]);
    assert_eq!(count(&fixture(100, 10)), 3);
    assert_eq!(count(&fixture(101, 10)), 2);
    assert_eq!(count(&fixture(101, 11)), 1);
    assert_eq!(count(&open), 0);
    open.artifact.clear();
    assert_eq!(count(&open), 0);
}

#[test]
fn compare_flags_size_and_dep_breaches() {
    let findings = compared(&fixture(100, 10), &record_fixture(101, 11, &[]));
    let breaches = breaches(&findings);
    assert!(breaches.iter().any(|t| t.contains("over by 1")));
    assert!(breaches.iter().any(|t| t.contains("> budget 10")));
}

#[test]
fn compare_flags_missing_unbudgeted_and_stale_allowlist() {
    let mut budgets = fixture(100, 10);
    budgets.artifact.clear();
    let mut record = record_fixture(100, 10, &[]);
    record.artifacts.push((text("bw-new"), 5));
    let findings = compared(&budgets, &record);
    assert!(findings
        .iter()
        .any(|f| f.level == Level::Warn && f.text.contains("unbudgeted")));
    assert!(findings
        .iter()
        .any(|f| f.level == Level::Warn && f.text.contains("old-dup")));
}

#[test]
fn compare_treats_allowlisted_duplicates_as_ok() {
    let findings = compared(
        &fixture(100, 10),
        &record_fixture(99, 10, &[("old-dup", &["1.0", "1.1"])]),
    );
    assert_eq!(breaches(&findings).len(), 0);
}

#[test]
fn compare_flags_unallowlisted_duplicates() {
    let findings = compared(
        &fixture(100, 10),
        &record_fixture(99, 10, &[("serde", &["1.0.200", "1.0.210"])]),
    );
    assert!(findings
        .iter()
        .any(|f| f.level == Level::Breach && f.text.contains("serde (1.0.200, 1.0.210)")));
}

#[test]
fn fmt_num_inserts_thousands_separators() {
    assert_eq!(fmt_num(0), "0");
    assert_eq!(fmt_num(999), "999");
    assert_eq!(fmt_num(390_104), "390,104");
    assert_eq!(fmt_num(1_000_000), "1,000,000");
}

#[test]
fn compare_gates_on_instruction_budgets() {
    let mut budgets = fixture(100, 10);
    budgets.bench.push((
        text("sim::step"),
        BenchBudget {
            max_instructions: 1_000,
            note: text("test"),
        },
    ));
    let bench = |instructions: u64| (text("sim::step"), rec::BenchMeasurement { instructions });
    let mut within = record_fixture(100, 10, &[]);
    within.benches.push(bench(999));
    let findings = compared(&budgets, &within);
    assert_eq!(breaches(&findings).len(), 0);
    assert!(findings.iter().any(|f| f.text.contains("999 / 1,000")));

    let mut over = record_fixture(100, 10, &[]);
    over.benches.push(bench(1_001));
    let findings = compared(&budgets, &over);
    assert!(breaches(&findings)
        .iter()
        .any(|t| t.contains("1,001 instructions > budget 1,000")));

    let findings = compared(&budgets, &record_fixture(100, 10, &[]));
    assert!(findings
        .iter()
        .any(|f| f.level == Level::Warn && f.text.contains("budgeted but not measured")));
}

#[test]
fn compare_lists_every_finding_in_order() {
    let mut budgets = fixture(100, 10);
    budgets.artifact.push((
        text("gone"),
        ArtifactBudget {
            budget_bytes: 5,
            note: text("n"),
        },
    ));
    budgets.bench.push((
        text("idle"),
        BenchBudget {
            max_instructions: 1,
            note: text("n"),
        },
    ));
    let mut record = record_fixture(1_250, 11, &[("serde", &["1", "2"]), ("old-dup", &["3", "4"])]);
    record.artifacts.push((text("new"), 7));
    record.wasm = vec![(text("a"), false), (text("b"), true), (text("c"), false)];
    record
        .benches
        .push((text("extra"), rec::BenchMeasurement { instructions: 3 }));
    record.runtime.push((
        text("bw-demo::bounce"),
        rec::FrameMeasurement {
            frame_ms_min: 0.1f64.to_bits(),
            frame_ms_p50: 0.2f64.to_bits(),
            frame_ms_p90: 0.3f64.to_bits(),
            frame_ms_p99: 0.4f64.to_bits(),
            frame_ms_max: 0.5f64.to_bits(),
            shown_p50: text("0.200"),
            shown_p99: text("0.400"),
            p50_micros: 200,
            p99_micros: 400,
            entities: 1_000,
            ticks: 600,
            interactions: 30_000,
        },
    ));
    record.memory.push((
        text("bw-demo::bounce"),
        rec::AllocMeasurement {
            allocs: 259_981,
            peak_bytes: 316_999,
        },
    ));
    let rows: Vec<(Level, String)> = compared(&budgets, &record)
        .into_iter()
        .map(|f| (f.level, f.text))
        .collect();
    let want = [
        (
            Level::Breach,
            "artifact bw-demo: 1,250 / 100 bytes (over by 1,150, 1150.0%) — note: test",
        ),
        (
            Level::Warn,
            "artifact gone: budgeted but not measured (was it built?)",
        ),
        (
            Level::Warn,
            "artifact new: measured but unbudgeted — add it to perf/budgets.toml",
        ),
        (
            Level::Breach,
            "deps: 11 external (normal) > budget 10 — new dependency requires a visible budget raise",
        ),
        (
            Level::Breach,
            "duplicates: unallowlisted duplicate versions: serde (1, 2)",
        ),
        (Level::Breach, "wasm32 check failed for: a, c"),
        (
            Level::Warn,
            "bench idle: budgeted but not measured (did the bench run?)",
        ),
        (
            Level::Warn,
            "bench extra: measured but unbudgeted — add it to perf/budgets.toml",
        ),
        (
            Level::Pass,
            "trend runtime bw-demo::bounce: p50 0.200 ms, p99 0.400 ms over 600 ticks of 1000 entities",
        ),
        (
            Level::Pass,
            "trend memory bw-demo::bounce: 259,981 allocs, peak 316,999 bytes",
        ),
    ];
    assert_eq!(rows.len(), want.len(), "{rows:?}");
    for (row, want) in rows.iter().zip(want) {
        assert_eq!((row.0, row.1.as_str()), want);
    }
}

#[test]
fn unchecked_wasm_is_a_warning() {
    let mut record = record_fixture(99, 10, &[]);
    record.wasm.clear();
    assert!(compared(&fixture(100, 10), &record)
        .iter()
        .any(|f| f.level == Level::Warn
            && f.text == "wasm: not checked (see record skipped[] for the reason)"));
}

#[test]
fn checks_print_findings_and_a_verdict() {
    let budgets = fixture(100, 10);
    let record = record_fixture(99, 10, &[]);
    let (out, code) = report_findings(
        &budgets,
        &record,
        &shares(&budgets, &record),
        "perf/budgets.toml",
    );
    assert_eq!(code, 0);
    assert_eq!(
        out,
        "perf budgets: perf/budgets.toml (reviewed 2026-09-22)\n\
         OK    artifact bw-demo: 99 / 100 bytes (headroom 1, 1.0%)\n\
         OK    deps: 10 / 10 external (normal)\n\
         OK    duplicates: 0 duplicated crate name(s), all allowlisted\n\
         WARN  duplicates: old-dup is allowlisted but no longer duplicated — remove the allowlist entry\n\
         OK    wasm32 check: 1 member(s) compile\n\
         advisory: clean-check growth threshold 10% (trend-only, never a gate)\n\
         PASS (5 findings, 1 warnings)\n"
    );
    let record = record_fixture(101, 11, &[]);
    let (out, code) = report_findings(&budgets, &record, &shares(&budgets, &record), "b");
    assert_eq!(code, 1);
    assert!(out.ends_with("FAIL (2 breaches)\n"));
    assert!(out.contains("BREACH deps: 11 external"));
}

#[test]
fn tree_parser_extracts_name_version_pairs() {
    let tree = "\
bw-demo v0.1.0 (/home/u/bw-game/crates/demo)
anyhow v1.0.104
bw-core v0.1.0 (/home/u/bw-game/crates/core)
serde v1.0.229
serde_derive v1.0.229 (proc-macro)
proc-macro2 v1.0.107
proc-macro2 v1.0.107 (*)
serde v1.0.200
";
    let pairs = parse_tree_packages(tree);
    assert_eq!(pairs.len(), 7);
    assert!(pairs.contains("serde", "1.0.229"));
    assert!(pairs.contains("serde", "1.0.200"));
    assert!(pairs.contains("serde_derive", "1.0.229"));
    assert!(pairs.contains("bw-demo", "0.1.0"));
}

#[test]
fn tree_parser_ignores_non_package_lines() {
    assert!(parse_tree_packages("").is_empty());
    assert!(parse_tree_packages("garbage line\nv1.0\n").is_empty());
}

#[test]
fn summaries_count_externals_and_duplicates() {
    let mut set = parse_tree_packages("bw-demo v0.1.0\nserde v1.0.229\nserde v1.0.200\n");
    set.add_tree("anyhow v1.0.104\nserde v1.0.200\n");
    let (count, duplicates) = set.summary(&texts(&["bw-demo"]));
    assert_eq!(count, 3);
    assert_eq!(
        duplicates,
        vec![(text("serde"), texts(&["1.0.200", "1.0.229"]))]
    );
}

fn fixture_record(unix_time: u64, artifact_bytes: u64, instructions: u64) -> Record {
    Record {
        schema: 1,
        unix_time,
        runner: text("ci"),
        git: rec::Git {
            sha: format!("{unix_time:040x}"),
            branch: text("main"),
            dirty: false,
            commit_time: text("2026-09-22T00:00:00+00:00"),
        },
        env: rec::Env {
            rustc: text("rustc 1.95.0"),
            host: text("x86_64-unknown-linux-gnu"),
            cpu: text("t"),
            cores: 8,
            kernel: text("t"),
        },
        config: rec::Config {
            profile: text("size"),
            features: vec![],
            target: text("x86_64-unknown-linux-gnu"),
        },
        artifacts: vec![(text("bw-demo"), artifact_bytes)],
        deps: rec::Deps {
            external_normal: 78,
            duplicates: vec![],
        },
        wasm: vec![(text("bw-demo"), true)],
        benches: vec![(
            text("iai_sim::sim::step step_1000:s()"),
            rec::BenchMeasurement { instructions },
        )],
        runtime: vec![],
        memory: vec![],
        skipped: vec![rec::Skip {
            metric: text("clean compile time"),
            reason: text("advisory nightly metric"),
        }],
    }
}

/// A delta's change as a signed percentage.
fn change(d: &Delta) -> String {
    match (d.base, d.last) {
        (Some(base), Some(last)) => {
            format!("{:+.1}", 100.0 * (last as f64 - base as f64) / base as f64)
        }
        _ => String::new(),
    }
}

fn rendered(
    window: &Vec<Record>,
    budgets: Option<&Budgets>,
    backlog: Option<&Vec<BacklogItem>>,
    now: u64,
    since: &str,
) -> String {
    let latest = &window[window.len() - 1];
    let base = &window[baseline_index(window)];
    render(
        window,
        &Context {
            budgets,
            shares: budgets.map_or(vec![], |b| shares(b, latest)),
            backlog,
            now,
            since,
            delta_shares: collect_deltas(base, latest).iter().map(change).collect(),
        },
    )
}

#[test]
fn parse_since_accepts_days_and_all() {
    for (input, want) in [("7d", Some(7)), ("all", None)] {
        match parse_since(input) {
            Ok(v) => assert_eq!(v, want),
            Err(_) => panic!("parse_since({input}) failed"),
        }
    }
    assert!(parse_since("weekly").is_err());
    assert_eq!(parse_since("weekly"), Err(SinceError::Format));
    assert_eq!(parse_since("xd"), Err(SinceError::NotANumber(text("x"))));
    assert_eq!(parse_since("+7d"), Err(SinceError::NotANumber(text("+7"))));
    assert_eq!(parse_since("-7d"), Err(SinceError::NotANumber(text("-7"))));
    assert_eq!(parse_since("d"), Err(SinceError::NotANumber(text(""))));
    assert_eq!(parse_since("7dd"), Err(SinceError::NotANumber(text("7d"))));
    assert_eq!(
        parse_since("18446744073709551616d"),
        Err(SinceError::NotANumber(text("18446744073709551616")))
    );
}

#[test]
fn render_flags_double_digit_growth_with_action() {
    let base = fixture_record(1_000, 1_000_000, 13_005);
    let last = fixture_record(2_000, 1_200_000, 13_100);
    let markdown = rendered(&vec![base, last], None, None, 0, "7d");
    assert!(markdown.contains("2 record(s) (2 same env"));
    assert!(markdown.contains("artifact bw-demo bytes"));
    assert!(markdown.contains("+20.0%"));
    assert!(markdown.contains("action: run `cargo xtask perf attribute`"));
    assert!(markdown.contains("bench iai_sim::sim::step"));
    assert!(!markdown.contains("- **bench"));
}

#[test]
fn render_flags_env_mismatch_instead_of_diffing() {
    let mut other_env = fixture_record(1_000, 500_000, 10_000);
    other_env.runner = text("elsewhere");
    let last = fixture_record(2_000, 1_000_000, 13_005);
    let markdown = rendered(&vec![other_env, last], None, None, 0, "30d");
    assert!(markdown.contains("1 record(s) excluded from deltas"));
    assert!(markdown.contains("only one record in this window/env"));
}

#[test]
fn render_lists_skips_from_latest_record() {
    let markdown = rendered(&vec![fixture_record(1_000, 1, 1)], None, None, 0, "7d");
    assert!(markdown.contains("clean compile time: advisory nightly metric"));
}

#[test]
fn render_shows_the_budget_state() {
    let budgets = fixture(100, 100);
    let markdown = rendered(
        &vec![fixture_record(1_000, 99, 1)],
        Some(&budgets),
        None,
        0,
        "all",
    );
    assert!(markdown.contains("- [ok] artifact bw-demo: 99 / 100 bytes (headroom 1, 1.0%)\n"));
    assert!(markdown.contains("- [warn] bench iai_sim::sim::step"));
    let markdown = rendered(&vec![fixture_record(1_000, 99, 1)], None, None, 0, "all");
    assert!(markdown.contains("## budgets\n\n- skipped: perf/budgets.toml not loadable\n"));
}

#[test]
fn backlog_parser_extracts_open_items_with_dates() {
    let backlog = "\
# Backlog

## Open

- [ ] **tree-tune** — Refine the tree visuals. Added 2026-09-22.
- [ ] **no-date** — Legacy line without a marker.
- [x] **done-thing** — Finished. Added 2026-09-01.

Some prose line that mentions Added 2026-01-01 but is not an item.
";
    let items = parse_backlog(backlog);
    assert_eq!(items.len(), 2, "done items and prose are not open items");
    assert!(items[0].text.starts_with("**tree-tune**"));
    assert!(
        !items[0].text.contains("Added"),
        "marker stays out of display text"
    );
    assert_eq!(items[0].added_days, Some(days_from_civil(2026, 9, 22)));
    assert_eq!(items[1].added_days, None);
}

#[test]
fn date_markers_are_read_or_left_alone() {
    assert_eq!(find_added_days("x Added 1970-01-02."), Some(1));
    assert_eq!(find_added_days("Added 1970-01-03 then Added 1970-01-02"), Some(1));
    for bad in [
        "no marker",
        "Added soon",
        "Added 2026-13-01",
        "Added 2026-01-32",
        "Added 2026-00-01",
        "Added 2026-01",
        "Added 2026-01-01-01",
    ] {
        assert_eq!(find_added_days(bad), None, "{bad}");
    }
}

#[test]
fn civil_days_are_calendar_accurate() {
    assert_eq!(days_from_civil(1970, 1, 1), 0);
    assert_eq!(days_from_civil(1970, 1, 2), 1);
    assert_eq!(
        days_from_civil(2024, 3, 1) - days_from_civil(2024, 2, 28),
        2
    );
    assert_eq!(
        days_from_civil(2026, 1, 1) - days_from_civil(2025, 12, 31),
        1
    );
    assert_eq!(
        days_from_civil(2026, 9, 22) - days_from_civil(2026, 9, 15),
        7
    );
    assert_eq!(days_from_civil(2000, 3, 1), 11_017);
    assert_eq!(days_from_civil(1969, 12, 31), -1);
    assert_eq!(days_from_civil(-1, 12, 31), -719_529);
    let last = 25_252_734_927_768_524;
    assert_eq!(
        i128::from(days_from_civil(last, 1, 1)),
        count_days(i128::from(last), 1, 1)
    );
    assert_eq!(
        find_added_days("Added 25200000000000000-01-01"),
        Some(days_from_civil(25_200_000_000_000_000, 1, 1))
    );
    assert_eq!(find_added_days("Added 25300000000000000-01-01"), None);
}

#[test]
fn render_lists_backlog_with_age_and_flags_stale_items() {
    let items = vec![
        BacklogItem {
            text: text("**tree-tune** — Refine the tree visuals."),
            added_days: Some(days_from_civil(2026, 9, 20)),
        },
        BacklogItem {
            text: text("**old-thing** — From a while back."),
            added_days: Some(days_from_civil(2026, 8, 1)),
        },
        BacklogItem {
            text: text("**no-date**"),
            added_days: None,
        },
    ];
    let now = (days_from_civil(2026, 9, 22) * 86_400) as u64;
    let markdown = rendered(
        &vec![fixture_record(1_000, 1, 1)],
        None,
        Some(&items),
        now,
        "7d",
    );
    assert!(markdown.contains("## backlog (3 open, from backlog.md)"));
    assert!(markdown.contains("**tree-tune** — Refine the tree visuals. — added 2d ago"));
    assert!(markdown
        .contains("⚠ **old-thing** — From a while back. — added 52d ago — older than two weekly cycles; action: schedule, split, or close"));
    assert!(markdown.contains("**no-date** — no Added date"));
}

#[test]
fn render_skips_backlog_section_when_file_is_missing() {
    let markdown = rendered(&vec![fixture_record(1_000, 1, 1)], None, None, 0, "7d");
    assert!(markdown.contains("## backlog"));
    assert!(markdown.contains("backlog.md not found at workspace root"));
    let none = vec![];
    let markdown = rendered(&vec![fixture_record(1_000, 1, 1)], None, Some(&none), 0, "7d");
    assert!(markdown.contains("- none — no open items\n"));
}

#[test]
fn windows_select_recent_records() {
    let times = vec![100, 86_500, 200_000];
    assert_eq!(select_window(&times, 200_000, None), vec![0, 1, 2]);
    assert_eq!(select_window(&times, 200_000, Some(2)), vec![1, 2]);
    assert_eq!(
        select_window(&times, 10_000_000, Some(1)),
        vec![2],
        "the newest record stands in for an empty window"
    );
}

#[test]
fn records_sort_by_time_and_keep_ties() {
    assert_eq!(time_order(&vec![30, 10, 20, 10]), vec![1, 3, 2, 0]);
    assert_eq!(time_order(&vec![]), Vec::<usize>::new());
}

#[test]
fn shards_are_read_line_by_line() {
    assert!(is_shard("records-2026-08.jsonl"));
    assert!(!is_shard("records-2026-08.json"));
    assert!(!is_shard("jsonl"));
    assert_eq!(
        record_lines("{a}\n\n  \n{b}\r\n"),
        vec![(1, text("{a}")), (4, text("{b}"))]
    );
}

fn delta(base: Option<u64>, last: Option<u64>, flag_pct: Option<u64>) -> Delta {
    Delta {
        metric: text("m"),
        base,
        last,
        flag_pct,
        action: "a",
    }
}

#[test]
fn deltas_are_flagged_beyond_their_threshold() {
    assert!(is_flagged(&delta(None, Some(1), Some(1))));
    assert!(is_flagged(&delta(Some(1), None, Some(1))));
    assert!(!is_flagged(&delta(Some(0), Some(0), Some(1))));
    assert!(is_flagged(&delta(Some(0), Some(1), Some(1))));
    assert!(!is_flagged(&delta(Some(100), Some(101), Some(1))));
    assert!(is_flagged(&delta(Some(100), Some(102), Some(1))));
    assert!(is_flagged(&delta(Some(100), Some(98), Some(1))));
    assert!(is_flagged(&delta(Some(100), Some(101), Some(0))));
    assert!(is_flagged(&delta(Some(100), Some(101), None)));
    assert!(!is_flagged(&delta(Some(100), Some(100), None)));
}

#[test]
fn changes_print_as_percentages() {
    assert_eq!(delta_pct(&delta(None, Some(1), None), ""), "new/removed");
    assert_eq!(delta_pct(&delta(Some(0), Some(0), None), ""), "0%");
    assert_eq!(delta_pct(&delta(Some(0), Some(4), None), ""), "new");
    assert_eq!(delta_pct(&delta(Some(5), Some(6), None), "+20.0"), "+20.0%");
}

#[test]
fn deltas_pair_every_metric() {
    let mut base = fixture_record(1_000, 10, 10);
    let mut last = fixture_record(2_000, 20, 20);
    last.artifacts.push((text("bw-new"), 5));
    let frame = |p50: u64| {
        (
            text("s"),
            rec::FrameMeasurement {
                frame_ms_min: 0,
                frame_ms_p50: 0,
                frame_ms_p90: 0,
                frame_ms_p99: 0,
                frame_ms_max: 0,
                shown_p50: String::new(),
                shown_p99: String::new(),
                p50_micros: p50,
                p99_micros: 2 * p50,
                entities: 1,
                ticks: 1,
                interactions: 1,
            },
        )
    };
    base.runtime.push(frame(100));
    last.runtime.push(frame(150));
    base.memory.push((
        text("s"),
        rec::AllocMeasurement {
            allocs: 3,
            peak_bytes: 30,
        },
    ));
    let rows: Vec<(String, Option<u64>, Option<u64>, Option<u64>)> = collect_deltas(&base, &last)
        .into_iter()
        .map(|d| (d.metric, d.base, d.last, d.flag_pct))
        .collect();
    let want = [
        ("artifact bw-demo bytes", Some(10), Some(20), Some(0)),
        ("artifact bw-new bytes", None, Some(5), Some(0)),
        ("deps external (normal)", Some(78), Some(78), Some(0)),
        (
            "bench iai_sim::sim::step step_1000:s() instructions",
            Some(10),
            Some(20),
            Some(1),
        ),
        ("runtime s frame_ms p50 (×1000)", Some(100), Some(150), Some(10)),
        ("runtime s frame_ms p99 (×1000)", Some(200), Some(300), Some(10)),
        ("memory s total allocs", Some(3), None, Some(0)),
        ("memory s peak bytes", Some(30), None, Some(2)),
    ];
    assert_eq!(rows.len(), want.len());
    for (row, want) in rows.iter().zip(want) {
        assert_eq!((row.0.as_str(), row.1, row.2, row.3), want);
    }
}

#[test]
fn commands_are_dispatched() {
    assert!(matches!(dispatch(&vec![]), Ok(Command::Usage)));
    assert!(matches!(dispatch(&texts(&["perf"])), Ok(Command::Usage)));
    assert!(matches!(
        dispatch(&texts(&["build", "measure"])),
        Ok(Command::Usage)
    ));
    assert!(matches!(
        dispatch(&texts(&["perf", "guess"])),
        Ok(Command::Usage)
    ));
    let Ok(Command::Measure {
        profile,
        out,
        runner,
    }) = dispatch(&texts(&["perf", "measure", "--out", "a", "--out", "b"]))
    else {
        panic!("a measurement was asked for");
    };
    assert_eq!((profile.as_str(), out, runner), ("size", Some(text("b")), None));
    let Ok(Command::Check { budgets, profile }) =
        dispatch(&texts(&["perf", "check", "--profile", "runtime"]))
    else {
        panic!("a check was asked for");
    };
    assert_eq!((budgets, profile.as_str()), (None, "runtime"));
    let Ok(Command::Report { records, since }) =
        dispatch(&texts(&["perf", "report", "--since", "7d"]))
    else {
        panic!("a report was asked for");
    };
    assert_eq!((records, since), (None, Some(text("7d"))));
    let refused = |args: &[&str]| match dispatch(&texts(args)) {
        Err(e) => e,
        Ok(_) => panic!("{args:?} should be refused"),
    };
    assert_eq!(
        refused(&["perf", "check", "--out", "x"]),
        "unknown flag --out; expected one of: --budgets, --profile"
    );
    assert_eq!(
        refused(&["perf", "measure", "--runner"]),
        "flag --runner requires a value"
    );
}

#[test]
fn flags_pair_up() {
    let allowed = texts(&["--a", "--b"]);
    let pairs = parse_flags(&texts(&["skip", "--a", "1", "--b", "2", "--a", "3"]), 1, &allowed)
        .unwrap_or_default();
    assert_eq!(flag(&pairs, "--a"), Some(text("3")), "the last value counts");
    assert_eq!(flag(&pairs, "--b"), Some(text("2")));
    assert_eq!(flag(&pairs, "--c"), None);
}

#[test]
fn environments_are_read() {
    assert_eq!(
        host_triple("rustc 1.95.0\nbinary: rustc\nhost: x86_64-unknown-linux-gnu\n"),
        Some(text("x86_64-unknown-linux-gnu"))
    );
    assert_eq!(host_triple("rustc 1.95.0\n"), None);
    assert_eq!(
        cpu_model("vendor_id : x\nmodel name\t: Test CPU @ 3 GHz \nmodel name : other\n"),
        "Test CPU @ 3 GHz"
    );
    assert_eq!(cpu_model("processor : 0\n"), "unknown");
    assert_eq!(or_unknown(None), "unknown");
    assert_eq!(or_unknown(Some(text("x"))), "x");
    let g = git_info(Some(text("026c703")), None, Some(String::new()), None);
    assert_eq!(
        (g.sha.as_str(), g.branch.as_str(), g.dirty, g.commit_time.as_str()),
        ("026c703", "unknown", false, "unknown")
    );
    assert!(git_info(None, None, Some(text(" M x")), None).dirty);
    assert!(git_info(None, None, None, None).dirty, "no answer is dirty");
}

#[test]
fn members_and_binaries_are_chosen() {
    assert_eq!(
        default_members(&texts(&["bw-core", "xtask", "bw-demo"])),
        texts(&["bw-core", "bw-demo"])
    );
    let target = |name: &str, kinds: &[&str]| Target {
        name: text(name),
        kind: texts(kinds),
    };
    let packages = vec![
        Package {
            name: text("bw-demo"),
            targets: vec![
                target("bw-demo", &["bin"]),
                target("bench", &["bench"]),
                target("both", &["lib", "bin"]),
            ],
        },
        Package {
            name: text("xtask"),
            targets: vec![target("xtask", &["bin"])],
        },
    ];
    assert_eq!(
        measure_artifacts(&packages, &texts(&["bw-demo"])),
        texts(&["bw-demo", "both"])
    );
}

#[test]
fn tools_are_called_with_their_arguments() {
    let members = texts(&["bw-core", "bw-demo"]);
    assert_eq!(
        build_args("size", &members),
        texts(&["build", "--profile=size", "-p", "bw-core", "-p", "bw-demo"])
    );
    assert_eq!(
        building_note("size", &members),
        "building bw-core, bw-demo under profile size…"
    );
    assert_eq!(
        tree_args("bw-core"),
        texts(&["tree", "-pbw-core", "-e", "normal", "--prefix", "none"])
    );
}

#[test]
fn measurements_become_records() {
    let found = |host: Option<String>| Measured {
        unix_time: 7,
        runner: text("local"),
        git: git_info(None, None, None, None),
        env: rec::Env {
            rustc: text("rustc 1"),
            host: text("h"),
            cpu: text("c"),
            cores: 8,
            kernel: text("k"),
        },
        profile: text("size"),
        host,
        artifacts: vec![(text("bw-demo"), 390_104)],
        external: 12,
        duplicates: vec![(text("syn"), texts(&["1", "2"]))],
    };
    let r = record_of(found(Some(text("x86_64"))));
    assert_eq!((r.schema, r.unix_time, r.runner.as_str()), (1, 7, "local"));
    assert_eq!(r.config.target, "x86_64");
    assert_eq!(r.config.profile, "size");
    assert!(r.config.features.is_empty());
    assert_eq!(r.artifacts, vec![(text("bw-demo"), 390_104)]);
    assert_eq!(r.deps.external_normal, 12);
    assert_eq!(r.deps.duplicates, vec![(text("syn"), texts(&["1", "2"]))]);
    assert!(r.wasm.is_empty() && r.benches.is_empty());
    assert!(r.runtime.is_empty() && r.memory.is_empty());
    assert_eq!(r.skipped, phase0_skips());
    assert!(r.git.dirty);
    assert_eq!(record_of(found(None)).config.target, "unknown");
}

#[test]
fn skips_are_recorded_with_reasons() {
    let metrics: Vec<String> = phase0_skips().into_iter().map(|s| s.metric).collect();
    assert_eq!(
        metrics,
        texts(&[
            "wasm32 check",
            "benches (iai/criterion)",
            "frame-time/runtime",
            "memory",
            "clean compile time",
        ])
    );
}

#[test]
fn tables_find_and_join() {
    let entries = vec![(text("a"), 1), (text("b"), 2), (text("a"), 3)];
    assert_eq!(find(&entries, "a"), Some(0));
    assert_eq!(find(&entries, "b"), Some(1));
    assert_eq!(find(&entries, "c"), None);
    assert!(contains(&texts(&["x", "y"]), "y"));
    assert!(!contains(&texts(&["x", "y"]), "z"));
    assert_eq!(join(&texts(&["x", "y", "z"]), ", "), "x, y, z");
    assert_eq!(join(&vec![], ", "), "");
}

#[test]
fn numbers_print() {
    assert_eq!(decimal(0), "0");
    assert_eq!(decimal(u64::MAX), "18446744073709551615");
    assert_eq!(hex16(0xAB), "00000000000000ab");
    assert_eq!(truncate_sha("0123456789"), "0123456");
    assert_eq!(truncate_sha("012"), "012");
    assert_eq!(gap(10, 4), 6);
    assert_eq!(gap(4, 10), 6);
}

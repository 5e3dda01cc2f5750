//! Measurement and budget enforcement: which command the arguments ask
//! for, how dependency listings and tool outputs are read, and what a
//! budget check reports.
use vstd::prelude::*;
use vstd::string::*;
use crate::budgets::{compare, Budgets, Finding, Level};
use crate::chars::{cut, position, split_lines, trimmed};
use crate::doc::Doc;
use crate::record::{Config, Deps, Env, Git, Record, Skip};
use crate::table::{contains, join};
use crate::text::{chars_of, same, string_of};

verus! {

use crate::budgets::{comparison, shown, Shown};
use crate::chars::{first_of, lines, trim, views};
use crate::doc::joined;
use crate::table::{interleaved, listed, names_ascend, texts};
use crate::text::dec;

// ---------------------------------------------------------------------------
// Arguments
// ---------------------------------------------------------------------------

/// Why an argument list is refused.
pub open spec fn unknown_flag(flag: Seq<char>, allowed: Seq<String>) -> Seq<char> {
    joined(seq!["unknown flag "@, flag, "; expected one of: "@, interleaved(texts(allowed), ", "@)])
}

/// Why a flag at the end of an argument list is refused.
pub open spec fn missing_value(flag: Seq<char>) -> Seq<char> {
    joined(seq!["flag "@, flag, " requires a value"@])
}

/// The flag-value pairs of an argument list, or the first problem in it.
pub open spec fn flag_pairs(args: Seq<Seq<char>>, allowed: Seq<String>) -> Result<
    Seq<(Seq<char>, Seq<char>)>,
    Seq<char>,
>
    decreases args.len(),
{
    if args.len() == 0 {
        Ok(Seq::empty())
    } else if !listed(allowed, args[0]) {
        Err(unknown_flag(args[0], allowed))
    } else if args.len() == 1 {
        Err(missing_value(args[0]))
    } else {
        match flag_pairs(args.skip(2), allowed) {
            Ok(rest) => Ok(seq![(args[0], args[1])] + rest),
            Err(e) => Err(e),
        }
    }
}

/// Flag-value pairs as texts.
pub open spec fn pair_texts(pairs: Seq<(String, String)>) -> Seq<(Seq<char>, Seq<char>)> {
    pairs.map_values(|p: (String, String)| (p.0@, p.1@))
}

/// The value of a flag: the last one given wins.
pub open spec fn flag_value(pairs: Seq<(Seq<char>, Seq<char>)>, flag: Seq<char>) -> Option<Seq<char>>
    decreases pairs.len(),
{
    if pairs.len() == 0 {
        None
    } else if pairs.last().0 == flag {
        Some(pairs.last().1)
    } else {
        flag_value(pairs.drop_last(), flag)
    }
}

/// Read flag-value pairs, refusing flags that are not allowed and flags
/// without a value.
pub fn parse_flags(args: &Vec<String>, from: usize, allowed: &Vec<String>) -> (r: Result<
    Vec<(String, String)>,
    String,
>)
    requires
        from <= args@.len(),
    ensures
        match r {
            Ok(v) => flag_pairs(texts(args@).skip(from as int), allowed@) == Ok::<
                Seq<(Seq<char>, Seq<char>)>,
                Seq<char>,
            >(pair_texts(v@)),
            Err(e) => flag_pairs(texts(args@).skip(from as int), allowed@) == Err::<
                Seq<(Seq<char>, Seq<char>)>,
                Seq<char>,
            >(e@),
        },
{
    let mut out: Vec<(String, String)> = Vec::new();
    let ghost all = texts(args@);
    let ghost whole = flag_pairs(all.skip(from as int), allowed@);
    let mut i: usize = from;
    while i < args.len()
        invariant
            from <= i <= args@.len(),
            all == texts(args@),
            whole == flag_pairs(all.skip(from as int), allowed@),
            match flag_pairs(all.skip(i as int), allowed@) {
                Ok(rest) => whole == Ok::<Seq<(Seq<char>, Seq<char>)>, Seq<char>>(
                    pair_texts(out@) + rest,
                ),
                Err(e) => whole == Err::<Seq<(Seq<char>, Seq<char>)>, Seq<char>>(e),
            },
        decreases args@.len() - i,
    {
        let flag = args[i].as_str();
        let ghost rest = all.skip(i as int);
        proof {
            assert(rest[0] == flag@);
        }
        if !contains(allowed, flag) {
            let names = join(allowed, ", ");
            let mut d = Doc::new();
            d.put("unknown flag ");
            d.put(flag);
            d.put("; expected one of: ");
            d.put(names.as_str());
            proof {
                assert(d@ =~= seq![
                    "unknown flag "@,
                    flag@,
                    "; expected one of: "@,
                    interleaved(texts(allowed@), ", "@),
                ]);
            }
            return Err(d.finish());
        }
        if args.len() - i == 1 {
            let mut d = Doc::new();
            d.put("flag ");
            d.put(flag);
            d.put(" requires a value");
            proof {
                assert(d@ =~= seq!["flag "@, flag@, " requires a value"@]);
            }
            return Err(d.finish());
        }
        let name = args[i].as_str().to_owned();
        let value = args[i + 1].as_str().to_owned();
        let ghost before = pair_texts(out@);
        out.push((name, value));
        proof {
            assert(rest[1] == value@);
            assert(rest.skip(2) =~= all.skip(i + 2));
            assert(pair_texts(out@) =~= before.push((name@, value@)));
            match flag_pairs(all.skip(i + 2), allowed@) {
                Ok(tail) => {
                    assert(before + (seq![(name@, value@)] + tail) =~= pair_texts(out@) + tail);
                },
                Err(e) => {},
            }
        }
        i = i + 2;
    }
    proof {
        assert(all.skip(i as int) =~= Seq::<Seq<char>>::empty());
        assert(pair_texts(out@) + Seq::<(Seq<char>, Seq<char>)>::empty() =~= pair_texts(out@));
    }
    Ok(out)
}

/// The last value given for a flag.
pub fn flag(pairs: &Vec<(String, String)>, name: &str) -> (r: Option<String>)
    ensures
        match r {
            Some(v) => flag_value(pair_texts(pairs@), name@) == Some(v@),
            None => flag_value(pair_texts(pairs@), name@) is None,
        },
{
    let mut n: usize = pairs.len();
    let ghost all = pair_texts(pairs@);
    proof {
        assert(all.take(n as int) =~= all);
    }
    while n > 0
        invariant
            n <= pairs@.len(),
            all == pair_texts(pairs@),
            flag_value(all, name@) == flag_value(all.take(n as int), name@),
        decreases n,
    {
        proof {
            assert(all.take(n as int).drop_last() =~= all.take(n - 1));
            assert(all.take(n as int).last() == (pairs@[n - 1].0@, pairs@[n - 1].1@));
        }
        if same(pairs[n - 1].0.as_str(), name) {
            return Some(pairs[n - 1].1.as_str().to_owned());
        }
        n = n - 1;
    }
    proof {
        assert(all.take(0) =~= Seq::<(Seq<char>, Seq<char>)>::empty());
    }
    None
}

/// What the arguments ask for.
pub enum Command {
    /// Print the usage and exit with code 2.
    Usage,
    /// Measure under a profile and write the record.
    Measure { profile: String, out: Option<String>, runner: Option<String> },
    /// Measure and compare against the budgets.
    Check { budgets: Option<String>, profile: String },
    /// Render the trend report over recorded measurements.
    Report { records: Option<String>, since: Option<String> },
}

/// An optional text.
pub open spec fn opt_text(s: Option<String>) -> Option<Seq<char>> {
    match s {
        Some(v) => Some(v@),
        None => None,
    }
}

/// A flag's value, or a default.
pub open spec fn value_or(pairs: Seq<(Seq<char>, Seq<char>)>, flag: Seq<char>, default: Seq<char>) -> Seq<
    char,
> {
    match flag_value(pairs, flag) {
        Some(v) => v,
        None => default,
    }
}

/// The command is what the arguments ask for.
pub open spec fn dispatches(args: Seq<Seq<char>>, r: Result<Command, String>) -> bool {
    if args.len() < 2 || args[0] != "perf"@ {
        r matches Ok(Command::Usage)
    } else {
        let rest = args.skip(2);
        if args[1] == "measure"@ {
            flags_ask(
                rest,
                seq!["--profile"@, "--out"@, "--runner"@],
                r,
                |p: Seq<(Seq<char>, Seq<char>)>, c: Command|
                    c matches Command::Measure { profile, out, runner } && profile@ == value_or(
                        p,
                        "--profile"@,
                        "size"@,
                    ) && opt_text(out) == flag_value(p, "--out"@) && opt_text(runner) == flag_value(
                        p,
                        "--runner"@,
                    ),
            )
        } else if args[1] == "check"@ {
            flags_ask(
                rest,
                seq!["--budgets"@, "--profile"@],
                r,
                |p: Seq<(Seq<char>, Seq<char>)>, c: Command|
                    c matches Command::Check { budgets, profile } && profile@ == value_or(
                        p,
                        "--profile"@,
                        "size"@,
                    ) && opt_text(budgets) == flag_value(p, "--budgets"@),
            )
        } else if args[1] == "report"@ {
            flags_ask(
                rest,
                seq!["--records"@, "--since"@],
                r,
                |p: Seq<(Seq<char>, Seq<char>)>, c: Command|
                    c matches Command::Report { records, since } && opt_text(records) == flag_value(
                        p,
                        "--records"@,
                    ) && opt_text(since) == flag_value(p, "--since"@),
            )
        } else {
            r matches Ok(Command::Usage)
        }
    }
}

/// The arguments are read against the allowed flags: a problem is the
/// result, else the command fits the pairs.
pub open spec fn flags_ask(
    args: Seq<Seq<char>>,
    allowed: Seq<Seq<char>>,
    r: Result<Command, String>,
    fits: spec_fn(Seq<(Seq<char>, Seq<char>)>, Command) -> bool,
) -> bool {
    exists|names: Seq<String>|
        #![trigger flag_pairs(args, names)]
        texts(names) == allowed && match flag_pairs(args, names) {
            Ok(p) => r matches Ok(c) && fits(p, c),
            Err(e) => r matches Err(t) && t@ == e,
        }
}

/// Decide what the command line asks for.
pub fn dispatch(args: &Vec<String>) -> (r: Result<Command, String>)
    ensures
        dispatches(texts(args@), r),
{
    let ghost all = texts(args@);
    if args.len() < 2 || !same(args[0].as_str(), "perf") {
        return Ok(Command::Usage);
    }
    let cmd = args[1].as_str();
    proof {
        assert(all[1] == cmd@);
        assert(all[0] == args@[0]@);
    }
    if same(cmd, "measure") {
        let allowed: Vec<String> = vec![
            "--profile".to_owned(),
            "--out".to_owned(),
            "--runner".to_owned(),
        ];
        proof {
            assert(texts(allowed@) =~= seq!["--profile"@, "--out"@, "--runner"@]);
        }
        match parse_flags(args, 2, &allowed) {
            Ok(pairs) => {
                let profile = match flag(&pairs, "--profile") {
                    Some(p) => p,
                    None => "size".to_owned(),
                };
                let out = flag(&pairs, "--out");
                let runner = flag(&pairs, "--runner");
                Ok(Command::Measure { profile, out, runner })
            },
            Err(e) => Err(e),
        }
    } else if same(cmd, "check") {
        let allowed: Vec<String> = vec!["--budgets".to_owned(), "--profile".to_owned()];
        proof {
            assert(texts(allowed@) =~= seq!["--budgets"@, "--profile"@]);
        }
        match parse_flags(args, 2, &allowed) {
            Ok(pairs) => {
                let profile = match flag(&pairs, "--profile") {
                    Some(p) => p,
                    None => "size".to_owned(),
                };
                let budgets = flag(&pairs, "--budgets");
                Ok(Command::Check { budgets, profile })
            },
            Err(e) => Err(e),
        }
    } else if same(cmd, "report") {
        let allowed: Vec<String> = vec!["--records".to_owned(), "--since".to_owned()];
        proof {
            assert(texts(allowed@) =~= seq!["--records"@, "--since"@]);
        }
        match parse_flags(args, 2, &allowed) {
            Ok(pairs) => {
                let records = flag(&pairs, "--records");
                let since = flag(&pairs, "--since");
                Ok(Command::Report { records, since })
            },
            Err(e) => Err(e),
        }
    } else {
        Ok(Command::Usage)
    }
}

// ---------------------------------------------------------------------------
// Reading tool outputs
// ---------------------------------------------------------------------------

/// The text after the first `sep`, when there is one.
pub open spec fn after(line: Seq<char>, sep: char) -> Option<Seq<char>> {
    let i = first_of(line, sep);
    if i < line.len() {
        Some(line.skip(i + 1))
    } else {
        None
    }
}

/// The host that a line of the compiler's version output names.
pub open spec fn host_of_line(line: Seq<char>) -> Option<Seq<char>> {
    match after(line, ':') {
        Some(value) => if trim(line.take(first_of(line, ':'))) == "host"@ {
            Some(trim(value))
        } else {
            None
        },
        None => None,
    }
}

/// The first host that the lines name.
pub open spec fn host_of(all: Seq<Seq<char>>) -> Option<Seq<char>>
    decreases all.len(),
{
    if all.len() == 0 {
        None
    } else {
        match host_of_line(all[0]) {
            Some(h) => Some(h),
            None => host_of(all.drop_first()),
        }
    }
}

/// The processor that a line names.
pub open spec fn cpu_of_line(line: Seq<char>) -> Option<Seq<char>> {
    if "model name"@.is_prefix_of(line) {
        match after(line, ':') {
            Some(value) => Some(trim(value)),
            None => None,
        }
    } else {
        None
    }
}

/// The first processor that the lines name, else `unknown`.
pub open spec fn cpu_of(all: Seq<Seq<char>>) -> Seq<char>
    decreases all.len(),
{
    if all.len() == 0 {
        "unknown"@
    } else {
        match cpu_of_line(all[0]) {
            Some(c) => c,
            None => cpu_of(all.drop_first()),
        }
    }
}

/// The text after the first `sep`, without surrounding white space, and
/// the text before it likewise.
fn split_trimmed(line: &Vec<char>, sep: char) -> (r: Option<(Vec<char>, Vec<char>)>)
    ensures
        match r {
            Some(kv) => {
                &&& after(line@, sep) is Some
                &&& kv.0@ == trim(line@.take(first_of(line@, sep)))
                &&& kv.1@ == trim(after(line@, sep)->0)
            },
            None => after(line@, sep) is None,
        },
{
    let i: usize = position(line, sep);
    if i < line.len() {
        let key = cut(line, 0, i);
        let value = cut(line, i + 1, line.len());
        proof {
            assert(key@ =~= line@.take(i as int));
            assert(value@ =~= line@.skip(i + 1));
        }
        Some((trimmed(&key), trimmed(&value)))
    } else {
        None
    }
}

/// A run of characters as a string.
fn text(v: &Vec<char>) -> (r: String)
    ensures
        r@ == v@,
{
    let r = string_of(v.as_slice(), 0, v.len());
    proof {
        assert(v@.subrange(0, v@.len() as int) =~= v@);
    }
    r
}

/// The host triple out of the compiler's version output.
pub fn host_triple(version: &str) -> (r: Option<String>)
    ensures
        opt_text(r) == host_of(lines(version@)),
{
    let v = chars_of(version);
    let all = split_lines(&v);
    let ghost ls = lines(version@);
    let mut i: usize = 0;
    proof {
        assert(ls.skip(0) =~= ls);
        assert(views(all@).len() == all@.len());
    }
    while i < all.len()
        invariant
            i <= all@.len(),
            ls == views(all@),
            ls == lines(version@),
            host_of(ls) == host_of(ls.skip(i as int)),
        decreases all@.len() - i,
    {
        proof {
            assert(ls.skip(i as int)[0] == all@[i as int]@);
            assert(ls.skip(i as int).drop_first() =~= ls.skip(i + 1));
        }
        match split_trimmed(&all[i], ':') {
            Some(kv) => {
                let key = text(&kv.0);
                if same(key.as_str(), "host") {
                    return Some(text(&kv.1));
                }
            },
            None => {},
        }
        i = i + 1;
    }
    None
}

/// Whether a text starts with another.
fn starts_with(v: &Vec<char>, prefix: &Vec<char>) -> (r: bool)
    ensures
        r == prefix@.is_prefix_of(v@),
{
    if v.len() < prefix.len() {
        return false;
    }
    let mut i: usize = 0;
    while i < prefix.len()
        invariant
            i <= prefix@.len() <= v@.len(),
            forall|j: int| 0 <= j < i ==> #[trigger] prefix@[j] == v@[j],
        decreases prefix@.len() - i,
    {
        if v[i] != prefix[i] {
            proof {
                assert(prefix@[i as int] != v@.subrange(0, prefix@.len() as int)[i as int]);
            }
            return false;
        }
        i = i + 1;
    }
    proof {
        assert(prefix@ =~= v@.subrange(0, prefix@.len() as int));
    }
    true
}

/// The processor name out of `/proc/cpuinfo`.
pub fn cpu_model(info: &str) -> (r: String)
    ensures
        r@ == cpu_of(lines(info@)),
{
    let v = chars_of(info);
    let all = split_lines(&v);
    let prefix = chars_of("model name");
    let ghost ls = lines(info@);
    let mut i: usize = 0;
    proof {
        assert(ls.skip(0) =~= ls);
        assert(views(all@).len() == all@.len());
    }
    while i < all.len()
        invariant
            i <= all@.len(),
            ls == views(all@),
            ls == lines(info@),
            prefix@ == "model name"@,
            cpu_of(ls) == cpu_of(ls.skip(i as int)),
        decreases all@.len() - i,
    {
        proof {
            assert(ls.skip(i as int)[0] == all@[i as int]@);
            assert(ls.skip(i as int).drop_first() =~= ls.skip(i + 1));
        }
        if starts_with(&all[i], &prefix) {
            match split_trimmed(&all[i], ':') {
                Some(kv) => {
                    return text(&kv.1);
                },
                None => {},
            }
        }
        i = i + 1;
    }
    "unknown".to_owned()
}

/// A tool's answer, or `unknown`.
pub fn or_unknown(answer: Option<String>) -> (r: String)
    ensures
        r@ == match answer {
            Some(s) => s@,
            None => "unknown"@,
        },
{
    match answer {
        Some(s) => s,
        None => "unknown".to_owned(),
    }
}

/// The measured commit, from what git answered: a missing answer reads
/// `unknown`, and a missing status counts as dirty.
pub fn git_info(
    sha: Option<String>,
    branch: Option<String>,
    status: Option<String>,
    commit_time: Option<String>,
) -> (g: Git)
    ensures
        g.sha@ == (match sha {
            Some(s) => s@,
            None => "unknown"@,
        }),
        g.branch@ == (match branch {
            Some(s) => s@,
            None => "unknown"@,
        }),
        g.dirty == (match status {
            Some(s) => s@.len() > 0,
            None => true,
        }),
        g.commit_time@ == (match commit_time {
            Some(s) => s@,
            None => "unknown"@,
        }),
{
    let dirty = match status {
        Some(s) => !s.as_str().is_empty(),
        None => true,
    };
    Git {
        sha: or_unknown(sha),
        branch: or_unknown(branch),
        dirty,
        commit_time: or_unknown(commit_time),
    }
}

/// The members to measure when no budgets name them: all but the
/// tooling.
pub open spec fn without_tooling(names: Seq<Seq<char>>) -> Seq<Seq<char>>
    decreases names.len(),
{
    if names.len() == 0 {
        Seq::empty()
    } else if names.last() == "xtask"@ {
        without_tooling(names.drop_last())
    } else {
        without_tooling(names.drop_last()).push(names.last())
    }
}

/// The members to measure when no budgets name them.
pub fn default_members(names: &Vec<String>) -> (r: Vec<String>)
    ensures
        texts(r@) == without_tooling(texts(names@)),
{
    let mut out: Vec<String> = Vec::new();
    let ghost all = texts(names@);
    let mut i: usize = 0;
    proof {
        assert(all.take(0) =~= Seq::<Seq<char>>::empty());
        assert(texts(out@) =~= Seq::<Seq<char>>::empty());
    }
    while i < names.len()
        invariant
            i <= names@.len(),
            all == texts(names@),
            texts(out@) == without_tooling(all.take(i as int)),
        decreases names@.len() - i,
    {
        proof {
            assert(all.take(i + 1).drop_last() =~= all.take(i as int));
            assert(all.take(i + 1).last() == names@[i as int]@);
        }
        if !same(names[i].as_str(), "xtask") {
            let name = names[i].as_str().to_owned();
            let ghost before = out@;
            out.push(name);
            proof {
                assert(texts(out@) =~= texts(before).push(name@));
            }
        }
        i = i + 1;
    }
    proof {
        assert(all.take(i as int) =~= all);
    }
    out
}

/// A build target: its name and what kinds it is.
pub struct Target {
    pub name: String,
    pub kind: Vec<String>,
}

/// A workspace package and its build targets.
pub struct Package {
    pub name: String,
    pub targets: Vec<Target>,
}

/// The binaries among the first `n` targets.
pub open spec fn binaries(targets: Seq<Target>, n: int) -> Seq<Seq<char>>
    decreases n,
{
    if n <= 0 {
        Seq::empty()
    } else if listed(targets[n - 1].kind@, "bin"@) {
        binaries(targets, n - 1).push(targets[n - 1].name@)
    } else {
        binaries(targets, n - 1)
    }
}

/// The binaries of the measured packages among the first `n`.
pub open spec fn measured_binaries(packages: Seq<Package>, members: Seq<String>, n: int) -> Seq<
    Seq<char>,
>
    decreases n,
{
    if n <= 0 {
        Seq::empty()
    } else {
        let front = measured_binaries(packages, members, n - 1);
        let p = packages[n - 1];
        if listed(members, p.name@) {
            front + binaries(p.targets@, p.targets@.len() as int)
        } else {
            front
        }
    }
}

/// The artifacts whose sizes are measured: the binaries of the measured
/// packages.
pub fn measure_artifacts(packages: &Vec<Package>, members: &Vec<String>) -> (r: Vec<String>)
    ensures
        texts(r@) == measured_binaries(packages@, members@, packages@.len() as int),
{
    let mut out: Vec<String> = Vec::new();
    let mut i: usize = 0;
    proof {
        assert(texts(out@) =~= Seq::<Seq<char>>::empty());
    }
    while i < packages.len()
        invariant
            i <= packages@.len(),
            texts(out@) == measured_binaries(packages@, members@, i as int),
        decreases packages@.len() - i,
    {
        if contains(members, packages[i].name.as_str()) {
            let ghost front = texts(out@);
            let ghost targets = packages@[i as int].targets@;
            let mut k: usize = 0;
            proof {
                assert(texts(out@) =~= front + binaries(targets, 0));
            }
            while k < packages[i].targets.len()
                invariant
                    i < packages@.len(),
                    targets == packages@[i as int].targets@,
                    k <= targets.len(),
                    texts(out@) == front + binaries(targets, k as int),
                decreases targets.len() - k,
            {
                if contains(&packages[i].targets[k].kind, "bin") {
                    let name = packages[i].targets[k].name.as_str().to_owned();
                    let ghost before = out@;
                    out.push(name);
                    proof {
                        assert(texts(out@) =~= texts(before).push(name@));
                        assert(front + binaries(targets, k + 1) =~= (front + binaries(
                            targets,
                            k as int,
                        )).push(name@));
                    }
                }
                k = k + 1;
            }
        }
        i = i + 1;
    }
    out
}

/// Skips as texts.
pub open spec fn skip_texts(skips: Seq<Skip>) -> Seq<(Seq<char>, Seq<char>)> {
    skips.map_values(|s: Skip| (s.metric@, s.reason@))
}

/// A skip.
fn skip(metric: &str, reason: &str) -> (s: Skip)
    ensures
        s.metric@ == metric@,
        s.reason@ == reason@,
{
    Skip { metric: metric.to_owned(), reason: reason.to_owned() }
}

/// What is deliberately not measured, each with its reason.
pub open spec fn skipped_metrics() -> Seq<(Seq<char>, Seq<char>)> {
    seq![
        (
            "wasm32 check"@,
            "no wasm target in scope until the first Bevy dependency (ADR 0001 Phase 1)"@,
        ),
        ("benches (iai/criterion)"@, "no benches defined yet (ADR 0001 Phase 2)"@),
        ("frame-time/runtime"@, "no headless scenes yet (ADR 0001 Phase 2)"@),
        ("memory"@, "no headless scenes yet (ADR 0001 Phase 2)"@),
        (
            "clean compile time"@,
            "advisory nightly metric (ADR 0001 Phase 3); not measured on PRs"@,
        ),
    ]
}

/// Metrics deliberately not measured, each with its reason, so nothing
/// is silently missing from a record.
pub fn phase0_skips() -> (r: Vec<Skip>)
    ensures
        skip_texts(r@) == skipped_metrics(),
{
    let r: Vec<Skip> = vec![
        skip(
            "wasm32 check",
            "no wasm target in scope until the first Bevy dependency (ADR 0001 Phase 1)",
        ),
        skip("benches (iai/criterion)", "no benches defined yet (ADR 0001 Phase 2)"),
        skip("frame-time/runtime", "no headless scenes yet (ADR 0001 Phase 2)"),
        skip("memory", "no headless scenes yet (ADR 0001 Phase 2)"),
        skip(
            "clean compile time",
            "advisory nightly metric (ADR 0001 Phase 3); not measured on PRs",
        ),
    ];
    proof {
        assert(skip_texts(r@).len() == 5);
        assert(skip_texts(r@) =~= skipped_metrics());
    }
    r
}

// ---------------------------------------------------------------------------
// Gathering
// ---------------------------------------------------------------------------

/// The arguments that name the first `n` members.
pub open spec fn member_args(members: Seq<Seq<char>>, n: int) -> Seq<Seq<char>>
    decreases n,
{
    if n <= 0 {
        Seq::empty()
    } else {
        member_args(members, n - 1).push("-p"@).push(members[n - 1])
    }
}

/// The build command's arguments: every measured member under a profile.
pub fn build_args(profile: &str, members: &Vec<String>) -> (r: Vec<String>)
    ensures
        texts(r@) == seq!["build"@, joined(seq!["--profile="@, profile@])] + member_args(
            texts(members@),
            members@.len() as int,
        ),
{
    let mut d = Doc::new();
    d.put("--profile=");
    d.put(profile);
    proof {
        assert(d@ =~= seq!["--profile="@, profile@]);
    }
    let ghost names = texts(members@);
    let ghost head = seq!["build"@, joined(seq!["--profile="@, profile@])];
    let mut out: Vec<String> = Vec::new();
    out.push("build".to_owned());
    out.push(d.finish());
    let mut i: usize = 0;
    proof {
        assert(texts(out@) =~= head + member_args(names, 0));
    }
    while i < members.len()
        invariant
            i <= members@.len(),
            names == texts(members@),
            texts(out@) == head + member_args(names, i as int),
        decreases members@.len() - i,
    {
        let ghost before = out@;
        out.push("-p".to_owned());
        out.push(members[i].as_str().to_owned());
        proof {
            assert(names[i as int] == members@[i as int]@);
            assert(texts(out@) =~= texts(before).push("-p"@).push(names[i as int]));
            assert(texts(out@) =~= head + member_args(names, i + 1));
        }
        i = i + 1;
    }
    out
}

/// What is said before a build.
pub fn building_note(profile: &str, members: &Vec<String>) -> (r: String)
    ensures
        r@ == joined(
            seq![
                "building "@,
                interleaved(texts(members@), ", "@),
                " under profile "@,
                profile@,
                "…"@,
            ],
        ),
{
    let names = join(members, ", ");
    let mut d = Doc::new();
    d.put("building ");
    d.put(names.as_str());
    d.put(" under profile ");
    d.put(profile);
    d.put("…");
    proof {
        assert(d@ =~= seq![
            "building "@,
            interleaved(texts(members@), ", "@),
            " under profile "@,
            profile@,
            "…"@,
        ]);
    }
    d.finish()
}

/// The dependency listing's arguments: one member's normal dependencies,
/// one package a line.
pub fn tree_args(member: &str) -> (r: Vec<String>)
    ensures
        texts(r@) == seq![
            "tree"@,
            joined(seq!["-p"@, member@]),
            "-e"@,
            "normal"@,
            "--prefix"@,
            "none"@,
        ],
{
    let mut d = Doc::new();
    d.put("-p");
    d.put(member);
    proof {
        assert(d@ =~= seq!["-p"@, member@]);
    }
    let r: Vec<String> = vec![
        "tree".to_owned(),
        d.finish(),
        "-e".to_owned(),
        "normal".to_owned(),
        "--prefix".to_owned(),
        "none".to_owned(),
    ];
    proof {
        assert(texts(r@) =~= seq![
            "tree"@,
            joined(seq!["-p"@, member@]),
            "-e"@,
            "normal"@,
            "--prefix"@,
            "none"@,
        ]);
    }
    r
}

/// What a measurement found: when, by whom, of which commit, on which
/// machine and build, and the sizes and dependencies.
pub struct Measured {
    pub unix_time: u64,
    pub runner: String,
    pub git: Git,
    pub env: Env,
    pub profile: String,
    /// The host triple, where the compiler named it.
    pub host: Option<String>,
    pub artifacts: Vec<(String, u64)>,
    pub external: u64,
    pub duplicates: Vec<(String, Vec<String>)>,
}

/// The record of a measurement: built for the host with the default
/// features, and what was not measured listed as skipped.
pub fn record_of(m: Measured) -> (r: Record)
    ensures
        r.schema == 1,
        r.unix_time == m.unix_time,
        r.runner == m.runner,
        r.git == m.git,
        r.env == m.env,
        r.config.profile == m.profile,
        r.config.features@.len() == 0,
        r.config.target@ == (match m.host {
            Some(s) => s@,
            None => "unknown"@,
        }),
        r.artifacts == m.artifacts,
        r.deps.external_normal == m.external,
        r.deps.duplicates == m.duplicates,
        r.wasm@.len() == 0,
        r.benches@.len() == 0,
        r.runtime@.len() == 0,
        r.memory@.len() == 0,
        skip_texts(r.skipped@) == skipped_metrics(),
        names_ascend(m.artifacts@) && names_ascend(m.duplicates@) ==> r.wf(),
{
    Record {
        schema: 1,
        unix_time: m.unix_time,
        runner: m.runner,
        git: m.git,
        env: m.env,
        config: Config { profile: m.profile, features: Vec::new(), target: or_unknown(m.host) },
        artifacts: m.artifacts,
        deps: Deps { external_normal: m.external, duplicates: m.duplicates },
        wasm: Vec::new(),
        benches: Vec::new(),
        runtime: Vec::new(),
        memory: Vec::new(),
        skipped: phase0_skips(),
    }
}

// ---------------------------------------------------------------------------
// Reporting a check
// ---------------------------------------------------------------------------

/// How many findings are of one level.
pub open spec fn count_level(findings: Seq<Shown>, level: Level) -> nat
    decreases findings.len(),
{
    if findings.len() == 0 {
        0
    } else {
        count_level(findings.drop_last(), level) + if findings.last().0 == level {
            1nat
        } else {
            0
        }
    }
}

/// The tag of a level, padded.
pub open spec fn tag(level: Level) -> Seq<char> {
    match level {
        Level::Pass => "OK    "@,
        Level::Warn => "WARN  "@,
        Level::Breach => "BREACH "@,
    }
}

/// The lines of findings.
pub open spec fn finding_lines(findings: Seq<Shown>) -> Seq<Seq<char>>
    decreases findings.len(),
{
    if findings.len() == 0 {
        Seq::empty()
    } else {
        finding_lines(findings.drop_last()) + seq![
            tag(findings.last().0),
            findings.last().1,
            "\n"@,
        ]
    }
}

/// The verdict line: pass without a breach, else fail.
pub open spec fn verdict_parts(findings: Seq<Shown>) -> Seq<Seq<char>> {
    let breaches = count_level(findings, Level::Breach);
    if breaches == 0 {
        seq![
            "PASS ("@,
            dec(findings.len()),
            " findings, "@,
            dec(count_level(findings, Level::Warn)),
            " warnings)\n"@,
        ]
    } else {
        seq!["FAIL ("@, dec(breaches), " breaches)\n"@]
    }
}

/// The printed report of a check.
pub open spec fn check_report(path: Seq<char>, b: Budgets, findings: Seq<Shown>) -> Seq<char> {
    joined(
        seq!["perf budgets: "@, path, " (reviewed "@, b.reviewed@, ")\n"@] + finding_lines(findings)
            + seq![
            "advisory: clean-check growth threshold "@,
            dec(b.advisory.build.check_clean_growth_pct as nat),
            "% (trend-only, never a gate)\n"@,
        ] + verdict_parts(findings),
    )
}

/// Count the findings of one level.
fn count(findings: &Vec<Finding>, level: Level) -> (r: u64)
    ensures
        r == count_level(shown(findings@), level),
{
    let mut n: u64 = 0;
    let ghost all = shown(findings@);
    let mut i: usize = 0;
    proof {
        assert(all.take(0) =~= Seq::<Shown>::empty());
    }
    while i < findings.len()
        invariant
            i <= findings@.len(),
            all == shown(findings@),
            n == count_level(all.take(i as int), level),
            n <= i,
        decreases findings@.len() - i,
    {
        proof {
            assert(all.take(i + 1).drop_last() =~= all.take(i as int));
            assert(all.take(i + 1).last() == all[i as int]);
        }
        if findings[i].level == level {
            n = n + 1;
        }
        i = i + 1;
    }
    proof {
        assert(all.take(i as int) =~= all);
    }
    n
}

/// Compare and report: the printed text, and the exit code (0 without a
/// breach, else 1).
pub fn report_findings(loaded: &Budgets, record: &Record, shares: &Vec<String>, path: &str) -> (r: (
    String,
    u8,
))
    requires
        shares@.len() == loaded.artifact@.len(),
    ensures
        r.0@ == check_report(path@, *loaded, comparison(*loaded, *record, shares@)),
        r.1 == if count_level(comparison(*loaded, *record, shares@), Level::Breach) == 0 {
            0u8
        } else {
            1u8
        },
{
    let findings = compare(loaded, record, shares);
    let ghost all = shown(findings@);
    let mut d = Doc::new();
    d.put("perf budgets: ");
    d.put(path);
    d.put(" (reviewed ");
    d.put(loaded.reviewed.as_str());
    d.put(")\n");
    let ghost head = seq!["perf budgets: "@, path@, " (reviewed "@, loaded.reviewed@, ")\n"@];
    proof {
        assert(all.take(0) =~= Seq::<Shown>::empty());
        assert(d@ =~= head + finding_lines(all.take(0)));
    }
    let mut i: usize = 0;
    while i < findings.len()
        invariant
            i <= findings@.len(),
            all == shown(findings@),
            d.wf(),
            d@ == head + finding_lines(all.take(i as int)),
        decreases findings@.len() - i,
    {
        let ghost before = d@;
        match findings[i].level {
            Level::Pass => d.put("OK    "),
            Level::Warn => d.put("WARN  "),
            Level::Breach => d.put("BREACH "),
        }
        d.put(findings[i].text.as_str());
        d.put("\n");
        proof {
            assert(all.take(i + 1).drop_last() =~= all.take(i as int));
            assert(all.take(i + 1).last() == all[i as int]);
            assert(d@ =~= head + finding_lines(all.take(i + 1)));
        }
        i = i + 1;
    }
    proof {
        assert(all.take(i as int) =~= all);
    }
    let ghost body = d@;
    d.put("advisory: clean-check growth threshold ");
    d.put_dec(loaded.advisory.build.check_clean_growth_pct as u64);
    d.put("% (trend-only, never a gate)\n");
    let ghost advice = seq![
        "advisory: clean-check growth threshold "@,
        dec(loaded.advisory.build.check_clean_growth_pct as nat),
        "% (trend-only, never a gate)\n"@,
    ];
    proof {
        assert(d@ =~= body + advice);
    }
    let ghost body2 = d@;
    let breaches: u64 = count(&findings, Level::Breach);
    let code: u8 = if breaches == 0 {
        let warns: u64 = count(&findings, Level::Warn);
        d.put("PASS (");
        d.put_dec(findings.len() as u64);
        d.put(" findings, ");
        d.put_dec(warns);
        d.put(" warnings)\n");
        proof {
            assert(all.len() == findings@.len());
        }
        0
    } else {
        d.put("FAIL (");
        d.put_dec(breaches);
        d.put(" breaches)\n");
        1
    };
    proof {
        assert(d@ =~= body2 + verdict_parts(all));
    }
    (d.finish(), code)
}

} // verus!

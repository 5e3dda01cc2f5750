//! What measuring and checking promise as a whole: how flags are read and
//! what a command takes from them, what is read out of the tools'
//! answers, what is measured, and what a check prints.
use vstd::prelude::*;

verus! {

use crate::budgets::{Budgets, Level, Shown};
use crate::chars::{first_of, lemma_first_of, trim};
use crate::doc::{holds, joined, lemma_joined_append, lemma_runs_are_held};
use crate::perf::{
    binaries, check_report, count_level, cpu_of, dispatches, finding_lines, flag_pairs, flag_value,
    host_of, measured_binaries, member_args, opt_text, verdict_parts, without_tooling, Command,
    Package, Target,
};
use crate::table::{interleaved, listed, texts};
use crate::text::dec;

// ---------------------------------------------------------------------------
// Flags
// ---------------------------------------------------------------------------

/// The flags before position `2 * n` of an argument list are allowed and
/// have values.
spec fn paired(args: Seq<Seq<char>>, allowed: Seq<String>, n: int) -> bool {
    &&& 2 * n <= args.len()
    &&& forall|k: int| 0 <= k < n ==> listed(allowed, #[trigger] args[2 * k])
}

proof fn lemma_pairs_start(args: Seq<Seq<char>>, allowed: Seq<String>, n: int)
    requires
        0 <= n,
        paired(args, allowed, n),
    ensures
        match flag_pairs(args.skip(2 * n), allowed) {
            Ok(rest) => flag_pairs(args, allowed) == Ok::<Seq<(Seq<char>, Seq<char>)>, Seq<char>>(
                Seq::new(n as nat, |k: int| (args[2 * k], args[2 * k + 1])) + rest,
            ),
            Err(e) => flag_pairs(args, allowed) == Err::<Seq<(Seq<char>, Seq<char>)>, Seq<char>>(e),
        },
    decreases n,
{
    if n == 0 {
        assert(args.skip(0) =~= args);
        match flag_pairs(args, allowed) {
            Ok(rest) => {
                assert(Seq::new(0nat, |k: int| (args[2 * k], args[2 * k + 1])) + rest =~= rest);
            },
            Err(e) => {},
        }
    } else {
        let m = n - 1;
        assert forall|k: int| 0 <= k < m implies listed(allowed, #[trigger] args[2 * k]) by {}
        lemma_pairs_start(args, allowed, m);
        let rest = args.skip(2 * m);
        assert(listed(allowed, args[2 * m]));
        assert(rest[0] == args[2 * m]);
        assert(rest[1] == args[2 * m + 1]);
        assert(rest.skip(2) =~= args.skip(2 * n));
        match flag_pairs(args.skip(2 * n), allowed) {
            Ok(tail) => {
                assert(Seq::new(m as nat, |k: int| (args[2 * k], args[2 * k + 1])) + (seq![
                    (args[2 * m], args[2 * m + 1]),
                ] + tail) =~= Seq::new(n as nat, |k: int| (args[2 * k], args[2 * k + 1])) + tail);
            },
            Err(e) => {},
        }
    }
}

/// Arguments that are all allowed flags with values are read as pairs, in
/// order.
pub proof fn lemma_flags_are_read_in_pairs(args: Seq<Seq<char>>, allowed: Seq<String>, n: int)
    requires
        0 <= n,
        args.len() == 2 * n,
        forall|k: int| 0 <= k < n ==> listed(allowed, #[trigger] args[2 * k]),
    ensures
        flag_pairs(args, allowed) matches Ok(p) && p == Seq::new(
            n as nat,
            |k: int| (args[2 * k], args[2 * k + 1]),
        ),
{
    lemma_pairs_start(args, allowed, n);
    assert(args.skip(2 * n) =~= Seq::<Seq<char>>::empty());
    let pairs = Seq::new(n as nat, |k: int| (args[2 * k], args[2 * k + 1]));
    assert(pairs + Seq::<(Seq<char>, Seq<char>)>::empty() =~= pairs);
}

/// The first flag that is not allowed is refused by name, with the flags
/// that are; an allowed flag at the end is refused for want of a value.
pub proof fn lemma_the_first_bad_flag_is_refused(args: Seq<Seq<char>>, allowed: Seq<String>, n: int)
    requires
        0 <= n,
        2 * n < args.len(),
        forall|k: int| 0 <= k < n ==> listed(allowed, #[trigger] args[2 * k]),
    ensures
        !listed(allowed, args[2 * n]) ==> flag_pairs(args, allowed) == Err::<
            Seq<(Seq<char>, Seq<char>)>,
            Seq<char>,
        >(
            "unknown flag "@ + args[2 * n] + "; expected one of: "@ + interleaved(
                texts(allowed),
                ", "@,
            ),
        ),
        listed(allowed, args[2 * n]) && args.len() == 2 * n + 1 ==> flag_pairs(args, allowed)
            == Err::<Seq<(Seq<char>, Seq<char>)>, Seq<char>>(
            "flag "@ + args[2 * n] + " requires a value"@,
        ),
{
    lemma_pairs_start(args, allowed, n);
    let rest = args.skip(2 * n);
    assert(rest[0] == args[2 * n]);
    let names = interleaved(texts(allowed), ", "@);
    lemma_four("unknown flag "@, args[2 * n], "; expected one of: "@, names);
    lemma_three("flag "@, args[2 * n], " requires a value"@);
}

proof fn lemma_three(a: Seq<char>, b: Seq<char>, c: Seq<char>)
    ensures
        joined(seq![a, b, c]) == a + b + c,
{
    reveal_with_fuel(joined, 4);
    let all = seq![a, b, c];
    assert(all.drop_last() =~= seq![a, b]);
    assert(seq![a, b].drop_last() =~= seq![a]);
    assert(seq![a].drop_last() =~= Seq::<Seq<char>>::empty());
    assert(Seq::<char>::empty() + a =~= a);
}

proof fn lemma_four(a: Seq<char>, b: Seq<char>, c: Seq<char>, d: Seq<char>)
    ensures
        joined(seq![a, b, c, d]) == a + b + c + d,
{
    lemma_three(a, b, c);
    assert(seq![a, b, c, d].drop_last() =~= seq![a, b, c]);
}

/// The last value given for a flag counts; a flag that was not given has
/// none.
pub proof fn lemma_the_last_value_counts(
    pairs: Seq<(Seq<char>, Seq<char>)>,
    flag: Seq<char>,
    i: int,
)
    requires
        0 <= i < pairs.len(),
        pairs[i].0 == flag,
        forall|j: int| i < j < pairs.len() ==> (#[trigger] pairs[j]).0 != flag,
    ensures
        flag_value(pairs, flag) == Some(pairs[i].1),
    decreases pairs.len(),
{
    let last = pairs.len() - 1;
    if i < last {
        assert(pairs[last].0 != flag);
        lemma_the_last_value_counts(pairs.drop_last(), flag, i);
    }
}

/// A flag that was not given has no value.
pub proof fn lemma_flags_not_given_have_no_value(
    pairs: Seq<(Seq<char>, Seq<char>)>,
    flag: Seq<char>,
)
    requires
        forall|j: int| 0 <= j < pairs.len() ==> (#[trigger] pairs[j]).0 != flag,
    ensures
        flag_value(pairs, flag) is None,
    decreases pairs.len(),
{
    if pairs.len() > 0 {
        lemma_flags_not_given_have_no_value(pairs.drop_last(), flag);
    }
}

// ---------------------------------------------------------------------------
// Commands
// ---------------------------------------------------------------------------

/// The value that a command's arguments give a flag: that of its last
/// occurrence among the flags, which start at the third argument.
pub open spec fn gives(args: Seq<Seq<char>>, flag: Seq<char>, value: Option<Seq<char>>) -> bool {
    match value {
        Some(v) => exists|k: int|
            {
                &&& 1 <= k
                &&& 2 * k + 1 < args.len()
                &&& #[trigger] args[2 * k] == flag
                &&& args[2 * k + 1] == v
                &&& forall|j: int|
                    k < j && 2 * j < args.len() ==> #[trigger] args[2 * j] != flag
            },
        None => forall|j: int| 1 <= j && 2 * j < args.len() ==> #[trigger] args[2 * j] != flag,
    }
}

proof fn lemma_given(args: Seq<Seq<char>>, names: Seq<String>, n: int, flag: Seq<char>)
    requires
        0 <= n,
        args.len() == 2 + 2 * n,
        forall|k: int| 1 <= k <= n ==> listed(names, #[trigger] args[2 * k]),
    ensures
        flag_pairs(args.skip(2), names) matches Ok(p) && gives(args, flag, flag_value(p, flag)),
{
    let rest = args.skip(2);
    assert forall|k: int| 0 <= k < n implies listed(names, #[trigger] rest[2 * k]) by {
        assert(rest[2 * k] == args[2 * (k + 1)]);
    }
    lemma_flags_are_read_in_pairs(rest, names, n);
    let p = Seq::new(n as nat, |k: int| (rest[2 * k], rest[2 * k + 1]));
    assert forall|k: int| 0 <= k < n implies (#[trigger] p[k]) == (
        args[2 * (k + 1)],
        args[2 * (k + 1) + 1],
    ) by {}
    lemma_value_is_last(p, flag);
    match flag_value(p, flag) {
        Some(v) => {
            let i = choose|i: int|
                0 <= i < p.len() && (#[trigger] p[i]) == (flag, v) && forall|j: int|
                    i < j < p.len() ==> (#[trigger] p[j]).0 != flag;
            let k = i + 1;
            assert(args[2 * k] == flag);
            assert forall|j: int| k < j && 2 * j < args.len() implies #[trigger] args[2 * j]
                != flag by {
                assert(p[j - 1].0 != flag);
                assert(p[j - 1].0 == args[2 * (j - 1 + 1)]);
            }
        },
        None => {
            assert forall|j: int| 1 <= j && 2 * j < args.len() implies #[trigger] args[2 * j]
                != flag by {
                assert(p[j - 1].0 != flag);
                assert(p[j - 1].0 == args[2 * (j - 1 + 1)]);
            }
        },
    }
}

proof fn lemma_value_is_last(p: Seq<(Seq<char>, Seq<char>)>, flag: Seq<char>)
    ensures
        match flag_value(p, flag) {
            Some(v) => exists|i: int|
                0 <= i < p.len() && (#[trigger] p[i]) == (flag, v) && forall|j: int|
                    i < j < p.len() ==> (#[trigger] p[j]).0 != flag,
            None => forall|j: int| 0 <= j < p.len() ==> (#[trigger] p[j]).0 != flag,
        },
    decreases p.len(),
{
    if p.len() > 0 {
        let front = p.drop_last();
        let last = p.len() - 1;
        if p[last].0 == flag {
            assert(p[last] == (flag, p[last].1));
        } else {
            lemma_value_is_last(front, flag);
            match flag_value(front, flag) {
                Some(v) => {
                    let i = choose|i: int|
                        0 <= i < front.len() && (#[trigger] front[i]) == (flag, v) && forall|j: int|
                            i < j < front.len() ==> (#[trigger] front[j]).0 != flag;
                    assert(p[i] == (flag, v));
                    assert forall|j: int| i < j < p.len() implies (#[trigger] p[j]).0 != flag by {
                        if j < last {
                            assert(front[j] == p[j]);
                        }
                    }
                },
                None => {
                    assert forall|j: int| 0 <= j < p.len() implies (#[trigger] p[j]).0 != flag by {
                        if j < last {
                            assert(front[j] == p[j]);
                        }
                    }
                },
            }
        }
    }
}

/// The flags of a command are among some names.
pub open spec fn flags_among(args: Seq<Seq<char>>, names: Seq<Seq<char>>) -> bool {
    &&& args.len() % 2 == 0
    &&& forall|k: int| 1 <= k && 2 * k < args.len() ==> names.contains(#[trigger] args[2 * k])
}

proof fn lemma_listed_texts(names: Seq<String>, allowed: Seq<Seq<char>>, name: Seq<char>)
    requires
        texts(names) == allowed,
    ensures
        listed(names, name) <==> allowed.contains(name),
{
    if allowed.contains(name) {
        let i = choose|i: int| 0 <= i < allowed.len() && allowed[i] == name;
        assert(names[i]@ == name);
    }
    if listed(names, name) {
        let i = choose|i: int| 0 <= i < names.len() && (#[trigger] names[i])@ == name;
        assert(allowed[i] == name);
    }
}

proof fn lemma_asked(args: Seq<Seq<char>>, names: Seq<String>, allowed: Seq<Seq<char>>) -> (p: Seq<
    (Seq<char>, Seq<char>),
>)
    requires
        args.len() >= 2,
        texts(names) == allowed,
        flags_among(args, allowed),
    ensures
        flag_pairs(args.skip(2), names) == Ok::<Seq<(Seq<char>, Seq<char>)>, Seq<char>>(p),
        forall|flag: Seq<char>| gives(args, flag, #[trigger] flag_value(p, flag)),
{
    let n = args.len() / 2 - 1;
    assert forall|k: int| 1 <= k <= n implies listed(names, #[trigger] args[2 * k]) by {
        lemma_listed_texts(names, allowed, args[2 * k]);
    }
    lemma_given(args, names, n, Seq::empty());
    let p = flag_pairs(args.skip(2), names)->Ok_0;
    assert forall|flag: Seq<char>| gives(args, flag, #[trigger] flag_value(p, flag)) by {
        lemma_given(args, names, n, flag);
    }
    p
}

proof fn lemma_commands_differ()
    ensures
        "measure"@ != "check"@,
        "measure"@ != "report"@,
        "check"@ != "report"@,
{
    reveal_strlit("measure");
    assert("measure"@.len() == 7);
    reveal_strlit("check");
    assert("check"@.len() == 5);
    reveal_strlit("report");
    assert("report"@.len() == 6);
}

/// Arguments that name no command of this tool ask for its usage.
pub proof fn lemma_other_arguments_ask_for_usage(
    args: Seq<Seq<char>>,
    r: Result<Command, String>,
)
    requires
        dispatches(args, r),
        args.len() < 2 || args[0] != "perf"@ || !seq!["measure"@, "check"@, "report"@].contains(
            args[1],
        ),
    ensures
        r matches Ok(Command::Usage),
{
    if args.len() >= 2 && args[0] == "perf"@ {
        let names = seq!["measure"@, "check"@, "report"@];
        assert(names[0] == "measure"@ && names[1] == "check"@ && names[2] == "report"@);
    }
}

/// A measurement takes its profile, output and runner from their flags,
/// and measures under the size profile unless told otherwise.
pub proof fn lemma_measure_takes_its_flags(args: Seq<Seq<char>>, r: Result<Command, String>)
    requires
        dispatches(args, r),
        args.len() >= 2,
        args[0] == "perf"@,
        args[1] == "measure"@,
        flags_among(args, seq!["--profile"@, "--out"@, "--runner"@]),
    ensures
        r matches Ok(Command::Measure { profile, out, runner }) && {
            &&& gives(args, "--profile"@, Some(profile@)) || (gives(args, "--profile"@, None)
                && profile@ == "size"@)
            &&& gives(args, "--out"@, opt_text(out))
            &&& gives(args, "--runner"@, opt_text(runner))
        },
{
    let allowed = seq!["--profile"@, "--out"@, "--runner"@];
    let names = choose|names: Seq<String>|
        #![trigger flag_pairs(args.skip(2), names)]
        texts(names) == allowed && match flag_pairs(args.skip(2), names) {
            Ok(p) => r matches Ok(c) && (c matches Command::Measure { profile, out, runner }
                && profile@ == crate::perf::value_or(p, "--profile"@, "size"@) && opt_text(out)
                == flag_value(p, "--out"@) && opt_text(runner) == flag_value(p, "--runner"@)),
            Err(e) => r matches Err(t) && t@ == e,
        };
    let p = lemma_asked(args, names, allowed);
    assert(gives(args, "--profile"@, flag_value(p, "--profile"@)));
}

/// A check takes its budgets and profile from their flags, and checks the
/// size profile unless told otherwise.
pub proof fn lemma_check_takes_its_flags(args: Seq<Seq<char>>, r: Result<Command, String>)
    requires
        dispatches(args, r),
        args.len() >= 2,
        args[0] == "perf"@,
        args[1] == "check"@,
        flags_among(args, seq!["--budgets"@, "--profile"@]),
    ensures
        r matches Ok(Command::Check { budgets, profile }) && {
            &&& gives(args, "--profile"@, Some(profile@)) || (gives(args, "--profile"@, None)
                && profile@ == "size"@)
            &&& gives(args, "--budgets"@, opt_text(budgets))
        },
{
    lemma_commands_differ();
    let allowed = seq!["--budgets"@, "--profile"@];
    let names = choose|names: Seq<String>|
        #![trigger flag_pairs(args.skip(2), names)]
        texts(names) == allowed && match flag_pairs(args.skip(2), names) {
            Ok(p) => r matches Ok(c) && (c matches Command::Check { budgets, profile } && profile@
                == crate::perf::value_or(p, "--profile"@, "size"@) && opt_text(budgets)
                == flag_value(p, "--budgets"@)),
            Err(e) => r matches Err(t) && t@ == e,
        };
    let p = lemma_asked(args, names, allowed);
    assert(gives(args, "--profile"@, flag_value(p, "--profile"@)));
}

/// A report takes its records and its start from their flags.
pub proof fn lemma_report_takes_its_flags(args: Seq<Seq<char>>, r: Result<Command, String>)
    requires
        dispatches(args, r),
        args.len() >= 2,
        args[0] == "perf"@,
        args[1] == "report"@,
        flags_among(args, seq!["--records"@, "--since"@]),
    ensures
        r matches Ok(Command::Report { records, since }) && {
            &&& gives(args, "--records"@, opt_text(records))
            &&& gives(args, "--since"@, opt_text(since))
        },
{
    lemma_commands_differ();
    let allowed = seq!["--records"@, "--since"@];
    let names = choose|names: Seq<String>|
        #![trigger flag_pairs(args.skip(2), names)]
        texts(names) == allowed && match flag_pairs(args.skip(2), names) {
            Ok(p) => r matches Ok(c) && (c matches Command::Report { records, since } && opt_text(
                records,
            ) == flag_value(p, "--records"@) && opt_text(since) == flag_value(p, "--since"@)),
            Err(e) => r matches Err(t) && t@ == e,
        };
    let p = lemma_asked(args, names, allowed);
    assert(gives(args, "--since"@, flag_value(p, "--since"@)));
}

// ---------------------------------------------------------------------------
// Tool outputs
// ---------------------------------------------------------------------------

/// The host is what follows the first colon of the first line that names
/// it, without white space around.
pub proof fn lemma_the_first_host_line_names_it(all: Seq<Seq<char>>, i: int, c: int)
    requires
        0 <= i < all.len(),
        0 <= c < all[i].len(),
        all[i][c] == ':',
        forall|k: int| 0 <= k < c ==> #[trigger] all[i][k] != ':',
        trim(all[i].take(c)) == "host"@,
        forall|j: int, d: int|
            #![trigger all[j][d]]
            0 <= j < i && 0 <= d < all[j].len() && all[j][d] == ':' && trim(all[j].take(d))
                == "host"@ ==> exists|e: int| 0 <= e < d && #[trigger] all[j][e] == ':',
    ensures
        host_of(all) == Some(trim(all[i].skip(c + 1))),
    decreases i,
{
    lemma_first_of(all[0], ':');
    if i == 0 {
        assert(first_of(all[0], ':') == c);
    } else {
        let at = first_of(all[0], ':');
        if at < all[0].len() && trim(all[0].take(at)) == "host"@ {
            assert(all[0][at] == ':');
            assert(false);
        }
        let rest = all.drop_first();
        assert(rest[i - 1] == all[i]);
        assert forall|j: int, d: int|
            #![trigger rest[j][d]]
            0 <= j < i - 1 && 0 <= d < rest[j].len() && rest[j][d] == ':' && trim(rest[j].take(d))
                == "host"@ implies exists|e: int| 0 <= e < d && #[trigger] rest[j][e] == ':' by {
            assert(rest[j] == all[j + 1]);
            assert(all[j + 1][d] == ':');
            let e = choose|e: int| 0 <= e < d && #[trigger] all[j + 1][e] == ':';
            assert(rest[j][e] == ':');
        }
        lemma_the_first_host_line_names_it(rest, i - 1, c);
    }
}

/// Without a line that names it the host is not known.
pub proof fn lemma_hosts_need_a_line(all: Seq<Seq<char>>)
    requires
        forall|j: int, d: int|
            #![trigger all[j][d]]
            0 <= j < all.len() && 0 <= d < all[j].len() && all[j][d] == ':' ==> trim(
                all[j].take(d),
            ) != "host"@,
    ensures
        host_of(all) is None,
    decreases all.len(),
{
    if all.len() > 0 {
        lemma_first_of(all[0], ':');
        let at = first_of(all[0], ':');
        if at < all[0].len() {
            assert(all[0][at] == ':');
        }
        let rest = all.drop_first();
        assert forall|j: int, d: int|
            #![trigger rest[j][d]]
            0 <= j < rest.len() && 0 <= d < rest[j].len() && rest[j][d] == ':' implies trim(
            rest[j].take(d),
        ) != "host"@ by {
            assert(all[j + 1][d] == ':');
        }
        lemma_hosts_need_a_line(rest);
    }
}

/// The processor is what follows the first colon of the first line that
/// starts with its label and has one, without white space around.
pub proof fn lemma_the_first_model_line_names_the_processor(all: Seq<Seq<char>>, i: int, c: int)
    requires
        0 <= i < all.len(),
        0 <= c < all[i].len(),
        all[i][c] == ':',
        forall|k: int| 0 <= k < c ==> #[trigger] all[i][k] != ':',
        "model name"@.is_prefix_of(all[i]),
        forall|j: int| 0 <= j < i ==> !"model name"@.is_prefix_of(#[trigger] all[j]),
    ensures
        cpu_of(all) == trim(all[i].skip(c + 1)),
    decreases i,
{
    lemma_first_of(all[0], ':');
    if i == 0 {
        assert(first_of(all[0], ':') == c);
    } else {
        let rest = all.drop_first();
        assert(rest[i - 1] == all[i]);
        assert forall|j: int| 0 <= j < i - 1 implies !"model name"@.is_prefix_of(
            #[trigger] rest[j],
        ) by {
            assert(rest[j] == all[j + 1]);
        }
        lemma_the_first_model_line_names_the_processor(rest, i - 1, c);
    }
}

/// Without such a line the processor is unknown.
pub proof fn lemma_processors_need_a_line(all: Seq<Seq<char>>)
    requires
        forall|j: int| 0 <= j < all.len() ==> !"model name"@.is_prefix_of(#[trigger] all[j]),
    ensures
        cpu_of(all) == "unknown"@,
    decreases all.len(),
{
    if all.len() > 0 {
        let rest = all.drop_first();
        assert forall|j: int| 0 <= j < rest.len() implies !"model name"@.is_prefix_of(
            #[trigger] rest[j],
        ) by {
            assert(rest[j] == all[j + 1]);
        }
        assert(!"model name"@.is_prefix_of(all[0]));
        lemma_processors_need_a_line(rest);
    }
}

/// All members but the tooling are measured, in order.
pub proof fn lemma_all_but_the_tooling_is_measured(names: Seq<Seq<char>>)
    ensures
        without_tooling(names) == names.filter(|name: Seq<char>| name != "xtask"@),
    decreases names.len(),
{
    reveal(Seq::filter);
    if names.len() > 0 {
        lemma_all_but_the_tooling_is_measured(names.drop_last());
    }
}

proof fn lemma_binaries(targets: Seq<Target>, n: int, name: Seq<char>)
    requires
        0 <= n <= targets.len(),
    ensures
        binaries(targets, n).contains(name) <==> exists|k: int|
            0 <= k < n && (#[trigger] targets[k]).name@ == name && listed(
                targets[k].kind@,
                "bin"@,
            ),
    decreases n,
{
    if n > 0 {
        lemma_binaries(targets, n - 1, name);
        let front = binaries(targets, n - 1);
        let t = targets[n - 1];
        let all = binaries(targets, n);
        if listed(t.kind@, "bin"@) {
            assert(all == front.push(t.name@));
            assert(all[front.len() as int] == t.name@);
            if front.contains(name) {
                let k = choose|k: int| 0 <= k < front.len() && front[k] == name;
                assert(all[k] == name);
            }
            if all.contains(name) && name != t.name@ {
                let k = choose|k: int| 0 <= k < all.len() && all[k] == name;
                assert(front[k] == name);
            }
        }
    }
}

proof fn lemma_measured(packages: Seq<Package>, members: Seq<String>, n: int, name: Seq<char>)
    requires
        0 <= n <= packages.len(),
    ensures
        measured_binaries(packages, members, n).contains(name) <==> exists|i: int, k: int|
            #![trigger packages[i].targets@[k]]
            0 <= i < n && 0 <= k < packages[i].targets@.len() && listed(members, packages[i].name@)
                && packages[i].targets@[k].name@ == name && listed(
                packages[i].targets@[k].kind@,
                "bin"@,
            ),
    decreases n,
{
    if n > 0 {
        lemma_measured(packages, members, n - 1, name);
        let p = packages[n - 1];
        let front = measured_binaries(packages, members, n - 1);
        let own = binaries(p.targets@, p.targets@.len() as int);
        lemma_binaries(p.targets@, p.targets@.len() as int, name);
        if listed(members, p.name@) {
            let all = front + own;
            if front.contains(name) {
                let k = choose|k: int| 0 <= k < front.len() && front[k] == name;
                assert(all[k] == name);
            }
            if own.contains(name) {
                let k = choose|k: int| 0 <= k < own.len() && own[k] == name;
                assert(all[front.len() + k] == name);
                let t = choose|t: int|
                    0 <= t < p.targets@.len() && (#[trigger] p.targets@[t]).name@ == name && listed(
                        p.targets@[t].kind@,
                        "bin"@,
                    );
                assert(packages[n - 1].targets@[t].name@ == name);
            }
            if all.contains(name) {
                let k = choose|k: int| 0 <= k < all.len() && all[k] == name;
                if k < front.len() {
                    assert(front[k] == name);
                } else {
                    assert(own[k - front.len()] == name);
                }
            }
        }
        assert forall|i: int, k: int|
            #![trigger packages[i].targets@[k]]
            0 <= i < n && 0 <= k < packages[i].targets@.len() && listed(members, packages[i].name@)
                && packages[i].targets@[k].name@ == name && listed(
                packages[i].targets@[k].kind@,
                "bin"@,
            ) implies measured_binaries(packages, members, n).contains(name) by {
            if i == n - 1 {
                assert(p.targets@[k].name@ == name);
                assert(own.contains(name));
            }
        }
    }
}

/// The artifacts measured are the binary targets of the member packages,
/// and nothing else.
pub proof fn lemma_binaries_of_members_are_measured(
    packages: Seq<Package>,
    members: Seq<String>,
    name: Seq<char>,
)
    ensures
        measured_binaries(packages, members, packages.len() as int).contains(name) <==> exists|
            i: int,
            k: int,
        |
            #![trigger packages[i].targets@[k]]
            0 <= i < packages.len() && 0 <= k < packages[i].targets@.len() && listed(
                members,
                packages[i].name@,
            ) && packages[i].targets@[k].name@ == name && listed(
                packages[i].targets@[k].kind@,
                "bin"@,
            ),
{
    lemma_measured(packages, members, packages.len() as int, name);
}

/// Every member is built by name, in order.
pub proof fn lemma_every_member_is_built(members: Seq<Seq<char>>, n: int, k: int)
    requires
        0 <= k < n <= members.len(),
    ensures
        member_args(members, n).len() == 2 * n,
        member_args(members, n)[2 * k] == "-p"@,
        member_args(members, n)[2 * k + 1] == members[k],
    decreases n,
{
    if n == 1 {
        assert(member_args(members, 0).len() == 0);
    } else if k < n - 1 {
        lemma_every_member_is_built(members, n - 1, k);
    } else {
        lemma_every_member_is_built(members, n - 1, 0);
    }
}

// ---------------------------------------------------------------------------
// Reports
// ---------------------------------------------------------------------------

/// Counting the findings of a level counts those that carry it.
pub proof fn lemma_levels_are_counted(findings: Seq<Shown>, level: Level)
    ensures
        count_level(findings, level) == findings.filter(|f: Shown| f.0 == level).len(),
    decreases findings.len(),
{
    reveal(Seq::filter);
    if findings.len() > 0 {
        lemma_levels_are_counted(findings.drop_last(), level);
    }
}

proof fn lemma_lines_from(findings: Seq<Shown>, i: int, line: Seq<Seq<char>>)
    requires
        0 <= i < findings.len(),
        line.len() == 3,
        line[0] == (match findings[i].0 {
            Level::Pass => "OK    "@,
            Level::Warn => "WARN  "@,
            Level::Breach => "BREACH "@,
        }),
        line[1] == findings[i].1,
        line[2] == "\n"@,
    ensures
        exists|before: Seq<Seq<char>>, after: Seq<Seq<char>>|
            finding_lines(findings) == #[trigger] (before + line + after),
    decreases findings.len(),
{
    let front = findings.drop_last();
    let last = findings.len() - 1;
    if i == last {
        let none = Seq::<Seq<char>>::empty();
        assert(finding_lines(findings) =~= finding_lines(front) + line + none);
    } else {
        lemma_lines_from(front, i, line);
        let (before, after) = choose|before: Seq<Seq<char>>, after: Seq<Seq<char>>|
            finding_lines(front) == #[trigger] (before + line + after);
        let own = seq![crate::perf::tag(findings[last].0), findings[last].1, "\n"@];
        assert(before + line + after + own =~= before + line + (after + own));
    }
}

/// Every finding is printed on a line of its own behind the word of its
/// level.
pub proof fn lemma_every_finding_is_printed(
    path: Seq<char>,
    b: Budgets,
    findings: Seq<Shown>,
    i: int,
)
    requires
        0 <= i < findings.len(),
    ensures
        holds(
            check_report(path, b, findings),
            (match findings[i].0 {
                Level::Pass => "OK    "@,
                Level::Warn => "WARN  "@,
                Level::Breach => "BREACH "@,
            }) + findings[i].1 + "\n"@,
        ),
{
    let word = match findings[i].0 {
        Level::Pass => "OK    "@,
        Level::Warn => "WARN  "@,
        Level::Breach => "BREACH "@,
    };
    let line = seq![word, findings[i].1, "\n"@];
    lemma_lines_from(findings, i, line);
    let (before, after) = choose|before: Seq<Seq<char>>, after: Seq<Seq<char>>|
        finding_lines(findings) == #[trigger] (before + line + after);
    let head = seq!["perf budgets: "@, path, " (reviewed "@, b.reviewed@, ")\n"@];
    let advice = seq![
        "advisory: clean-check growth threshold "@,
        dec(b.advisory.build.check_clean_growth_pct as nat),
        "% (trend-only, never a gate)\n"@,
    ];
    let verdict = verdict_parts(findings);
    assert(head + finding_lines(findings) + advice + verdict =~= (head + before) + line + (after
        + advice + verdict));
    lemma_runs_are_held(head + before, line, after + advice + verdict);
    lemma_three(word, findings[i].1, "\n"@);
}

/// A report opens with the path of the budgets and the date they carry.
pub proof fn lemma_reports_open_with_their_budgets(
    path: Seq<char>,
    b: Budgets,
    findings: Seq<Shown>,
)
    ensures
        ("perf budgets: "@ + path + " (reviewed "@ + b.reviewed@ + ")\n"@).is_prefix_of(
            check_report(path, b, findings),
        ),
{
    let head = seq!["perf budgets: "@, path, " (reviewed "@, b.reviewed@, ")\n"@];
    let advice = seq![
        "advisory: clean-check growth threshold "@,
        dec(b.advisory.build.check_clean_growth_pct as nat),
        "% (trend-only, never a gate)\n"@,
    ];
    let rest = finding_lines(findings) + advice + verdict_parts(findings);
    assert(head + finding_lines(findings) + advice + verdict_parts(findings) =~= head + rest);
    lemma_joined_append(head, rest);
    lemma_four("perf budgets: "@, path, " (reviewed "@, b.reviewed@);
    assert(head.drop_last() =~= seq!["perf budgets: "@, path, " (reviewed "@, b.reviewed@]);
    let text = "perf budgets: "@ + path + " (reviewed "@ + b.reviewed@ + ")\n"@;
    assert(joined(head) == text);
    assert(check_report(path, b, findings) == text + joined(rest));
    assert(text =~= check_report(path, b, findings).subrange(0, text.len() as int));
}

/// The last line of a report is `PASS` with the number of results and of
/// warnings where nothing is over its budget, else `FAIL` with the number
/// that is.
pub proof fn lemma_reports_end_in_their_verdict(path: Seq<char>, b: Budgets, findings: Seq<Shown>)
    ensures
        ({
            let breaches = findings.filter(|f: Shown| f.0 == Level::Breach).len();
            let warnings = findings.filter(|f: Shown| f.0 == Level::Warn).len();
            let verdict = if breaches == 0 {
                "PASS ("@ + dec(findings.len()) + " findings, "@ + dec(warnings) + " warnings)\n"@
            } else {
                "FAIL ("@ + dec(breaches) + " breaches)\n"@
            };
            verdict.is_suffix_of(check_report(path, b, findings))
        }),
{
    lemma_levels_are_counted(findings, Level::Breach);
    lemma_levels_are_counted(findings, Level::Warn);
    let breaches = findings.filter(|f: Shown| f.0 == Level::Breach).len();
    let warnings = findings.filter(|f: Shown| f.0 == Level::Warn).len();
    let head = seq!["perf budgets: "@, path, " (reviewed "@, b.reviewed@, ")\n"@];
    let advice = seq![
        "advisory: clean-check growth threshold "@,
        dec(b.advisory.build.check_clean_growth_pct as nat),
        "% (trend-only, never a gate)\n"@,
    ];
    let rest = head + finding_lines(findings) + advice;
    lemma_joined_append(rest, verdict_parts(findings));
    lemma_three("FAIL ("@, dec(breaches), " breaches)\n"@);
    lemma_four("PASS ("@, dec(findings.len()), " findings, "@, dec(warnings));
    let pass = seq![
        "PASS ("@,
        dec(findings.len()),
        " findings, "@,
        dec(warnings),
        " warnings)\n"@,
    ];
    assert(pass.drop_last() =~= seq!["PASS ("@, dec(findings.len()), " findings, "@, dec(warnings)]);
    let verdict = if breaches == 0 {
        "PASS ("@ + dec(findings.len()) + " findings, "@ + dec(warnings) + " warnings)\n"@
    } else {
        "FAIL ("@ + dec(breaches) + " breaches)\n"@
    };
    assert(joined(verdict_parts(findings)) == verdict);
    let report = check_report(path, b, findings);
    assert(report == joined(rest) + verdict);
    assert(verdict =~= report.subrange(report.len() - verdict.len(), report.len() as int));
}

} // verus!

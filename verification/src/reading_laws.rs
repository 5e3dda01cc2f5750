//! What is read out of the flags of a gallery, a backlog, a dependency
//! listing, a function under a probe, and a ledger of allocations.
use vstd::prelude::*;

verus! {

use crate::args::{
    asked, first_scene, listing, offers, profile_path, routed, Asked, Gallery, Route, Settings,
};
use crate::backlog::{date_days, date_run, dash_parts, item_of, items_of, last_at, stands_at};
use crate::calendar::civil_days;
use crate::chars::{
    after_token, lines, parsed_u64, text_less, token, trim, trim_end,
};
use crate::counting::{counted, Event};
use crate::doc::joined;
use crate::packages::{
    ascending, by_name, external, package_less, package_of, packages_of, several, tree_packages,
};
use crate::probe::{body_from, error_item, expanded, fn_from, Lexed};
use crate::table::listed;

// ---------------------------------------------------------------------------
// Flags of a gallery
// ---------------------------------------------------------------------------

proof fn lemma_flags_apart()
    ensures
        "--perf-headless"@ != "--perf-scenes"@,
        "--json"@ != "--perf-headless"@,
        "--json"@ != "--perf-scenes"@,
        "--perf-alloc"@ != "--perf-headless"@,
        "--perf-alloc"@ != "--perf-scenes"@,
        "--perf-alloc"@ != "--json"@,
        "--viewer"@ != "--perf-headless"@,
        "--viewer"@ != "--perf-scenes"@,
        "--viewer"@ != "--json"@,
        "--viewer"@ != "--perf-alloc"@,
        forall|flag: Seq<char>| #[trigger]
            crate::args::takes_value(Gallery::Tree, flag) ==> flag != "--perf-headless"@ && flag
                != "--perf-scenes"@ && flag != "--json"@ && flag != "--perf-alloc"@ && flag
                != "--viewer"@,
        "--ticks"@ != "--scene"@,
        "--seed"@ != "--scene"@,
        "--seed"@ != "--ticks"@,
        "--dhat-out"@ != "--scene"@,
        "--dhat-out"@ != "--ticks"@,
        "--dhat-out"@ != "--seed"@,
        "--render"@ != "--scene"@,
        "--render"@ != "--ticks"@,
        "--render"@ != "--seed"@,
        "--render"@ != "--dhat-out"@,
        "--render-frame"@ != "--scene"@,
        "--render-frame"@ != "--ticks"@,
        "--render-frame"@ != "--seed"@,
        "--render-frame"@ != "--dhat-out"@,
        "--render-frame"@ != "--render"@,
        "--viewer-shot"@ != "--scene"@,
        "--viewer-shot"@ != "--ticks"@,
        "--viewer-shot"@ != "--seed"@,
        "--viewer-shot"@ != "--dhat-out"@,
        "--viewer-shot"@ != "--render"@,
        "--viewer-shot"@ != "--render-frame"@,
{
    reveal_strlit("--perf-headless");
    assert("--perf-headless"@.len() == 15);
    reveal_strlit("--perf-scenes");
    assert("--perf-scenes"@.len() == 13);
    reveal_strlit("--json");
    assert("--json"@.len() == 6);
    reveal_strlit("--perf-alloc");
    assert("--perf-alloc"@.len() == 12);
    reveal_strlit("--viewer");
    assert("--viewer"@.len() == 8);
    reveal_strlit("--scene");
    assert("--scene"@.len() == 7);
    reveal_strlit("--ticks");
    assert("--ticks"@.len() == 7);
    reveal_strlit("--seed");
    assert("--seed"@.len() == 6);
    reveal_strlit("--dhat-out");
    assert("--dhat-out"@.len() == 10);
    reveal_strlit("--render");
    assert("--render"@.len() == 8);
    reveal_strlit("--render-frame");
    assert("--render-frame"@.len() == 14);
    reveal_strlit("--viewer-shot");
    assert("--viewer-shot"@.len() == 13);
    assert("--perf-scenes"@[2] != "--viewer-shot"@[2]);
    assert("--json"@[2] != "--seed"@[2]);
    assert("--viewer"@[2] != "--render"@[2]);
    assert("--scene"@[2] != "--ticks"@[2]);
}

/// A flag without a value switches its own setting on, in any gallery,
/// and reading goes on behind it; the one for headless runs changes
/// nothing, and the one that lists the scenes ends the reading.
pub proof fn lemma_switches_switch_one_setting(g: Gallery, rest: Seq<Seq<char>>, s: Settings)
    ensures
        asked(g, seq!["--perf-headless"@] + rest, s) == asked(g, rest, s),
        asked(g, seq!["--perf-scenes"@] + rest, s) is Scenes,
        asked(g, seq!["--json"@] + rest, s) == asked(g, rest, Settings { json: true, ..s }),
        asked(g, seq!["--perf-alloc"@] + rest, s) == asked(
            g,
            rest,
            Settings { alloc_pass: true, ..s },
        ),
        g is Tree || g is Walker ==> asked(g, seq!["--viewer"@] + rest, s) == asked(
            g,
            rest,
            Settings { viewer: true, ..s },
        ),
{
    lemma_flags_apart();
    assert((seq!["--perf-headless"@] + rest).skip(1) =~= rest);
    assert((seq!["--json"@] + rest).skip(1) =~= rest);
    assert((seq!["--perf-alloc"@] + rest).skip(1) =~= rest);
    assert((seq!["--viewer"@] + rest).skip(1) =~= rest);
}

proof fn lemma_value_flag(
    g: Gallery,
    flag: Seq<char>,
    v: Seq<char>,
    rest: Seq<Seq<char>>,
    s: Settings,
)
    requires
        crate::args::takes_value(g, flag),
    ensures
        match crate::args::with_value(s, flag, v) {
            Ok(t) => asked(g, seq![flag, v] + rest, s) == asked(g, rest, t),
            Err(e) => asked(g, seq![flag, v] + rest, s) == Asked::Refused(e),
        },
        asked(g, seq![flag], s) == Asked::Refused(joined(seq![flag, " needs a value"@])),
{
    lemma_flags_apart();
    assert(crate::args::takes_value(Gallery::Tree, flag));
    let args = seq![flag, v] + rest;
    assert(args[0] == flag);
    assert(args[1] == v);
    assert(args.skip(2) =~= rest);
    assert(seq![flag][0] == flag);
}

/// A flag with a value gives it to its own setting, in the galleries that
/// have it, and reading goes on behind both; without one it is refused.
pub proof fn lemma_values_set_one_setting(
    g: Gallery,
    v: Seq<char>,
    rest: Seq<Seq<char>>,
    s: Settings,
)
    ensures
        asked(g, seq!["--scene"@, v] + rest, s) == asked(g, rest, Settings { scene: v, ..s }),
        asked(g, seq!["--dhat-out"@, v] + rest, s) == asked(
            g,
            rest,
            Settings { dhat_out: Some(v), ..s },
        ),
        !(g is Demo) ==> asked(g, seq!["--render"@, v] + rest, s) == asked(
            g,
            rest,
            Settings { render: Some(v), ..s },
        ),
        g is Tree || g is Walker ==> asked(g, seq!["--render-frame"@, v] + rest, s) == asked(
            g,
            rest,
            Settings { render_frame: Some(v), ..s },
        ),
        g is Tree || g is Walker ==> asked(g, seq!["--viewer-shot"@, v] + rest, s) == asked(
            g,
            rest,
            Settings { viewer_shot: Some(v), ..s },
        ),
        asked(g, seq!["--scene"@], s) == Asked::Refused(
            joined(seq!["--scene"@, " needs a value"@]),
        ),
{
    lemma_flags_apart();
    lemma_value_flag(g, "--scene"@, v, rest, s);
    lemma_value_flag(g, "--dhat-out"@, v, rest, s);
    if !(g is Demo) {
        lemma_value_flag(g, "--render"@, v, rest, s);
    }
    if g is Tree || g is Walker {
        lemma_value_flag(g, "--render-frame"@, v, rest, s);
        lemma_value_flag(g, "--viewer-shot"@, v, rest, s);
    }
}

/// Ticks and seeds take numerals and nothing else: the one sets the ticks
/// and the other the seed, and what is no numeral is refused by name.
pub proof fn lemma_ticks_and_seeds_take_numerals(
    g: Gallery,
    v: Seq<char>,
    rest: Seq<Seq<char>>,
    s: Settings,
)
    ensures
        parsed_u64(v) matches Some(n) ==> {
            &&& asked(g, seq!["--ticks"@, v] + rest, s) == asked(g, rest, Settings { ticks: n, ..s })
            &&& asked(g, seq!["--seed"@, v] + rest, s) == asked(g, rest, Settings { seed: n, ..s })
        },
        parsed_u64(v) is None ==> {
            &&& asked(g, seq!["--ticks"@, v] + rest, s) == Asked::Refused(
                joined(seq!["bad --ticks value: "@, v]),
            )
            &&& asked(g, seq!["--seed"@, v] + rest, s) == Asked::Refused(
                joined(seq!["bad --seed value: "@, v]),
            )
        },
{
    lemma_flags_apart();
    lemma_value_flag(g, "--ticks"@, v, rest, s);
    lemma_value_flag(g, "--seed"@, v, rest, s);
}

/// With no flag left, a run without a scene takes its gallery's first,
/// every setting else stays, and a scene that is not offered is refused.
pub proof fn lemma_runs_settle_their_scene(g: Gallery, s: Settings)
    ensures
        s.scene.len() == 0 ==> asked(g, Seq::empty(), s) == Asked::Run(
            Settings {
                scene: (match g {
                    Gallery::Demo => "bounce"@,
                    Gallery::Tree => "tree"@,
                    Gallery::Maps => "meadow"@,
                    Gallery::Walker => "walk"@,
                }),
                ..s
            },
        ),
        s.scene.len() > 0 && offers(g, s.scene) ==> asked(g, Seq::empty(), s) == Asked::Run(s),
        s.scene.len() > 0 && !offers(g, s.scene) ==> asked(g, Seq::empty(), s) == Asked::Refused(
            joined(seq!["unknown scene: "@, s.scene, " (try --perf-scenes)"@]),
        ),
        offers(g, first_scene(g)),
{
}

/// What is no flag of the gallery is refused by name: a picture of the
/// particles, a viewer of particles or maps, and anything unknown.
pub proof fn lemma_other_flags_are_refused(
    g: Gallery,
    flag: Seq<char>,
    rest: Seq<Seq<char>>,
    s: Settings,
)
    ensures
        g is Demo ==> asked(g, seq!["--render"@] + rest, s) == Asked::Refused(
            joined(seq!["unknown argument: "@, "--render"@]),
        ),
        g is Demo || g is Maps ==> asked(g, seq!["--viewer"@] + rest, s) == Asked::Refused(
            joined(seq!["unknown argument: "@, "--viewer"@]),
        ) && asked(g, seq!["--viewer-shot"@] + rest, s) == Asked::Refused(
            joined(seq!["unknown argument: "@, "--viewer-shot"@]),
        ) && asked(g, seq!["--render-frame"@] + rest, s) == Asked::Refused(
            joined(seq!["unknown argument: "@, "--render-frame"@]),
        ),
        !seq![
            "--perf-headless"@,
            "--perf-scenes"@,
            "--json"@,
            "--perf-alloc"@,
            "--viewer"@,
            "--scene"@,
            "--ticks"@,
            "--seed"@,
            "--dhat-out"@,
            "--render"@,
            "--render-frame"@,
            "--viewer-shot"@,
        ].contains(flag) ==> asked(g, seq![flag] + rest, s) == Asked::Refused(
            joined(seq!["unknown argument: "@, flag]),
        ),
{
    lemma_flags_apart();
    assert(crate::args::takes_value(Gallery::Tree, "--render"@));
    assert(crate::args::takes_value(Gallery::Tree, "--render-frame"@));
    assert(crate::args::takes_value(Gallery::Tree, "--viewer-shot"@));
    assert(crate::args::takes_value(Gallery::Tree, "--scene"@));
    assert(crate::args::takes_value(Gallery::Tree, "--ticks"@));
    assert(crate::args::takes_value(Gallery::Tree, "--seed"@));
    assert(crate::args::takes_value(Gallery::Tree, "--dhat-out"@));
    let flags = seq![
        "--perf-headless"@,
        "--perf-scenes"@,
        "--json"@,
        "--perf-alloc"@,
        "--viewer"@,
        "--scene"@,
        "--ticks"@,
        "--seed"@,
        "--dhat-out"@,
        "--render"@,
        "--render-frame"@,
        "--viewer-shot"@,
    ];
    assert(flags[0] == "--perf-headless"@ && flags[1] == "--perf-scenes"@ && flags[2] == "--json"@
        && flags[3] == "--perf-alloc"@ && flags[4] == "--viewer"@ && flags[5] == "--scene"@
        && flags[6] == "--ticks"@ && flags[7] == "--seed"@ && flags[8] == "--dhat-out"@ && flags[9]
        == "--render"@ && flags[10] == "--render-frame"@ && flags[11] == "--viewer-shot"@);
    assert((seq![flag] + rest)[0] == flag);
    assert((seq!["--render"@] + rest)[0] == "--render"@);
    assert((seq!["--viewer"@] + rest)[0] == "--viewer"@);
    assert((seq!["--viewer-shot"@] + rest)[0] == "--viewer-shot"@);
    assert((seq!["--render-frame"@] + rest)[0] == "--render-frame"@);
}

/// A gallery offers exactly the scenes that it has a preset for.
pub proof fn lemma_galleries_offer_their_presets(id: Seq<char>)
    ensures
        offers(Gallery::Demo, id) <==> crate::demo::preset_of(id) is Some,
        offers(Gallery::Tree, id) <==> crate::tree_gallery::preset_of(id) is Some,
        offers(Gallery::Maps, id) <==> crate::map_gallery::scene_params(id) is Some,
        offers(Gallery::Walker, id) <==> crate::walkers::preset_of(id) is Some
            || crate::mandala::preset_of(id) is Some,
{
}

/// A gallery lists its scenes with single spaces between them; the
/// porters' scene is left out.
pub proof fn lemma_galleries_list_their_scenes(g: Gallery)
    ensures
        listing(g) == match g {
            Gallery::Demo => "bounce"@ + " "@ + "bounce-big"@,
            Gallery::Tree => "tree"@ + " "@ + "tree-storm"@ + " "@ + "tree-grove"@,
            Gallery::Maps => "meadow"@ + " "@ + "archipelago"@ + " "@ + "badlands"@ + " "@
                + "blank"@,
            Gallery::Walker => "walk"@ + " "@ + "walk-run"@ + " "@ + "crowd"@ + " "@
                + "mandala-100"@ + " "@ + "mandala-1k"@ + " "@ + "mandala-10k"@,
        },
{
    reveal_strlit(" ");
    reveal_strlit("bounce");
    reveal_strlit("bounce-big");
    reveal_strlit("bounce bounce-big");
    reveal_strlit("tree");
    reveal_strlit("tree-storm");
    reveal_strlit("tree-grove");
    reveal_strlit("tree tree-storm tree-grove");
    reveal_strlit("meadow");
    reveal_strlit("archipelago");
    reveal_strlit("badlands");
    reveal_strlit("blank");
    reveal_strlit("meadow archipelago badlands blank");
    reveal_strlit("walk");
    reveal_strlit("walk-run");
    reveal_strlit("crowd");
    reveal_strlit("mandala-100");
    reveal_strlit("mandala-1k");
    reveal_strlit("mandala-10k");
    reveal_strlit("walk walk-run crowd mandala-100 mandala-1k mandala-10k");
    match g {
        Gallery::Demo => {
            assert(listing(g) =~= "bounce"@ + " "@ + "bounce-big"@);
        },
        Gallery::Tree => {
            assert(listing(g) =~= "tree"@ + " "@ + "tree-storm"@ + " "@ + "tree-grove"@);
        },
        Gallery::Maps => {
            assert(listing(g) =~= "meadow"@ + " "@ + "archipelago"@ + " "@ + "badlands"@ + " "@
                + "blank"@);
        },
        Gallery::Walker => {
            assert(listing(g) =~= "walk"@ + " "@ + "walk-run"@ + " "@ + "crowd"@ + " "@
                + "mandala-100"@ + " "@ + "mandala-1k"@ + " "@ + "mandala-10k"@);
        },
    }
}

/// A run that is told nothing: six hundred ticks, or the one pass of a
/// map, from the usual seed, with nothing written and nothing shown.
pub proof fn lemma_runs_start_from_the_usual_settings(g: Gallery)
    ensures
        crate::args::defaults(g) == (Settings {
            scene: Seq::empty(),
            ticks: if g is Maps {
                1
            } else {
                600
            },
            seed: 42,
            json: false,
            alloc_pass: false,
            dhat_out: None,
            render: None,
            render_frame: None,
            viewer: false,
            viewer_shot: None,
        }),
{
}

/// The larger particle scene holds ten times the particles in a box three
/// times as wide, and both boxes are square.
pub proof fn lemma_particle_scenes_grow_tenfold()
    ensures
        crate::demo::preset_of("bounce"@) == Some((1000usize, 0x4348_0000u32, 0x4348_0000u32)),
        crate::demo::preset_of("bounce-big"@) == Some(
            (10000usize, 0x4416_0000u32, 0x4416_0000u32),
        ),
{
    reveal_strlit("bounce");
    assert("bounce"@.len() == 6);
    reveal_strlit("bounce-big");
    assert("bounce-big"@.len() == 10);
}

/// The viewer goes before pictures and pictures before measurement.
pub proof fn lemma_viewers_go_first(s: Settings)
    ensures
        routed(s) is Viewer <==> s.viewer,
        routed(s) is Render <==> !s.viewer && (s.render is Some || s.render_frame is Some),
        routed(s) is Headless <==> !s.viewer && s.render is None && s.render_frame is None,
{
}

/// The profiler writes to the value of the first flag for it that has
/// one.
pub proof fn lemma_the_first_profile_path_counts(args: Seq<Seq<char>>, i: int)
    requires
        0 <= i,
        i + 1 < args.len(),
        args[i] == "--dhat-out"@,
        forall|j: int| 0 <= j < i ==> #[trigger] args[j] != "--dhat-out"@,
    ensures
        profile_path(args) == args[i + 1],
    decreases i,
{
    if i > 0 {
        let rest = args.skip(1);
        assert(args[0] != "--dhat-out"@);
        assert forall|j: int| 0 <= j < i - 1 implies #[trigger] rest[j] != "--dhat-out"@ by {
            assert(rest[j] == args[j + 1]);
        }
        lemma_the_first_profile_path_counts(rest, i - 1);
    }
}

/// Without such a flag the profiler writes to its usual place.
pub proof fn lemma_profiles_have_a_usual_place(args: Seq<Seq<char>>)
    requires
        forall|j: int| 0 <= j < args.len() ==> #[trigger] args[j] != "--dhat-out"@,
    ensures
        profile_path(args) == "target/perf/dhat-heap.json"@,
    decreases args.len(),
{
    if args.len() > 0 {
        let rest = args.skip(1);
        assert(args[0] != "--dhat-out"@);
        assert forall|j: int| 0 <= j < rest.len() implies #[trigger] rest[j] != "--dhat-out"@ by {
            assert(rest[j] == args[j + 1]);
        }
        lemma_profiles_have_a_usual_place(rest);
    }
}

// ---------------------------------------------------------------------------
// Backlog
// ---------------------------------------------------------------------------

/// February has a day more in the years that four divides, but not in
/// those that a hundred divides unless four hundred does; April, June,
/// September and November have thirty days and the rest thirty-one.
pub proof fn lemma_months_have_their_days(y: int)
    ensures
        civil_days(y, 3, 1) - civil_days(y, 2, 1) == if y % 4 == 0 && (y % 100 != 0 || y % 400
            == 0) {
            29int
        } else {
            28
        },
        civil_days(y, 2, 1) - civil_days(y, 1, 1) == 31,
        civil_days(y, 4, 1) - civil_days(y, 3, 1) == 31,
        civil_days(y, 5, 1) - civil_days(y, 4, 1) == 30,
        civil_days(y, 6, 1) - civil_days(y, 5, 1) == 31,
        civil_days(y, 7, 1) - civil_days(y, 6, 1) == 30,
        civil_days(y, 8, 1) - civil_days(y, 7, 1) == 31,
        civil_days(y, 9, 1) - civil_days(y, 8, 1) == 31,
        civil_days(y, 10, 1) - civil_days(y, 9, 1) == 30,
        civil_days(y, 11, 1) - civil_days(y, 10, 1) == 31,
        civil_days(y, 12, 1) - civil_days(y, 11, 1) == 30,
        civil_days(y + 1, 1, 1) - civil_days(y, 12, 1) == 31,
        civil_days(1970, 1, 1) == 0,
{
    crate::calendar::lemma_days_are_consecutive(y, 12, 1);
    reveal_with_fuel(crate::calendar::days_before_month, 13);
}

/// The last position of a pattern is one, and none comes after it.
proof fn lemma_last_position(s: Seq<char>, pat: Seq<char>, n: int, i: int)
    requires
        0 <= i <= n,
        stands_at(s, pat, i),
        forall|j: int| i < j <= n ==> !#[trigger] stands_at(s, pat, j),
    ensures
        last_at(s, pat, n) == Some(i),
    decreases n - i,
{
    if i < n {
        assert(!stands_at(s, pat, n));
        lemma_last_position(s, pat, n - 1, i);
    }
}

proof fn lemma_no_position(s: Seq<char>, pat: Seq<char>, n: int)
    requires
        forall|j: int| 0 <= j <= n ==> !#[trigger] stands_at(s, pat, j),
    ensures
        last_at(s, pat, n) is None,
    decreases n + 1,
{
    if n >= 0 {
        assert(!stands_at(s, pat, n));
        lemma_no_position(s, pat, n - 1);
    }
}

/// An unchecked box makes an item. Behind the last marker of the line the
/// day is read; where there is one, the text is what stands before the
/// marker, else the whole line.
pub proof fn lemma_items_have_texts_and_days(line: Seq<char>, rest: Seq<char>, i: int)
    requires
        trim(line) == "- [ ] "@ + rest,
        0 <= i <= rest.len(),
        stands_at(rest, "Added "@, i),
        forall|j: int| i < j <= rest.len() ==> !#[trigger] stands_at(rest, "Added "@, j),
    ensures
        ({
            let day = date_days(date_run(rest.skip(i + 6)));
            item_of(line) == Some(
                (
                    if day is Some {
                        trim_end(rest.take(i))
                    } else {
                        trim(rest)
                    },
                    day,
                ),
            )
        }),
{
    reveal_strlit("- [ ] ");
    reveal_strlit("Added ");
    let t = trim(line);
    assert("- [ ] "@ =~= t.subrange(0, 6));
    assert(t.skip(6) =~= rest);
    lemma_last_position(rest, "Added "@, rest.len() as int, i);
}

/// An item without a marker has no day, and a line without an unchecked
/// box is no item.
pub proof fn lemma_items_without_a_marker_have_no_day(line: Seq<char>, rest: Seq<char>)
    ensures
        trim(line) == "- [ ] "@ + rest && (forall|j: int|
            0 <= j <= rest.len() ==> !#[trigger] stands_at(rest, "Added "@, j)) ==> item_of(line)
            == Some((trim(rest), None::<i64>)),
        !"- [ ] "@.is_prefix_of(trim(line)) ==> item_of(line) is None,
{
    reveal_strlit("- [ ] ");
    if trim(line) == "- [ ] "@ + rest && (forall|j: int|
        0 <= j <= rest.len() ==> !#[trigger] stands_at(rest, "Added "@, j)) {
        let t = trim(line);
        assert("- [ ] "@ =~= t.subrange(0, 6));
        assert(t.skip(6) =~= rest);
        lemma_no_position(rest, "Added "@, rest.len() as int);
    }
}

/// A date is the longest run of digits and dashes.
pub proof fn lemma_dates_run_over_digits_and_dashes(s: Seq<char>)
    ensures
        date_run(s).is_prefix_of(s),
        forall|i: int|
            0 <= i < date_run(s).len() ==> ('0' <= #[trigger] date_run(s)[i] <= '9' || date_run(
                s,
            )[i] == '-'),
        date_run(s).len() < s.len() ==> !('0' <= s[date_run(s).len() as int] <= '9') && s[date_run(
            s,
        ).len() as int] != '-',
    decreases s.len(),
{
    if s.len() > 0 && crate::backlog::date_char(s[0]) {
        let t = s.drop_first();
        lemma_dates_run_over_digits_and_dashes(t);
        let (run, tail) = (date_run(s), date_run(t));
        assert(run =~= seq![s[0]] + tail);
        assert forall|i: int| 0 <= i < run.len() implies #[trigger] run[i] == s[i] by {
            if i > 0 {
                assert(tail[i - 1] == t[i - 1]);
            }
        }
        assert forall|i: int| 0 <= i < run.len() implies ('0' <= #[trigger] run[i] <= '9' || run[i]
            == '-') by {
            if i > 0 {
                assert(run[i] == tail[i - 1]);
            }
        }
        assert(run =~= s.subrange(0, run.len() as int));
        if run.len() < s.len() {
            assert(t[tail.len() as int] == s[run.len() as int]);
        }
    } else {
        assert(date_run(s) =~= s.subrange(0, 0));
    }
}

proof fn lemma_parts_push(s: Seq<char>, t: Seq<char>)
    requires
        !t.contains('-'),
    ensures
        dash_parts(s).len() > 0,
        dash_parts(s + t) == dash_parts(s).drop_last().push(dash_parts(s).last() + t),
    decreases t.len(),
{
    lemma_parts_exist(s);
    if t.len() == 0 {
        assert(s + t =~= s);
        assert(dash_parts(s).last() + t =~= dash_parts(s).last());
        assert(dash_parts(s).drop_last().push(dash_parts(s).last()) =~= dash_parts(s));
    } else {
        let front = t.drop_last();
        if front.contains('-') {
            let i = choose|i: int| 0 <= i < front.len() && front[i] == '-';
            assert(t[i] == '-');
        }
        assert(t.contains(t.last()));
        lemma_parts_push(s, front);
        assert((s + t).drop_last() =~= s + front);
        assert((s + t).last() == t.last());
        let p = dash_parts(s + front);
        assert(p.drop_last() =~= dash_parts(s).drop_last());
        assert((dash_parts(s).last() + front).push(t.last()) =~= dash_parts(s).last() + t);
    }
}

proof fn lemma_parts_exist(s: Seq<char>)
    ensures
        dash_parts(s).len() > 0,
    decreases s.len(),
{
    if s.len() > 0 {
        lemma_parts_exist(s.drop_last());
    }
}

/// A date is a year, a month of twelve and a day of up to thirty-one,
/// with dashes between; it names its day of the calendar. Out of those
/// ranges, or with anything but numerals, it names none.
pub proof fn lemma_dates_name_their_day(y: Seq<char>, m: Seq<char>, d: Seq<char>)
    requires
        !y.contains('-'),
        !m.contains('-'),
        !d.contains('-'),
    ensures
        ({
            let date = y + seq!['-'] + m + seq!['-'] + d;
            match (parsed_u64(y), parsed_u64(m), parsed_u64(d)) {
                (Some(a), Some(b), Some(c)) => {
                    &&& 1 <= b <= 12 && 1 <= c <= 31 && civil_days(a as int, b as int, c as int)
                        <= i64::MAX ==> date_days(date) == Some(
                        civil_days(a as int, b as int, c as int) as i64,
                    )
                    &&& b < 1 || b > 12 || c < 1 || c > 31 ==> date_days(date) is None
                },
                _ => date_days(date) is None,
            }
        }),
{
    let none = Seq::<char>::empty();
    assert(none + y =~= y);
    lemma_parts_push(none, y);
    assert(dash_parts(none) =~= seq![none]);
    assert(dash_parts(y) =~= seq![y]);
    let s1 = y + seq!['-'];
    assert(s1.drop_last() =~= y);
    assert(dash_parts(s1) =~= seq![y, none]);
    lemma_parts_push(s1, m);
    assert(none + m =~= m);
    let s2 = s1 + m;
    assert(dash_parts(s2) =~= seq![y, m]);
    let s3 = s2 + seq!['-'];
    assert(s3.drop_last() =~= s2);
    assert(dash_parts(s3) =~= seq![y, m, none]);
    lemma_parts_push(s3, d);
    assert(none + d =~= d);
    assert(dash_parts(s3 + d) =~= seq![y, m, d]);
}

/// Every line that is an item is listed, and nothing else is.
pub proof fn lemma_every_item_is_listed(
    all: Seq<Seq<char>>,
    n: int,
    item: (Seq<char>, Option<i64>),
)
    requires
        0 <= n <= all.len(),
    ensures
        items_of(all, n).contains(item) <==> exists|i: int|
            0 <= i < n && item_of(#[trigger] all[i]) == Some(item),
    decreases n,
{
    if n > 0 {
        lemma_every_item_is_listed(all, n - 1, item);
        let front = items_of(all, n - 1);
        let list = items_of(all, n);
        match item_of(all[n - 1]) {
            Some(x) => {
                assert(list == front.push(x));
                assert(list[front.len() as int] == x);
                if front.contains(item) {
                    let k = choose|k: int| 0 <= k < front.len() && front[k] == item;
                    assert(list[k] == item);
                }
                if list.contains(item) && item != x {
                    let k = choose|k: int| 0 <= k < list.len() && list[k] == item;
                    assert(front[k] == item);
                }
            },
            None => {},
        }
    }
}

// ---------------------------------------------------------------------------
// Dependency listings
// ---------------------------------------------------------------------------

/// A line names a package by its first two words: a name, and a version
/// behind a `v`. Other lines name none.
pub proof fn lemma_lines_name_packages(line: Seq<char>, name: Seq<char>, version: Seq<char>)
    ensures
        name.len() > 0 && token(line) == name && token(after_token(line)) == seq!['v'] + version
            ==> package_of(line) == Some((name, version)),
        token(line).len() == 0 ==> package_of(line) is None,
        token(after_token(line)).len() == 0 || token(after_token(line))[0] != 'v' ==> package_of(
            line,
        ) is None,
{
    let v = seq!['v'] + version;
    assert(v[0] == 'v');
    assert(v.drop_first() =~= version);
}

/// A listing names a package if and only if one of its lines does.
pub proof fn lemma_listings_name_what_lines_name(tree: Seq<char>, p: (Seq<char>, Seq<char>))
    ensures
        tree_packages(tree).contains(p) <==> exists|i: int|
            0 <= i < lines(tree).len() && package_of(#[trigger] lines(tree)[i]) == Some(p),
{
    lemma_lines_gather(lines(tree), lines(tree).len() as int, p);
}

proof fn lemma_lines_gather(all: Seq<Seq<char>>, n: int, p: (Seq<char>, Seq<char>))
    requires
        0 <= n <= all.len(),
    ensures
        packages_of(all, n).contains(p) <==> exists|i: int|
            0 <= i < n && package_of(#[trigger] all[i]) == Some(p),
    decreases n,
{
    if n > 0 {
        lemma_lines_gather(all, n - 1, p);
        assert(all[n - 1] == all[n - 1]);
    }
}

/// The external packages are those that are no member, in order.
pub proof fn lemma_members_are_not_external(
    list: Seq<(Seq<char>, Seq<char>)>,
    members: Seq<String>,
)
    ensures
        external(list, members) == list.filter(
            |p: (Seq<char>, Seq<char>)| !listed(members, p.0),
        ),
    decreases list.len(),
{
    reveal(Seq::filter);
    if list.len() > 0 {
        lemma_members_are_not_external(list.drop_last(), members);
    }
}

/// The versions that a list has of a name, in order.
pub open spec fn versions_of(list: Seq<(Seq<char>, Seq<char>)>, name: Seq<char>) -> Seq<Seq<char>>
    decreases list.len(),
{
    if list.len() == 0 {
        Seq::empty()
    } else if list.last().0 == name {
        versions_of(list.drop_last(), name).push(list.last().1)
    } else {
        versions_of(list.drop_last(), name)
    }
}

proof fn lemma_absent_names_have_no_versions(list: Seq<(Seq<char>, Seq<char>)>, name: Seq<char>)
    requires
        forall|i: int| 0 <= i < list.len() ==> (#[trigger] list[i]).0 != name,
    ensures
        versions_of(list, name).len() == 0,
    decreases list.len(),
{
    if list.len() > 0 {
        assert(list[list.len() - 1].0 != name);
        lemma_absent_names_have_no_versions(list.drop_last(), name);
    }
}

/// Some groups have a name.
spec fn has(groups: Seq<(Seq<char>, Seq<Seq<char>>)>, name: Seq<char>) -> bool {
    exists|k: int| 0 <= k < groups.len() && (#[trigger] groups[k]).0 == name
}

/// Groups gather a list: each has all versions of its name, and every
/// name of the list has one.
spec fn gathers(list: Seq<(Seq<char>, Seq<char>)>, groups: Seq<(Seq<char>, Seq<Seq<char>>)>) -> bool {
    &&& forall|k: int|
        0 <= k < groups.len() ==> (#[trigger] groups[k]).1 == versions_of(list, groups[k].0)
            && groups[k].1.len() > 0
    &&& forall|name: Seq<char>|
        #![trigger versions_of(list, name)]
        versions_of(list, name).len() > 0 ==> has(groups, name)
    &&& forall|j: int, k: int|
        0 <= j < k < groups.len() ==> (#[trigger] groups[j]).0 != (#[trigger] groups[k]).0
}

proof fn lemma_known_name(
    list: Seq<(Seq<char>, Seq<char>)>,
    old: Seq<(Seq<char>, Seq<Seq<char>>)>,
)
    requires
        list.len() > 0,
        gathers(list.drop_last(), old),
        old.len() > 0,
        old.last().0 == list.last().0,
    ensures
        gathers(
            list,
            old.drop_last().push((list.last().0, old.last().1.push(list.last().1))),
        ),
{
    let (front, e) = (list.drop_last(), list.last());
    let at = old.len() - 1;
    let new = old.drop_last().push((e.0, old.last().1.push(e.1)));
    assert(old[at].1 == versions_of(front, e.0));
    assert forall|k: int| 0 <= k < new.len() implies (#[trigger] new[k]).1 == versions_of(
        list,
        new[k].0,
    ) && new[k].1.len() > 0 by {
        if k < at {
            assert(new[k] == old[k]);
            assert(old[k].0 != old[at].0);
        }
    }
    assert forall|name: Seq<char>|
        #![trigger versions_of(list, name)]
        versions_of(list, name).len() > 0 implies has(new, name) by {
        if name == e.0 {
            assert(new[at].0 == name);
        } else {
            assert(versions_of(front, name).len() > 0);
            let k = choose|k: int| 0 <= k < old.len() && (#[trigger] old[k]).0 == name;
            assert(new[k].0 == name);
        }
    }
    assert forall|j: int, k: int| 0 <= j < k < new.len() implies (#[trigger] new[j]).0 != (
    #[trigger] new[k]).0 by {
        assert(old[j].0 != old[k].0);
    }
}

proof fn lemma_new_name(
    list: Seq<(Seq<char>, Seq<char>)>,
    old: Seq<(Seq<char>, Seq<Seq<char>>)>,
)
    requires
        list.len() > 0,
        gathers(list.drop_last(), old),
        versions_of(list.drop_last(), list.last().0).len() == 0,
    ensures
        gathers(list, old.push((list.last().0, seq![list.last().1]))),
{
    let (front, e) = (list.drop_last(), list.last());
    let new = old.push((e.0, seq![e.1]));
    let at = old.len() as int;
    assert(versions_of(list, e.0) =~= seq![e.1]);
    assert forall|k: int| 0 <= k < new.len() implies (#[trigger] new[k]).1 == versions_of(
        list,
        new[k].0,
    ) && new[k].1.len() > 0 by {
        if k < at {
            assert(new[k] == old[k]);
            assert(old[k].1 == versions_of(front, old[k].0));
        }
    }
    assert forall|name: Seq<char>|
        #![trigger versions_of(list, name)]
        versions_of(list, name).len() > 0 implies has(new, name) by {
        if name == e.0 {
            assert(new[at].0 == name);
        } else {
            assert(versions_of(front, name).len() > 0);
            let k = choose|k: int| 0 <= k < old.len() && (#[trigger] old[k]).0 == name;
            assert(new[k].0 == name);
        }
    }
    assert forall|j: int, k: int| 0 <= j < k < new.len() implies (#[trigger] new[j]).0 != (
    #[trigger] new[k]).0 by {
        assert(old[j].1 == versions_of(front, old[j].0));
        if k < at {
            assert(old[j].0 != old[k].0);
        }
    }
}

proof fn lemma_groups(list: Seq<(Seq<char>, Seq<char>)>)
    requires
        ascending(list),
    ensures
        gathers(list, by_name(list)),
        list.len() > 0 ==> by_name(list).len() > 0 && by_name(list).last().0 == list.last().0,
    decreases list.len(),
{
    if list.len() > 0 {
        let front = list.drop_last();
        let e = list.last();
        assert forall|i: int, j: int| 0 <= i < j < front.len() implies package_less(
            #[trigger] front[i],
            #[trigger] front[j],
        ) by {
            assert(package_less(list[i], list[j]));
        }
        lemma_groups(front);
        let old = by_name(front);
        if old.len() > 0 && old.last().0 == e.0 {
            lemma_known_name(list, old);
        } else {
            assert forall|i: int| 0 <= i < front.len() implies (#[trigger] front[i]).0 != e.0 by {
                lemma_apart(list, i);
            }
            lemma_absent_names_have_no_versions(front, e.0);
            lemma_new_name(list, old);
        }
    }
}

/// Where the last two names differ, no earlier package has the last name.
proof fn lemma_apart(list: Seq<(Seq<char>, Seq<char>)>, i: int)
    requires
        ascending(list),
        0 <= i < list.len() - 1,
        list[list.len() - 2].0 != list.last().0,
    ensures
        list[i].0 != list.last().0,
{
    let (n, m) = (list.len() - 1, list.len() - 2);
    assert(package_less(list[m], list[n]));
    assert(text_less(list[m].0, list[n].0));
    if i < m {
        assert(package_less(list[i], list[m]));
        crate::chars::lemma_text_order(list[i].0, list[m].0, list[n].0);
        crate::chars::lemma_text_order(list[m].0, list[n].0, list[m].0);
    }
}

proof fn lemma_several(groups: Seq<(Seq<char>, Seq<Seq<char>>)>, x: (Seq<char>, Seq<Seq<char>>))
    ensures
        several(groups).contains(x) <==> groups.contains(x) && x.1.len() > 1,
    decreases groups.len(),
{
    if groups.len() > 0 {
        let front = groups.drop_last();
        lemma_several(front, x);
        let (old, new) = (several(front), several(groups));
        let last = groups.len() - 1;
        if groups.last().1.len() > 1 {
            assert(new == old.push(groups.last()));
            assert(new[old.len() as int] == groups.last());
            if old.contains(x) {
                let k = choose|k: int| 0 <= k < old.len() && old[k] == x;
                assert(new[k] == x);
            }
            if new.contains(x) && x != groups.last() {
                let k = choose|k: int| 0 <= k < new.len() && new[k] == x;
                assert(old[k] == x);
            }
        }
        if front.contains(x) {
            let k = choose|k: int| 0 <= k < front.len() && front[k] == x;
            assert(groups[k] == x);
        }
        if groups.contains(x) && x != groups.last() {
            let k = choose|k: int| 0 <= k < groups.len() && groups[k] == x;
            assert(front[k] == x);
        }
        assert(groups[last] == groups.last());
    }
}

/// A name is a duplicate if and only if the packages have it in more than
/// one version, and it comes with all of them, in order.
pub proof fn lemma_duplicates_have_several_versions(
    list: Seq<(Seq<char>, Seq<char>)>,
    name: Seq<char>,
    versions: Seq<Seq<char>>,
)
    requires
        ascending(list),
    ensures
        several(by_name(list)).contains((name, versions)) <==> versions == versions_of(list, name)
            && versions.len() > 1,
{
    lemma_groups(list);
    lemma_several(by_name(list), (name, versions));
    let groups = by_name(list);
    if groups.contains((name, versions)) {
        let k = choose|k: int| 0 <= k < groups.len() && groups[k] == (name, versions);
        assert(groups[k].1 == versions_of(list, groups[k].0));
    }
    if versions == versions_of(list, name) && versions.len() > 1 {
        assert(has(groups, name));
        let k = choose|k: int| 0 <= k < groups.len() && (#[trigger] groups[k]).0 == name;
        assert(groups[k] == (name, versions));
    }
}

// ---------------------------------------------------------------------------
// Probes
// ---------------------------------------------------------------------------

proof fn lemma_first_fn(tokens: Seq<Lexed>, from: int, f: int)
    requires
        0 <= from <= f < tokens.len(),
        tokens[f] == Lexed::Ident("fn"@),
        forall|j: int| from <= j < f ==> #[trigger] tokens[j] != Lexed::Ident("fn"@),
    ensures
        fn_from(tokens, from) == Some(f),
    decreases f - from,
{
    if from < f {
        assert(tokens[from] != Lexed::Ident("fn"@));
        lemma_first_fn(tokens, from + 1, f);
    }
}

proof fn lemma_first_body(tokens: Seq<Lexed>, from: int, b: int)
    requires
        0 <= from <= b < tokens.len(),
        tokens[b] is Braces,
        forall|j: int| from <= j < b ==> !(#[trigger] tokens[j] is Braces),
    ensures
        body_from(tokens, from) == Some(b),
    decreases b - from,
{
    if from < b {
        assert(!(tokens[from] is Braces));
        lemma_first_body(tokens, from + 1, b);
    }
}

proof fn lemma_no_fn(tokens: Seq<Lexed>, from: int)
    requires
        0 <= from,
        forall|j: int| from <= j < tokens.len() ==> #[trigger] tokens[j] != Lexed::Ident("fn"@),
    ensures
        fn_from(tokens, from) is None,
    decreases tokens.len() - from,
{
    if from < tokens.len() {
        assert(tokens[from] != Lexed::Ident("fn"@));
        lemma_no_fn(tokens, from + 1);
    }
}

proof fn lemma_no_body(tokens: Seq<Lexed>, from: int)
    requires
        0 <= from,
        forall|j: int| from <= j < tokens.len() ==> !(#[trigger] tokens[j] is Braces),
    ensures
        body_from(tokens, from) is None,
    decreases tokens.len() - from,
{
    if from < tokens.len() {
        assert(!(tokens[from] is Braces));
        lemma_no_body(tokens, from + 1);
    }
}

/// A probed function gets a guard that carries its name as the first
/// statement of its body, the first braces behind the name; all else
/// stays.
pub proof fn lemma_probes_guard_the_body(tokens: Seq<Lexed>, f: int, b: int, name: Seq<char>)
    requires
        0 <= f,
        f + 1 < b < tokens.len(),
        tokens[f] == Lexed::Ident("fn"@),
        forall|j: int| 0 <= j < f ==> #[trigger] tokens[j] != Lexed::Ident("fn"@),
        tokens[f + 1] == Lexed::Ident(name),
        tokens[b] is Braces,
        forall|j: int| f < j < b ==> !(#[trigger] tokens[j] is Braces),
    ensures
        expanded(tokens) matches Ok(out) && {
            &&& out.len() == tokens.len()
            &&& forall|j: int| 0 <= j < out.len() && j != b ==> #[trigger] out[j] == tokens[j]
            &&& out[b] == Lexed::Braces(
                seq![
                    joined(
                        seq![
                            "#[cfg(feature = \"perf-alloc\")] let _probe = ::bw_core::alloc_probe::Probe::new(\""@,
                            name,
                            "\");"@,
                        ],
                    ),
                ] + tokens[b]->Braces_0,
            )
        },
{
    lemma_first_fn(tokens, 0, f);
    lemma_first_body(tokens, f + 1, b);
}

/// What is no function, has no name or has no body is refused, each with
/// its reason.
pub proof fn lemma_probes_need_a_function(tokens: Seq<Lexed>, f: int)
    ensures
        (forall|j: int| 0 <= j < tokens.len() ==> #[trigger] tokens[j] != Lexed::Ident("fn"@)) ==> (
        expanded(tokens) matches Err(e) && e == "#[alloc_probe] requires a function item"@),
        0 <= f < tokens.len() && tokens[f] == Lexed::Ident("fn"@) && (forall|j: int|
            0 <= j < f ==> #[trigger] tokens[j] != Lexed::Ident("fn"@)) ==> {
            &&& f + 1 == tokens.len() || !(tokens[f + 1] is Ident) ==> (expanded(
                tokens,
            ) matches Err(e) && e == "#[alloc_probe]: expected a function name after `fn`"@)
            &&& f + 1 < tokens.len() && tokens[f + 1] is Ident && (forall|j: int|
                f < j < tokens.len() ==> !(#[trigger] tokens[j] is Braces)) ==> (expanded(
                tokens,
            ) matches Err(e) && e == "#[alloc_probe]: function has no body to probe"@)
        },
{
    if forall|j: int| 0 <= j < tokens.len() ==> #[trigger] tokens[j] != Lexed::Ident("fn"@) {
        lemma_no_fn(tokens, 0);
    }
    if 0 <= f < tokens.len() && tokens[f] == Lexed::Ident("fn"@) && (forall|j: int|
        0 <= j < f ==> #[trigger] tokens[j] != Lexed::Ident("fn"@)) {
        lemma_first_fn(tokens, 0, f);
        if f + 1 < tokens.len() && (forall|j: int|
            f < j < tokens.len() ==> !(#[trigger] tokens[j] is Braces)) {
            lemma_no_body(tokens, f + 1);
        }
    }
}

/// What is refused becomes an error that quotes the message.
pub proof fn lemma_refused_items_quote_the_message(message: Seq<char>)
    ensures
        error_item(message) == "compile_error!(\""@ + message + "\");"@,
{
    let parts = seq!["compile_error!(\""@, message, "\");"@];
    assert(parts.drop_last() =~= seq!["compile_error!(\""@, message]);
    assert(parts.drop_last().drop_last() =~= seq!["compile_error!(\""@]);
    assert(parts.drop_last().drop_last().drop_last() =~= Seq::empty());
    reveal_with_fuel(joined, 4);
    assert(joined(parts) =~= "compile_error!(\""@ + message + "\");"@);
}

// ---------------------------------------------------------------------------
// Allocations
// ---------------------------------------------------------------------------

/// The bytes that events allocate, less those that they free.
pub open spec fn net_bytes(events: Seq<Event>) -> int
    decreases events.len(),
{
    if events.len() == 0 {
        0
    } else {
        net_bytes(events.drop_last()) + match events.last() {
            Event::Alloc(n) => n as int,
            Event::Dealloc(n) => -n,
        }
    }
}

/// A ledger counts the allocations and not the frees, and has in use what
/// was allocated less what was freed.
pub proof fn lemma_ledgers_count_allocations(events: Seq<Event>)
    ensures
        counted(events).count == events.filter(|e: Event| e is Alloc).len()
            % 0x1_0000_0000_0000_0000,
        counted(events).in_use == net_bytes(events),
        counted(events).peak >= 0,
    decreases events.len(),
{
    reveal(Seq::filter);
    if events.len() > 0 {
        let front = events.drop_last();
        lemma_ledgers_count_allocations(front);
        let n = front.filter(|e: Event| e is Alloc).len() as int;
        vstd::arithmetic::div_mod::lemma_add_mod_noop(n, 1, 0x1_0000_0000_0000_0000);
        vstd::arithmetic::div_mod::lemma_small_mod(1, 0x1_0000_0000_0000_0000);
    }
}

} // verus!

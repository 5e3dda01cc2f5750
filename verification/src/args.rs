//! The flags every gallery binary understands, and the scenes each one
//! offers.
use vstd::prelude::*;
use vstd::string::*;
use crate::chars::parse_u64;
use crate::doc::Doc;
use crate::text::{chars_of, same};

verus! {

use crate::chars::parsed_u64;
use crate::doc::joined;
use crate::table::texts;

/// The gallery binaries.
#[derive(Debug, Clone, Copy, PartialEq, Eq, Structural)]
pub enum Gallery {
    /// Bouncing particles.
    Demo,
    /// Golden-ratio trees.
    Tree,
    /// Generated tile maps.
    Maps,
    /// Walking characters.
    Walker,
}

/// The seed when none is given.
pub const DEFAULT_SEED: u64 = 42;

/// The ticks before measurement starts.
pub const WARMUP_TICKS: u64 = 60;

/// A run of a gallery.
#[derive(Debug, Clone, PartialEq)]
pub struct Args {
    pub scene: String,
    pub ticks: u64,
    pub seed: u64,
    pub json: bool,
    pub alloc_pass: bool,
    pub dhat_out: Option<String>,
    pub render: Option<String>,
    pub render_frame: Option<String>,
    pub viewer: bool,
    pub viewer_shot: Option<String>,
}

/// What the flags ask for.
#[derive(Debug, Clone, PartialEq)]
pub enum Request {
    /// List the scenes and stop.
    Scenes,
    /// Run.
    Run(Args),
}

/// A run, as texts.
pub struct Settings {
    pub scene: Seq<char>,
    pub ticks: u64,
    pub seed: u64,
    pub json: bool,
    pub alloc_pass: bool,
    pub dhat_out: Option<Seq<char>>,
    pub render: Option<Seq<char>>,
    pub render_frame: Option<Seq<char>>,
    pub viewer: bool,
    pub viewer_shot: Option<Seq<char>>,
}

/// An optional text.
pub open spec fn opt(s: Option<String>) -> Option<Seq<char>> {
    match s {
        Some(v) => Some(v@),
        None => None,
    }
}

impl View for Args {
    type V = Settings;

    open spec fn view(&self) -> Settings {
        Settings {
            scene: self.scene@,
            ticks: self.ticks,
            seed: self.seed,
            json: self.json,
            alloc_pass: self.alloc_pass,
            dhat_out: opt(self.dhat_out),
            render: opt(self.render),
            render_frame: opt(self.render_frame),
            viewer: self.viewer,
            viewer_shot: opt(self.viewer_shot),
        }
    }
}

/// What reading the flags comes to.
pub enum Asked {
    /// List the scenes and stop.
    Scenes,
    /// Run.
    Run(Settings),
    /// The flags are refused, for this reason.
    Refused(Seq<char>),
}

/// The scene ids a gallery accepts.
pub open spec fn offers(g: Gallery, id: Seq<char>) -> bool {
    match g {
        Gallery::Demo => id == "bounce"@ || id == "bounce-big"@,
        Gallery::Tree => id == "tree"@ || id == "tree-storm"@ || id == "tree-grove"@,
        Gallery::Maps => id == "meadow"@ || id == "archipelago"@ || id == "badlands"@ || id == "blank"@,
        Gallery::Walker => {
            ||| id == "walk"@
            ||| id == "walk-run"@
            ||| id == "carry"@
            ||| id == "crowd"@
            ||| id == "mandala-100"@
            ||| id == "mandala-1k"@
            ||| id == "mandala-10k"@
        },
    }
}

/// The scene a gallery runs when none is given.
pub open spec fn first_scene(g: Gallery) -> Seq<char> {
    match g {
        Gallery::Demo => "bounce"@,
        Gallery::Tree => "tree"@,
        Gallery::Maps => "meadow"@,
        Gallery::Walker => "walk"@,
    }
}

/// The line that lists a gallery's scenes.
pub open spec fn listing(g: Gallery) -> Seq<char> {
    match g {
        Gallery::Demo => "bounce bounce-big"@,
        Gallery::Tree => "tree tree-storm tree-grove"@,
        Gallery::Maps => "meadow archipelago badlands blank"@,
        Gallery::Walker => "walk walk-run crowd mandala-100 mandala-1k mandala-10k"@,
    }
}

/// The settings before any flag is read: 600 ticks, or the one pass of a
/// static map.
pub open spec fn defaults(g: Gallery) -> Settings {
    Settings {
        scene: Seq::empty(),
        ticks: if g is Maps {
            1
        } else {
            600
        },
        seed: DEFAULT_SEED,
        json: false,
        alloc_pass: false,
        dhat_out: None,
        render: None,
        render_frame: None,
        viewer: false,
        viewer_shot: None,
    }
}

/// Whether a gallery's flag takes a value.
pub open spec fn takes_value(g: Gallery, flag: Seq<char>) -> bool {
    ||| flag == "--scene"@
    ||| flag == "--ticks"@
    ||| flag == "--seed"@
    ||| flag == "--dhat-out"@
    ||| flag == "--render"@ && !(g is Demo)
    ||| flag == "--render-frame"@ && (g is Tree || g is Walker)
    ||| flag == "--viewer-shot"@ && (g is Tree || g is Walker)
}

/// The settings with a flag's value taken in, or why the value is
/// refused.
pub open spec fn with_value(s: Settings, flag: Seq<char>, v: Seq<char>) -> Result<
    Settings,
    Seq<char>,
> {
    if flag == "--scene"@ {
        Ok(Settings { scene: v, ..s })
    } else if flag == "--ticks"@ {
        match parsed_u64(v) {
            Some(n) => Ok(Settings { ticks: n, ..s }),
            None => Err(joined(seq!["bad --ticks value: "@, v])),
        }
    } else if flag == "--seed"@ {
        match parsed_u64(v) {
            Some(n) => Ok(Settings { seed: n, ..s }),
            None => Err(joined(seq!["bad --seed value: "@, v])),
        }
    } else if flag == "--dhat-out"@ {
        Ok(Settings { dhat_out: Some(v), ..s })
    } else if flag == "--render"@ {
        Ok(Settings { render: Some(v), ..s })
    } else if flag == "--render-frame"@ {
        Ok(Settings { render_frame: Some(v), ..s })
    } else {
        Ok(Settings { viewer_shot: Some(v), ..s })
    }
}

/// All flags are read: a missing scene becomes the gallery's first, and
/// an unknown one is refused.
pub open spec fn settled(g: Gallery, s: Settings) -> Asked {
    let scene = if s.scene.len() == 0 {
        first_scene(g)
    } else {
        s.scene
    };
    if offers(g, scene) {
        Asked::Run(Settings { scene, ..s })
    } else {
        Asked::Refused(joined(seq!["unknown scene: "@, scene, " (try --perf-scenes)"@]))
    }
}

/// Flags are read in order; the first that lists the scenes or is
/// refused settles the matter.
pub open spec fn asked(g: Gallery, args: Seq<Seq<char>>, s: Settings) -> Asked
    decreases args.len(),
{
    if args.len() == 0 {
        settled(g, s)
    } else {
        let flag = args[0];
        if flag == "--perf-headless"@ {
            asked(g, args.skip(1), s)
        } else if flag == "--perf-scenes"@ {
            Asked::Scenes
        } else if flag == "--json"@ {
            asked(g, args.skip(1), Settings { json: true, ..s })
        } else if flag == "--perf-alloc"@ {
            asked(g, args.skip(1), Settings { alloc_pass: true, ..s })
        } else if flag == "--viewer"@ && (g is Tree || g is Walker) {
            asked(g, args.skip(1), Settings { viewer: true, ..s })
        } else if takes_value(g, flag) {
            if args.len() < 2 {
                Asked::Refused(joined(seq![flag, " needs a value"@]))
            } else {
                match with_value(s, flag, args[1]) {
                    Ok(t) => asked(g, args.skip(2), t),
                    Err(e) => Asked::Refused(e),
                }
            }
        } else {
            Asked::Refused(joined(seq!["unknown argument: "@, flag]))
        }
    }
}

/// The result is what the flags ask for.
pub open spec fn answers(a: Asked, r: Result<Request, String>) -> bool {
    match a {
        Asked::Scenes => r matches Ok(Request::Scenes),
        Asked::Run(s) => r matches Ok(Request::Run(x)) && x@ == s,
        Asked::Refused(e) => r matches Err(t) && t@ == e,
    }
}

/// Whether a gallery offers a scene.
pub fn has_scene(g: Gallery, id: &str) -> (r: bool)
    ensures
        r == offers(g, id@),
{
    match g {
        Gallery::Demo => same(id, "bounce") || same(id, "bounce-big"),
        Gallery::Tree => same(id, "tree") || same(id, "tree-storm") || same(id, "tree-grove"),
        Gallery::Maps => same(id, "meadow") || same(id, "archipelago") || same(id, "badlands") || same(
            id,
            "blank",
        ),
        Gallery::Walker => same(id, "walk") || same(id, "walk-run") || same(id, "carry") || same(
            id,
            "crowd",
        ) || same(id, "mandala-100") || same(id, "mandala-1k") || same(id, "mandala-10k"),
    }
}

fn default_scene(g: Gallery) -> (r: &'static str)
    ensures
        r@ == first_scene(g),
{
    match g {
        Gallery::Demo => "bounce",
        Gallery::Tree => "tree",
        Gallery::Maps => "meadow",
        Gallery::Walker => "walk",
    }
}

/// The line that lists a gallery's scenes.
pub fn scene_listing(g: Gallery) -> (r: &'static str)
    ensures
        r@ == listing(g),
{
    match g {
        Gallery::Demo => "bounce bounce-big",
        Gallery::Tree => "tree tree-storm tree-grove",
        Gallery::Maps => "meadow archipelago badlands blank",
        Gallery::Walker => "walk walk-run crowd mandala-100 mandala-1k mandala-10k",
    }
}

fn wants_value(g: Gallery, flag: &str) -> (r: bool)
    ensures
        r == takes_value(g, flag@),
{
    same(flag, "--scene") || same(flag, "--ticks") || same(flag, "--seed") || same(
        flag,
        "--dhat-out",
    ) || (same(flag, "--render") && g != Gallery::Demo) || (same(flag, "--render-frame") && (g
        == Gallery::Tree || g == Gallery::Walker)) || (same(flag, "--viewer-shot") && (g
        == Gallery::Tree || g == Gallery::Walker))
}

fn two(a: &str, b: &str) -> (r: String)
    ensures
        r@ == joined(seq![a@, b@]),
{
    let mut d = Doc::new();
    d.put(a);
    d.put(b);
    proof {
        assert(d@ =~= seq![a@, b@]);
    }
    d.finish()
}

fn take_value(args: &mut Args, flag: &str, v: &String) -> (r: Option<String>)
    ensures
        match r {
            None => with_value(old(args)@, flag@, v@) == Ok::<Settings, Seq<char>>(final(args)@),
            Some(e) => with_value(old(args)@, flag@, v@) == Err::<Settings, Seq<char>>(e@),
        },
{
    let value = v.as_str().to_owned();
    if same(flag, "--scene") {
        args.scene = value;
    } else if same(flag, "--ticks") {
        match parse_u64(&chars_of(v.as_str())) {
            Some(n) => {
                args.ticks = n;
            },
            None => {
                return Some(two("bad --ticks value: ", v.as_str()));
            },
        }
    } else if same(flag, "--seed") {
        match parse_u64(&chars_of(v.as_str())) {
            Some(n) => {
                args.seed = n;
            },
            None => {
                return Some(two("bad --seed value: ", v.as_str()));
            },
        }
    } else if same(flag, "--dhat-out") {
        args.dhat_out = Some(value);
    } else if same(flag, "--render") {
        args.render = Some(value);
    } else if same(flag, "--render-frame") {
        args.render_frame = Some(value);
    } else {
        args.viewer_shot = Some(value);
    }
    None
}

fn settle(g: Gallery, args: Args) -> (r: Result<Request, String>)
    ensures
        answers(settled(g, args@), r),
{
    let mut args = args;
    if args.scene.as_str().is_empty() {
        args.scene = default_scene(g).to_owned();
    }
    if has_scene(g, args.scene.as_str()) {
        Ok(Request::Run(args))
    } else {
        let mut d = Doc::new();
        d.put("unknown scene: ");
        d.put(args.scene.as_str());
        d.put(" (try --perf-scenes)");
        proof {
            assert(d@ =~= seq!["unknown scene: "@, args.scene@, " (try --perf-scenes)"@]);
        }
        Err(d.finish())
    }
}

/// Read a gallery's flags.
pub fn parse_args(g: Gallery, args: &Vec<String>) -> (r: Result<Request, String>)
    ensures
        answers(asked(g, texts(args@), defaults(g)), r),
{
    let mut so_far = Args {
        scene: String::new(),
        ticks: if g == Gallery::Maps {
            1
        } else {
            600
        },
        seed: DEFAULT_SEED,
        json: false,
        alloc_pass: false,
        dhat_out: None,
        render: None,
        render_frame: None,
        viewer: false,
        viewer_shot: None,
    };
    let ghost all = texts(args@);
    let ghost whole = asked(g, all, defaults(g));
    let mut i: usize = 0;
    proof {
        assert(so_far.scene@ =~= Seq::<char>::empty());
        assert(all.skip(0) =~= all);
    }
    while i < args.len()
        invariant
            i <= args@.len(),
            all == texts(args@),
            whole == asked(g, all, defaults(g)),
            whole == asked(g, all.skip(i as int), so_far@),
        decreases args@.len() - i,
    {
        let flag = args[i].as_str();
        let ghost rest = all.skip(i as int);
        let ghost before = so_far@;
        proof {
            assert(rest[0] == flag@);
            assert(rest.skip(1) =~= all.skip(i + 1));
        }
        if same(flag, "--perf-headless") {
            i = i + 1;
        } else if same(flag, "--perf-scenes") {
            return Ok(Request::Scenes);
        } else if same(flag, "--json") {
            so_far.json = true;
            i = i + 1;
        } else if same(flag, "--perf-alloc") {
            so_far.alloc_pass = true;
            i = i + 1;
        } else if same(flag, "--viewer") && (g == Gallery::Tree || g == Gallery::Walker) {
            so_far.viewer = true;
            i = i + 1;
        } else if wants_value(g, flag) {
            if args.len() - i < 2 {
                return Err(two(flag, " needs a value"));
            }
            proof {
                assert(rest[1] == args@[i + 1]@);
                assert(rest.skip(2) =~= all.skip(i + 2));
            }
            match take_value(&mut so_far, flag, &args[i + 1]) {
                Some(e) => {
                    return Err(e);
                },
                None => {},
            }
            i = i + 2;
        } else {
            return Err(two("unknown argument: ", flag));
        }
    }
    proof {
        assert(all.skip(i as int) =~= Seq::<Seq<char>>::empty());
    }
    settle(g, so_far)
}

/// The value after the first profiler flag that has one.
pub open spec fn profile_path(args: Seq<Seq<char>>) -> Seq<char>
    decreases args.len(),
{
    if args.len() == 0 {
        "target/perf/dhat-heap.json"@
    } else if args[0] == "--dhat-out"@ && args.len() > 1 {
        args[1]
    } else {
        profile_path(args.skip(1))
    }
}

/// The profiler's output path, scanned from the raw flags so the
/// profiler can start before they are read.
pub fn dhat_out_path(args: &Vec<String>) -> (r: String)
    ensures
        r@ == profile_path(texts(args@)),
{
    let ghost all = texts(args@);
    let mut i: usize = 0;
    proof {
        assert(all.skip(0) =~= all);
    }
    while i < args.len()
        invariant
            i <= args@.len(),
            all == texts(args@),
            profile_path(all) == profile_path(all.skip(i as int)),
        decreases args@.len() - i,
    {
        let ghost rest = all.skip(i as int);
        proof {
            assert(rest[0] == args@[i as int]@);
            assert(rest.skip(1) =~= all.skip(i + 1));
        }
        if same(args[i].as_str(), "--dhat-out") && args.len() - i > 1 {
            proof {
                assert(rest[1] == args@[i + 1]@);
            }
            return args[i + 1].as_str().to_owned();
        }
        i = i + 1;
    }
    proof {
        assert(all.skip(i as int) =~= Seq::<Seq<char>>::empty());
    }
    "target/perf/dhat-heap.json".to_owned()
}

/// Where a run goes.
#[derive(Debug, Clone, Copy, PartialEq, Eq, Structural)]
pub enum Route {
    /// The live viewer.
    Viewer,
    /// Written pictures; not a measurement.
    Render,
    /// The headless measurement.
    Headless,
}

/// The viewer comes first, pictures second, measurement last.
pub open spec fn routed(s: Settings) -> Route {
    if s.viewer {
        Route::Viewer
    } else if s.render is Some || s.render_frame is Some {
        Route::Render
    } else {
        Route::Headless
    }
}

/// Decide where a run goes.
pub fn route(args: &Args) -> (r: Route)
    ensures
        r == routed(args@),
{
    if args.viewer {
        Route::Viewer
    } else if args.render.is_some() || args.render_frame.is_some() {
        Route::Render
    } else {
        Route::Headless
    }
}

/// Every run that is asked for names a scene its gallery offers.
pub proof fn lemma_runs_name_offered_scenes(g: Gallery, args: Seq<Seq<char>>, s: Settings)
    ensures
        asked(g, args, s) matches Asked::Run(t) ==> offers(g, t.scene),
    decreases args.len(),
{
    if args.len() > 0 {
        let flag = args[0];
        lemma_runs_name_offered_scenes(g, args.skip(1), s);
        lemma_runs_name_offered_scenes(g, args.skip(1), Settings { json: true, ..s });
        lemma_runs_name_offered_scenes(g, args.skip(1), Settings { alloc_pass: true, ..s });
        lemma_runs_name_offered_scenes(g, args.skip(1), Settings { viewer: true, ..s });
        if args.len() > 1 {
            match with_value(s, flag, args[1]) {
                Ok(t) => {
                    lemma_runs_name_offered_scenes(g, args.skip(2), t);
                },
                Err(e) => {},
            }
        }
    }
}

} // verus!

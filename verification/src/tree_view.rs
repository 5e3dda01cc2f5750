//! The tree playground: keys become actions, actions become state
//! transitions and obligations, and the readout and captures follow the
//! simulated clock.
use vstd::prelude::*;
use vstd::string::*;
use crate::bits::f32_ge;
use crate::doc::Doc;
use crate::view::{block, clamp, shot_variant, Key};

verus! {

use crate::bits::f32_ge_spec;
use crate::doc::joined;
use crate::eval::{steady, value};
use crate::table::texts;
use crate::text::dec;
use crate::view::{block_of, clamped, tagged};

/// Least fork spread: ten degrees.
pub const SPREAD_MIN: u32 = 0x3E32_B8C7;

/// Greatest fork spread: a right angle.
pub const SPREAD_MAX: u32 = 0x3FC9_0FDB;

/// Greatest fork jitter: 0.6.
pub const JITTER_MAX: u32 = 0x3F19_999A;

/// Greatest wind amplitude: 1.2.
pub const AMP_MAX: u32 = 0x3F99_999A;

/// Least wind frequency: 0.1.
pub const FREQ_MIN: u32 = 0x3DCC_CCCD;

/// Greatest wind frequency: 6.
pub const FREQ_MAX: u32 = 0x40C0_0000;

/// Least canopy scale: 0.2.
pub const CANOPY_MIN: u32 = 0x3E4C_CCCD;

/// Greatest canopy scale: 3.
pub const CANOPY_MAX: u32 = 0x4040_0000;

/// Least zoom: 0.3.
pub const ZOOM_MIN: u32 = 0x3E99_999A;

/// Greatest zoom: 4.
pub const ZOOM_MAX: u32 = 0x4080_0000;

/// Simulated second of the growing capture: 1.5.
pub const SHOT_GROW_T: u32 = 0x3FC0_0000;

/// Simulated second of the grown capture: 8.
pub const SHOT_GROWN_T: u32 = 0x4100_0000;

/// Simulated second after which captures are done: 10.
pub const SHOT_EXIT_T: u32 = 0x4120_0000;

/// One playground input; the signed payloads are directions.
#[derive(Debug, Clone, Copy, PartialEq, Eq, Structural)]
pub enum Action {
    Spread(i8),
    Jitter(i8),
    WindAmp(i8),
    WindFreq(i8),
    Canopy(i8),
    /// Positive zooms out.
    Zoom(i8),
    Reroll,
    Replay,
    PauseToggle,
    Quit,
}

/// What a key asks for.
pub open spec fn action_of(key: Key) -> Option<Action> {
    match key {
        Key::ArrowRight => Some(Action::Spread(1)),
        Key::ArrowLeft => Some(Action::Spread((-1) as i8)),
        Key::ArrowUp => Some(Action::Jitter(1)),
        Key::ArrowDown => Some(Action::Jitter((-1) as i8)),
        Key::D => Some(Action::WindAmp(1)),
        Key::A => Some(Action::WindAmp((-1) as i8)),
        Key::W => Some(Action::WindFreq(1)),
        Key::S => Some(Action::WindFreq((-1) as i8)),
        Key::E => Some(Action::Canopy(1)),
        Key::Q => Some(Action::Canopy((-1) as i8)),
        Key::Minus => Some(Action::Zoom(1)),
        Key::Equal => Some(Action::Zoom((-1) as i8)),
        Key::R => Some(Action::Reroll),
        Key::G => Some(Action::Replay),
        Key::Space => Some(Action::PauseToggle),
        Key::Escape => Some(Action::Quit),
        _ => None,
    }
}

/// What a key asks for.
pub fn key_action(key: Key) -> (r: Option<Action>)
    ensures
        r == action_of(key),
{
    match key {
        Key::ArrowRight => Some(Action::Spread(1)),
        Key::ArrowLeft => Some(Action::Spread(-1)),
        Key::ArrowUp => Some(Action::Jitter(1)),
        Key::ArrowDown => Some(Action::Jitter(-1)),
        Key::D => Some(Action::WindAmp(1)),
        Key::A => Some(Action::WindAmp(-1)),
        Key::W => Some(Action::WindFreq(1)),
        Key::S => Some(Action::WindFreq(-1)),
        Key::E => Some(Action::Canopy(1)),
        Key::Q => Some(Action::Canopy(-1)),
        Key::Minus => Some(Action::Zoom(1)),
        Key::Equal => Some(Action::Zoom(-1)),
        Key::R => Some(Action::Reroll),
        Key::G => Some(Action::Replay),
        Key::Space => Some(Action::PauseToggle),
        Key::Escape => Some(Action::Quit),
        _ => None,
    }
}

/// What applying an action obliges the caller to do next.
#[derive(Debug, Clone, Copy, PartialEq, Eq, Structural)]
pub enum Effect {
    /// Nothing: the value is read at the next frame.
    Live,
    /// Rebuild the trees, and pose them afresh.
    Regen,
    /// Pose afresh, so nothing is left to interpolate.
    Snap,
    /// Leave.
    Quit,
}

/// The seed after a reroll.
pub open spec fn hopped(seed: u64) -> u64 {
    ((seed * 0x9E37_79B9_7F4A_7C15 + 0xD1B5_4A32_D192_ED03) % 0x1_0000_0000_0000_0000) as u64
}

/// Hop to another seed.
pub fn hop_seed(seed: u64) -> (r: u64)
    ensures
        r == hopped(seed),
{
    let m: u64 = seed.wrapping_mul(0x9E37_79B9_7F4A_7C15);
    proof {
        vstd::arithmetic::div_mod::lemma_add_mod_noop(
            seed * 0x9E37_79B9_7F4A_7C15,
            0xD1B5_4A32_D192_ED03,
            0x1_0000_0000_0000_0000,
        );
    }
    m.wrapping_add(0xD1B5_4A32_D192_ED03)
}

/// Different seeds hop to different seeds: no reroll forgets where it
/// came from.
pub proof fn lemma_hops_keep_seeds_apart(a: u64, b: u64)
    requires
        hopped(a) == hopped(b),
    ensures
        a == b,
{
    let n = 0x1_0000_0000_0000_0000int;
    let g = 0x9E37_79B9_7F4A_7C15int;
    let c = 0xD1B5_4A32_D192_ED03int;
    vstd::arithmetic::div_mod::lemma_add_mod_noop(a * g, c, n);
    vstd::arithmetic::div_mod::lemma_add_mod_noop(b * g, c, n);
    let x = (a * g) % n;
    let y = (b * g) % n;
    assert((x + c) % n == (y + c) % n);
    assert(x == y);
    crate::rng::lemma_scaling_injective(a as int, b as int, g, 0xf1de83e19937733dint);
}

/// A knob of the playground.
#[derive(Debug, Clone, Copy, PartialEq, Eq, Structural)]
pub enum Knob {
    Spread,
    Jitter,
    WindAmp,
    WindFreq,
    Canopy,
}

/// A quantity that floating point computes.
#[derive(Debug, Clone, Copy, PartialEq, Eq, Structural)]
pub enum Nudge {
    /// A knob's value moved by so many of its steps.
    Turn { knob: Knob, value: u32, steps: i8 },
    /// The zoom, one factor out or in.
    Zoom { value: u32, out: bool },
    /// The simulated clock, one tick on.
    Tick { t: u32 },
}

/// The playground's state.
#[derive(Debug, Clone, Copy, PartialEq, Eq, Structural)]
pub struct Playground {
    pub spread: u32,
    pub angle_jitter: u32,
    pub amp_rad: u32,
    pub freq_scale: u32,
    pub canopy_scale: u32,
    pub zoom: u32,
    pub seed: u64,
    pub sim_t: u32,
    pub ticks: u64,
    pub paused: bool,
    pub edit_count: u32,
}

/// A knob's value after a turn.
pub open spec fn turned<F: Fn(Nudge) -> u32>(
    eval: F,
    knob: Knob,
    v: u32,
    steps: i8,
    min: u32,
    max: u32,
) -> u32 {
    clamped(value(eval, Nudge::Turn { knob, value: v, steps }), min, max)
}

/// The state after an action, and what it obliges to.
pub open spec fn applied<F: Fn(Nudge) -> u32>(p: Playground, a: Action, eval: F) -> (
    Playground,
    Effect,
) {
    match a {
        Action::Spread(d) => (
            Playground {
                spread: turned(eval, Knob::Spread, p.spread, d, SPREAD_MIN, SPREAD_MAX),
                ..p
            },
            Effect::Regen,
        ),
        Action::Jitter(d) => (
            Playground {
                angle_jitter: turned(eval, Knob::Jitter, p.angle_jitter, d, 0, JITTER_MAX),
                ..p
            },
            Effect::Regen,
        ),
        Action::WindAmp(d) => (
            Playground { amp_rad: turned(eval, Knob::WindAmp, p.amp_rad, d, 0, AMP_MAX), ..p },
            Effect::Live,
        ),
        Action::WindFreq(d) => (
            Playground {
                freq_scale: turned(eval, Knob::WindFreq, p.freq_scale, d, FREQ_MIN, FREQ_MAX),
                ..p
            },
            Effect::Live,
        ),
        Action::Canopy(d) => (
            Playground {
                canopy_scale: turned(eval, Knob::Canopy, p.canopy_scale, d, CANOPY_MIN, CANOPY_MAX),
                ..p
            },
            Effect::Live,
        ),
        Action::Zoom(d) => (
            Playground {
                zoom: clamped(
                    value(eval, Nudge::Zoom { value: p.zoom, out: d > 0 }),
                    ZOOM_MIN,
                    ZOOM_MAX,
                ),
                ..p
            },
            Effect::Live,
        ),
        Action::Reroll => (
            Playground { seed: hopped(p.seed), sim_t: 0, ticks: 0, ..p },
            Effect::Regen,
        ),
        Action::Replay => (Playground { sim_t: 0, ticks: 0, ..p }, Effect::Snap),
        Action::PauseToggle => (Playground { paused: !p.paused, ..p }, Effect::Snap),
        Action::Quit => (p, Effect::Quit),
    }
}

/// The state after a frame's new keys, with each action's effect: keys
/// that ask for nothing are passed over.
pub open spec fn driven<F: Fn(Nudge) -> u32>(p: Playground, keys: Seq<Key>, eval: F) -> (
    Playground,
    Seq<(Action, Effect)>,
)
    decreases keys.len(),
{
    if keys.len() == 0 {
        (p, Seq::empty())
    } else {
        let (q, done) = driven(p, keys.drop_last(), eval);
        match action_of(keys.last()) {
            None => (q, done),
            Some(a) => {
                let (n, e) = applied(q, a, eval);
                (
                    Playground { edit_count: (q.edit_count + 1) as u32, ..n },
                    done.push((a, e)),
                )
            },
        }
    }
}

impl Playground {
    /// A fresh playground over a scene's parameters.
    pub fn new(spread: u32, angle_jitter: u32, amp_rad: u32, freq_scale: u32, seed: u64) -> (r:
        Playground)
        ensures
            r == (Playground {
                spread,
                angle_jitter,
                amp_rad,
                freq_scale,
                canopy_scale: 0x3F80_0000,
                zoom: 0x3F80_0000,
                seed,
                sim_t: 0,
                ticks: 0,
                paused: false,
                edit_count: 0,
            }),
    {
        Playground {
            spread,
            angle_jitter,
            amp_rad,
            freq_scale,
            canopy_scale: 0x3F80_0000,
            zoom: 0x3F80_0000,
            seed,
            sim_t: 0,
            ticks: 0,
            paused: false,
            edit_count: 0,
        }
    }

    /// Apply an action.
    pub fn apply<F: Fn(Nudge) -> u32>(&mut self, action: Action, eval: &F) -> (r: Effect)
        requires
            steady(*eval),
        ensures
            (*final(self), r) == applied(*old(self), action, *eval),
    {
        match action {
            Action::Spread(d) => {
                let v: u32 = (*eval)(Nudge::Turn { knob: Knob::Spread, value: self.spread, steps: d });
                self.spread = clamp(v, SPREAD_MIN, SPREAD_MAX);
                Effect::Regen
            },
            Action::Jitter(d) => {
                let v: u32 = (*eval)(
                    Nudge::Turn { knob: Knob::Jitter, value: self.angle_jitter, steps: d },
                );
                self.angle_jitter = clamp(v, 0, JITTER_MAX);
                Effect::Regen
            },
            Action::WindAmp(d) => {
                let v: u32 = (*eval)(
                    Nudge::Turn { knob: Knob::WindAmp, value: self.amp_rad, steps: d },
                );
                self.amp_rad = clamp(v, 0, AMP_MAX);
                Effect::Live
            },
            Action::WindFreq(d) => {
                let v: u32 = (*eval)(
                    Nudge::Turn { knob: Knob::WindFreq, value: self.freq_scale, steps: d },
                );
                self.freq_scale = clamp(v, FREQ_MIN, FREQ_MAX);
                Effect::Live
            },
            Action::Canopy(d) => {
                let v: u32 = (*eval)(
                    Nudge::Turn { knob: Knob::Canopy, value: self.canopy_scale, steps: d },
                );
                self.canopy_scale = clamp(v, CANOPY_MIN, CANOPY_MAX);
                Effect::Live
            },
            Action::Zoom(d) => {
                let v: u32 = (*eval)(Nudge::Zoom { value: self.zoom, out: d > 0 });
                self.zoom = clamp(v, ZOOM_MIN, ZOOM_MAX);
                Effect::Live
            },
            Action::Reroll => {
                self.seed = hop_seed(self.seed);
                self.sim_t = 0;
                self.ticks = 0;
                Effect::Regen
            },
            Action::Replay => {
                self.sim_t = 0;
                self.ticks = 0;
                Effect::Snap
            },
            Action::PauseToggle => {
                self.paused = !self.paused;
                Effect::Snap
            },
            Action::Quit => Effect::Quit,
        }
    }

    /// Act on a frame's new keys, in order.
    pub fn handle_input<F: Fn(Nudge) -> u32>(&mut self, keys: &Vec<Key>, eval: &F) -> (r: Vec<
        (Action, Effect),
    >)
        requires
            steady(*eval),
            old(self).edit_count + keys@.len() <= u32::MAX,
        ensures
            (*final(self), r@) == driven(*old(self), keys@, *eval),
    {
        let mut done: Vec<(Action, Effect)> = Vec::new();
        let mut i: usize = 0;
        proof {
            assert(keys@.take(0) =~= Seq::<Key>::empty());
        }
        while i < keys.len()
            invariant
                i <= keys@.len(),
                steady(*eval),
                old(self).edit_count + keys@.len() <= u32::MAX,
                self.edit_count <= old(self).edit_count + i,
                (*self, done@) == driven(*old(self), keys@.take(i as int), *eval),
            decreases keys@.len() - i,
        {
            proof {
                assert(keys@.take(i + 1).drop_last() =~= keys@.take(i as int));
            }
            match key_action(keys[i]) {
                Some(action) => {
                    let effect = self.apply(action, eval);
                    self.edit_count = self.edit_count + 1;
                    done.push((action, effect));
                },
                None => {},
            }
            i = i + 1;
        }
        proof {
            assert(keys@.take(i as int) =~= keys@);
        }
        done
    }

    /// Advance one tick unless paused; says whether it did.
    pub fn tick<F: Fn(Nudge) -> u32>(&mut self, eval: &F) -> (r: bool)
        requires
            steady(*eval),
            old(self).ticks < u64::MAX,
        ensures
            r == !old(self).paused,
            *final(self) == ticked(*old(self), *eval),
    {
        if self.paused {
            return false;
        }
        self.sim_t = (*eval)(Nudge::Tick { t: self.sim_t });
        self.ticks = self.ticks + 1;
        true
    }
}

/// The playground one tick on, unless it is paused.
pub open spec fn ticked<F: Fn(Nudge) -> u32>(p: Playground, eval: F) -> Playground {
    if p.paused {
        p
    } else {
        Playground {
            sim_t: value(eval, Nudge::Tick { t: p.sim_t }),
            ticks: (p.ticks + 1) as u64,
            ..p
        }
    }
}

/// No action leaves a knob outside its limits, whatever number a step
/// gives.
pub proof fn lemma_knobs_stay_within_limits<F: Fn(Nudge) -> u32>(
    p: Playground,
    a: Action,
    eval: F,
)
    requires
        forall|n: Nudge| !crate::bits::f32_is_nan(#[trigger] value(eval, n)),
    ensures
        ({
            let q = applied(p, a, eval).0;
            &&& a is Spread ==> f32_ge_spec(q.spread, SPREAD_MIN) && f32_ge_spec(
                SPREAD_MAX,
                q.spread,
            )
            &&& a is Jitter ==> f32_ge_spec(q.angle_jitter, 0) && f32_ge_spec(
                JITTER_MAX,
                q.angle_jitter,
            )
            &&& a is WindAmp ==> f32_ge_spec(q.amp_rad, 0) && f32_ge_spec(AMP_MAX, q.amp_rad)
            &&& a is WindFreq ==> f32_ge_spec(q.freq_scale, FREQ_MIN) && f32_ge_spec(
                FREQ_MAX,
                q.freq_scale,
            )
            &&& a is Canopy ==> f32_ge_spec(q.canopy_scale, CANOPY_MIN) && f32_ge_spec(
                CANOPY_MAX,
                q.canopy_scale,
            )
            &&& a is Zoom ==> f32_ge_spec(q.zoom, ZOOM_MIN) && f32_ge_spec(ZOOM_MAX, q.zoom)
        }),
{
}

// ---------------------------------------------------------------------------
// Ground extent
// ---------------------------------------------------------------------------

/// The least and greatest tile edges of the rings around the first `n`
/// anchors.
pub open spec fn ring_of(anchors: Seq<(i32, i32)>, radius: int, n: int) -> (int, int, int, int)
    decreases n,
{
    if n <= 0 {
        (i32::MAX as int, i32::MIN as int, i32::MAX as int, i32::MIN as int)
    } else {
        let (i0, i1, j0, j1) = ring_of(anchors, radius, n - 1);
        let a = anchors[n - 1];
        (
            if a.0 - radius < i0 {
                a.0 - radius
            } else {
                i0
            },
            if a.0 + 1 + radius > i1 {
                a.0 + 1 + radius
            } else {
                i1
            },
            if a.1 - radius < j0 {
                a.1 - radius
            } else {
                j0
            },
            if a.1 + 1 + radius > j1 {
                a.1 + 1 + radius
            } else {
                j1
            },
        )
    }
}

/// The tile edges the scene's ground spans: least and greatest along the
/// first axis, then along the second.
pub fn ring_extremes(anchors: &Vec<(i32, i32)>, radius: i32) -> (r: (i32, i32, i32, i32))
    requires
        0 <= radius,
        forall|k: int|
            #![trigger anchors@[k]]
            0 <= k < anchors@.len() ==> i32::MIN <= anchors@[k].0 - radius && anchors@[k].0 + 1
                + radius <= i32::MAX && i32::MIN <= anchors@[k].1 - radius && anchors@[k].1 + 1
                + radius <= i32::MAX,
    ensures
        (r.0 as int, r.1 as int, r.2 as int, r.3 as int) == ring_of(
            anchors@,
            radius as int,
            anchors@.len() as int,
        ),
{
    let mut i0: i32 = i32::MAX;
    let mut i1: i32 = i32::MIN;
    let mut j0: i32 = i32::MAX;
    let mut j1: i32 = i32::MIN;
    let mut k: usize = 0;
    while k < anchors.len()
        invariant
            k <= anchors@.len(),
            0 <= radius,
            forall|k: int|
                #![trigger anchors@[k]]
                0 <= k < anchors@.len() ==> i32::MIN <= anchors@[k].0 - radius && anchors@[k].0
                    + 1 + radius <= i32::MAX && i32::MIN <= anchors@[k].1 - radius
                    && anchors@[k].1 + 1 + radius <= i32::MAX,
            (i0 as int, i1 as int, j0 as int, j1 as int) == ring_of(
                anchors@,
                radius as int,
                k as int,
            ),
        decreases anchors@.len() - k,
    {
        let a = anchors[k];
        if a.0 - radius < i0 {
            i0 = a.0 - radius;
        }
        if a.0 + 1 + radius > i1 {
            i1 = a.0 + 1 + radius;
        }
        if a.1 - radius < j0 {
            j0 = a.1 - radius;
        }
        if a.1 + 1 + radius > j1 {
            j1 = a.1 + 1 + radius;
        }
        k = k + 1;
    }
    (i0, i1, j0, j1)
}

// ---------------------------------------------------------------------------
// Captures
// ---------------------------------------------------------------------------

/// What the capture script does next.
#[derive(Debug, Clone, Copy, PartialEq, Eq, Structural)]
pub enum Capture {
    Wait,
    /// Capture the growing tree.
    Growing,
    /// Capture the grown tree.
    Grown,
    /// Leave.
    Exit,
}

/// Which captures have been taken.
#[derive(Debug, Clone, Copy, PartialEq, Eq, Structural)]
pub struct Captured {
    pub growing: bool,
    pub grown: bool,
}

/// The next step of the script at a simulated time: each capture once,
/// in order, and then the end.
pub open spec fn capture_at(c: Captured, t: u32) -> Capture {
    if !c.growing && f32_ge_spec(t, SHOT_GROW_T) {
        Capture::Growing
    } else if !c.grown && f32_ge_spec(t, SHOT_GROWN_T) {
        Capture::Grown
    } else if f32_ge_spec(t, SHOT_EXIT_T) {
        Capture::Exit
    } else {
        Capture::Wait
    }
}

impl Captured {
    /// Nothing captured.
    pub fn new() -> (r: Captured)
        ensures
            r == (Captured { growing: false, grown: false }),
    {
        Captured { growing: false, grown: false }
    }

    /// Take the script's next step.
    pub fn advance(&mut self, t: u32) -> (r: Capture)
        ensures
            r == capture_at(*old(self), t),
            final(self).growing == (old(self).growing || r is Growing),
            final(self).grown == (old(self).grown || r is Grown),
    {
        if !self.growing && f32_ge(t, SHOT_GROW_T) {
            self.growing = true;
            Capture::Growing
        } else if !self.grown && f32_ge(t, SHOT_GROWN_T) {
            self.grown = true;
            Capture::Grown
        } else if f32_ge(t, SHOT_EXIT_T) {
            Capture::Exit
        } else {
            Capture::Wait
        }
    }
}

/// The grown capture's path: `foo.png` becomes `foo-grown.png`.
pub fn grown_variant(path: &str) -> (r: String)
    ensures
        r@ == tagged(path@, "grown"@),
{
    shot_variant(path, "grown")
}

// ---------------------------------------------------------------------------
// Readout
// ---------------------------------------------------------------------------

/// The printed numbers of the readout: spread in degrees with one
/// decimal; jitter, wind, and canopy with two; the clock seven wide with
/// two; and the interpolation factor with two.
pub struct Printed {
    pub spread: String,
    pub jitter: String,
    pub amp: String,
    pub freq: String,
    pub canopy: String,
    pub t: String,
    pub alpha: String,
}

/// The readout's lines.
pub open spec fn readout_lines(scene: Seq<char>, p: Playground, n: Printed) -> Seq<Seq<char>> {
    seq![
        joined(seq!["tree-playground  scene "@, scene, "  seed "@, dec(p.seed as nat)]),
        joined(seq!["spread "@, n.spread@, "deg  fork jitter "@, n.jitter@]),
        joined(
            seq![
                "wind amp "@,
                n.amp@,
                " rad  freq "@,
                n.freq@,
                "  canopy "@,
                n.canopy@,
                "x  ["@,
                if p.paused {
                    "PAUSED"@
                } else {
                    "running"@
                },
                "]"@,
            ],
        ),
        joined(seq!["t "@, n.t@, "s  tick "@, dec(p.ticks as nat), "  alpha "@, n.alpha@]),
        "arrows spread/jitter  A/D wind amp  W/S wind freq  Q/E canopy"@,
        "R reroll  G replay growth  Space pause  -/+ zoom  Esc quit"@,
    ]
}

/// The readout.
pub fn readout_text(scene: &str, p: &Playground, n: &Printed) -> (r: String)
    ensures
        r@ == block_of(readout_lines(scene@, *p, *n)),
{
    let mut a = Doc::new();
    a.put("tree-playground  scene ");
    a.put(scene);
    a.put("  seed ");
    a.put_dec(p.seed);
    let mut b = Doc::new();
    b.put("spread ");
    b.put(n.spread.as_str());
    b.put("deg  fork jitter ");
    b.put(n.jitter.as_str());
    let mut c = Doc::new();
    c.put("wind amp ");
    c.put(n.amp.as_str());
    c.put(" rad  freq ");
    c.put(n.freq.as_str());
    c.put("  canopy ");
    c.put(n.canopy.as_str());
    c.put("x  [");
    if p.paused {
        c.put("PAUSED");
    } else {
        c.put("running");
    }
    c.put("]");
    let mut d = Doc::new();
    d.put("t ");
    d.put(n.t.as_str());
    d.put("s  tick ");
    d.put_dec(p.ticks);
    d.put("  alpha ");
    d.put(n.alpha.as_str());
    proof {
        assert(a@ =~= seq!["tree-playground  scene "@, scene@, "  seed "@, dec(p.seed as nat)]);
        assert(b@ =~= seq!["spread "@, n.spread@, "deg  fork jitter "@, n.jitter@]);
        assert(c@ =~= seq![
            "wind amp "@,
            n.amp@,
            " rad  freq "@,
            n.freq@,
            "  canopy "@,
            n.canopy@,
            "x  ["@,
            if p.paused {
                "PAUSED"@
            } else {
                "running"@
            },
            "]"@,
        ]);
        assert(d@ =~= seq![
            "t "@,
            n.t@,
            "s  tick "@,
            dec(p.ticks as nat),
            "  alpha "@,
            n.alpha@,
        ]);
    }
    let lines: Vec<String> = vec![
        a.finish(),
        b.finish(),
        c.finish(),
        d.finish(),
        "arrows spread/jitter  A/D wind amp  W/S wind freq  Q/E canopy".to_owned(),
        "R reroll  G replay growth  Space pause  -/+ zoom  Esc quit".to_owned(),
    ];
    proof {
        assert(texts(lines@) =~= readout_lines(scene@, *p, *n));
    }
    block(&lines)
}

} // verus!

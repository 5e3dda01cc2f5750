//! The mandala view: population keys, the painting's colors, captures on
//! the simulated clock, and the readout.
use vstd::prelude::*;
use vstd::string::*;
use crate::bits::f32_ge;
use crate::character::BONE_COUNT;
use crate::doc::Doc;
use crate::view::{block, clamp, Key};

verus! {

use crate::bits::f32_ge_spec;
use crate::doc::joined;
use crate::eval::{steady, value};
use crate::table::texts;
use crate::text::dec;
use crate::view::{block_of, clamped};

/// Least zoom: 0.35.
pub const ZOOM_MIN: u32 = 0x3EB3_3333;

/// Greatest zoom: 3.
pub const ZOOM_MAX: u32 = 0x4040_0000;

/// Palette slot of the field.
pub const INK: u8 = 0;

/// Palette slot of the blue circle.
pub const BLUE: u8 = 1;

/// Palette slot of the red circle.
pub const RED: u8 = 2;

/// Palette slot of the purple square.
pub const PURPLE: u8 = 3;

/// Palette slot of the orange square.
pub const ORANGE: u8 = 4;

/// Palette slot of the green ring.
pub const GREEN: u8 = 5;

/// Which shapes of the painting cover a point.
#[derive(Debug, Clone, Copy, PartialEq, Eq, Structural)]
pub struct Shapes {
    pub blue_circle: bool,
    pub red_circle: bool,
    pub purple_square: bool,
    pub orange_square: bool,
    pub green_ring: bool,
}

/// The color at a point: the first shape that covers it, or the field.
pub open spec fn painted(s: Shapes) -> u8 {
    if s.blue_circle {
        BLUE
    } else if s.red_circle {
        RED
    } else if s.purple_square {
        PURPLE
    } else if s.orange_square {
        ORANGE
    } else if s.green_ring {
        GREEN
    } else {
        INK
    }
}

/// The color at a point of the painting.
pub fn design(s: Shapes) -> (r: u8)
    ensures
        r == painted(s),
        r <= GREEN,
{
    if s.blue_circle {
        BLUE
    } else if s.red_circle {
        RED
    } else if s.purple_square {
        PURPLE
    } else if s.orange_square {
        ORANGE
    } else if s.green_ring {
        GREEN
    } else {
        INK
    }
}

/// One view input.
#[derive(Debug, Clone, Copy, PartialEq, Eq, Structural)]
pub enum Action {
    Population(usize),
    PauseToggle,
    Zoom(i8),
    Quit,
}

/// What a key asks for.
pub open spec fn action_of(key: Key) -> Option<Action> {
    match key {
        Key::Digit1 => Some(Action::Population(100)),
        Key::Numpad1 => Some(Action::Population(100)),
        Key::Digit2 => Some(Action::Population(1000)),
        Key::Numpad2 => Some(Action::Population(1000)),
        Key::Digit3 => Some(Action::Population(10000)),
        Key::Numpad3 => Some(Action::Population(10000)),
        Key::Space => Some(Action::PauseToggle),
        Key::Minus => Some(Action::Zoom(1)),
        Key::Equal => Some(Action::Zoom((-1) as i8)),
        Key::Escape => Some(Action::Quit),
        _ => None,
    }
}

/// What a key asks for.
pub fn key_action(key: Key) -> (r: Option<Action>)
    ensures
        r == action_of(key),
{
    match key {
        Key::Digit1 => Some(Action::Population(100)),
        Key::Numpad1 => Some(Action::Population(100)),
        Key::Digit2 => Some(Action::Population(1000)),
        Key::Numpad2 => Some(Action::Population(1000)),
        Key::Digit3 => Some(Action::Population(10000)),
        Key::Numpad3 => Some(Action::Population(10000)),
        Key::Space => Some(Action::PauseToggle),
        Key::Minus => Some(Action::Zoom(1)),
        Key::Equal => Some(Action::Zoom(-1)),
        Key::Escape => Some(Action::Quit),
        _ => None,
    }
}

/// The view's state: figures in the world, figures asked for, zoom, and
/// pause.
#[derive(Debug, Clone, Copy, PartialEq, Eq, Structural)]
pub struct MandalaView {
    pub count: usize,
    pub pending_count: usize,
    pub zoom: u32,
    pub paused: bool,
    pub edit_count: u32,
}

/// The state after one new key.
pub open spec fn pressed<F: Fn((u32, bool)) -> u32>(v: MandalaView, key: Key, zoom: F) -> MandalaView {
    match action_of(key) {
        None => v,
        Some(a) => {
            let w = MandalaView { edit_count: (v.edit_count + 1) as u32, ..v };
            match a {
                Action::Population(n) => MandalaView { pending_count: n, ..w },
                Action::PauseToggle => MandalaView { paused: !v.paused, ..w },
                Action::Zoom(d) => MandalaView {
                    zoom: clamped(value(zoom, (v.zoom, d > 0)), ZOOM_MIN, ZOOM_MAX),
                    ..w
                },
                Action::Quit => w,
            }
        },
    }
}

/// The state after some new keys, in order.
pub open spec fn pressed_all<F: Fn((u32, bool)) -> u32>(
    v: MandalaView,
    keys: Seq<Key>,
    zoom: F,
) -> MandalaView
    decreases keys.len(),
{
    if keys.len() == 0 {
        v
    } else {
        pressed(pressed_all(v, keys.drop_last(), zoom), keys.last(), zoom)
    }
}

/// The population to rebuild for, if another is asked for.
pub open spec fn respawn_of(v: MandalaView) -> Option<usize> {
    if v.pending_count == v.count {
        None
    } else {
        Some(v.pending_count)
    }
}

/// The view once its world has the population that was asked for.
pub open spec fn respawned(v: MandalaView) -> MandalaView {
    MandalaView { count: v.pending_count, ..v }
}

impl MandalaView {
    /// An empty world with a population asked for.
    pub fn new(count: usize) -> (r: MandalaView)
        ensures
            r == (MandalaView {
                count: 0,
                pending_count: count,
                zoom: 0x3F80_0000,
                paused: false,
                edit_count: 0,
            }),
    {
        MandalaView {
            count: 0,
            pending_count: count,
            zoom: 0x3F80_0000,
            paused: false,
            edit_count: 0,
        }
    }

    /// The population to rebuild for, when it differs from the world's;
    /// the world then has it.
    pub fn respawn_pending(&mut self) -> (r: Option<usize>)
        ensures
            r == respawn_of(*old(self)),
            *final(self) == respawned(*old(self)),
    {
        if self.pending_count == self.count {
            return None;
        }
        self.count = self.pending_count;
        Some(self.count)
    }

    /// Act on a frame's new keys, unless a capture script owns the
    /// session; says whether to leave.
    pub fn handle_input<F: Fn((u32, bool)) -> u32>(
        &mut self,
        scripted: bool,
        keys: &Vec<Key>,
        zoom: &F,
    ) -> (r: bool)
        requires
            steady(*zoom),
            old(self).edit_count + keys@.len() <= u32::MAX,
        ensures
            *final(self) == if scripted {
                *old(self)
            } else {
                pressed_all(*old(self), keys@, *zoom)
            },
            r == (!scripted && crate::view::held(keys@, Key::Escape)),
    {
        if scripted {
            return false;
        }
        let mut quit: bool = false;
        let mut i: usize = 0;
        proof {
            assert(keys@.take(0) =~= Seq::<Key>::empty());
        }
        while i < keys.len()
            invariant
                i <= keys@.len(),
                steady(*zoom),
                old(self).edit_count + keys@.len() <= u32::MAX,
                self.edit_count <= old(self).edit_count + i,
                *self == pressed_all(*old(self), keys@.take(i as int), *zoom),
                quit == exists|j: int| 0 <= j < i && #[trigger] keys@[j] == Key::Escape,
            decreases keys@.len() - i,
        {
            proof {
                assert(keys@.take(i + 1).drop_last() =~= keys@.take(i as int));
            }
            match key_action(keys[i]) {
                None => {},
                Some(a) => {
                    self.edit_count = self.edit_count + 1;
                    match a {
                        Action::Population(n) => {
                            self.pending_count = n;
                        },
                        Action::PauseToggle => {
                            self.paused = !self.paused;
                        },
                        Action::Zoom(d) => {
                            let z: u32 = (*zoom)((self.zoom, d > 0));
                            self.zoom = clamp(z, ZOOM_MIN, ZOOM_MAX);
                        },
                        Action::Quit => {
                            quit = true;
                        },
                    }
                },
            }
            i = i + 1;
        }
        proof {
            assert(keys@.take(i as int) =~= keys@);
        }
        quit
    }
}

/// When the captures are due: the painting, the dispersed field, and the
/// end.
#[derive(Debug, Clone, Copy, PartialEq, Eq, Structural)]
pub struct Schedule {
    pub image: u32,
    pub dispersed: u32,
    pub exit: u32,
}

/// What the capture script does next.
#[derive(Debug, Clone, Copy, PartialEq, Eq, Structural)]
pub enum Capture {
    Wait,
    /// Capture the painting.
    Image,
    /// Capture the dispersed field.
    Dispersed,
    /// Leave.
    Exit,
}

/// Which captures have been taken.
#[derive(Debug, Clone, Copy, PartialEq, Eq, Structural)]
pub struct Captured {
    pub image: bool,
    pub dispersed: bool,
}

/// The next step of the script at a simulated time: each capture once,
/// in order, and then the end.
pub open spec fn capture_at(c: Captured, s: Schedule, t: u32) -> Capture {
    if !c.image && f32_ge_spec(t, s.image) {
        Capture::Image
    } else if !c.dispersed && f32_ge_spec(t, s.dispersed) {
        Capture::Dispersed
    } else if f32_ge_spec(t, s.exit) {
        Capture::Exit
    } else {
        Capture::Wait
    }
}

impl Captured {
    /// Nothing captured.
    pub fn new() -> (r: Captured)
        ensures
            r == (Captured { image: false, dispersed: false }),
    {
        Captured { image: false, dispersed: false }
    }

    /// Take the script's next step.
    pub fn advance(&mut self, s: &Schedule, t: u32) -> (r: Capture)
        ensures
            r == capture_at(*old(self), *s, t),
            final(self).image == (old(self).image || r is Image),
            final(self).dispersed == (old(self).dispersed || r is Dispersed),
    {
        if !self.image && f32_ge(t, s.image) {
            self.image = true;
            Capture::Image
        } else if !self.dispersed && f32_ge(t, s.dispersed) {
            self.dispersed = true;
            Capture::Dispersed
        } else if f32_ge(t, s.exit) {
            Capture::Exit
        } else {
            Capture::Wait
        }
    }
}

/// The printed numbers of the readout: the clock seven wide with two
/// decimals, the tick six wide, the time to the next re-formation six
/// wide with one, and the speed with two.
pub struct Printed {
    pub t: String,
    pub tick: String,
    pub reforms_in: String,
    pub speed: String,
}

/// The readout's lines.
pub open spec fn readout_lines(
    scene: Seq<char>,
    v: MandalaView,
    loops: u64,
    seed: u64,
    n: Printed,
) -> Seq<Seq<char>> {
    seq![
        joined(
            seq![
                "mandala-view  scene "@,
                scene,
                "  "@,
                dec(v.count as nat),
                " figures  "@,
                dec(loops as nat),
                " loops"@,
            ],
        ),
        joined(
            seq![
                "t "@,
                n.t@,
                "s  tick "@,
                n.tick@,
                "  ["@,
                if v.paused {
                    "PAUSED"@
                } else {
                    "running"@
                },
                "]  painting re-forms in "@,
                n.reforms_in@,
                "s"@,
            ],
        ),
        joined(
            seq![
                dec((v.count * BONE_COUNT) as nat),
                " bone segments  "@,
                dec((v.count * (BONE_COUNT + 1)) as nat),
                " draw entities  speed "@,
                n.speed@,
                " m/s  seed "@,
                dec(seed as nat),
            ],
        ),
        "1/2/3 population 100/1k/10k  -/+ zoom  Space pause  Esc quit"@,
        "colors are frozen: tiles of a painting that walks"@,
    ]
}

/// The readout.
pub fn readout_text(scene: &str, v: &MandalaView, loops: u64, seed: u64, n: &Printed) -> (r: String)
    requires
        v.count * (BONE_COUNT + 1) <= u64::MAX,
    ensures
        r@ == block_of(readout_lines(scene@, *v, loops, seed, *n)),
{
    let count: u64 = v.count as u64;
    let mut a = Doc::new();
    a.put("mandala-view  scene ");
    a.put(scene);
    a.put("  ");
    a.put_dec(count);
    a.put(" figures  ");
    a.put_dec(loops);
    a.put(" loops");
    let mut b = Doc::new();
    b.put("t ");
    b.put(n.t.as_str());
    b.put("s  tick ");
    b.put(n.tick.as_str());
    b.put("  [");
    if v.paused {
        b.put("PAUSED");
    } else {
        b.put("running");
    }
    b.put("]  painting re-forms in ");
    b.put(n.reforms_in.as_str());
    b.put("s");
    proof {
        assert(v.count * BONE_COUNT <= v.count * (BONE_COUNT + 1)) by (nonlinear_arith)
            requires
                v.count >= 0,
        ;
    }
    let mut c = Doc::new();
    c.put_dec(count * BONE_COUNT as u64);
    c.put(" bone segments  ");
    c.put_dec(count * (BONE_COUNT as u64 + 1));
    c.put(" draw entities  speed ");
    c.put(n.speed.as_str());
    c.put(" m/s  seed ");
    c.put_dec(seed);
    let ghost want = readout_lines(scene@, *v, loops, seed, *n);
    proof {
        assert(a@ =~= seq![
            "mandala-view  scene "@,
            scene@,
            "  "@,
            dec(v.count as nat),
            " figures  "@,
            dec(loops as nat),
            " loops"@,
        ]);
        assert(b@ =~= seq![
            "t "@,
            n.t@,
            "s  tick "@,
            n.tick@,
            "  ["@,
            if v.paused {
                "PAUSED"@
            } else {
                "running"@
            },
            "]  painting re-forms in "@,
            n.reforms_in@,
            "s"@,
        ]);
        assert(c@ =~= seq![
            dec((v.count * BONE_COUNT) as nat),
            " bone segments  "@,
            dec((v.count * (BONE_COUNT + 1)) as nat),
            " draw entities  speed "@,
            n.speed@,
            " m/s  seed "@,
            dec(seed as nat),
        ]);
    }
    let lines: Vec<String> = vec![
        a.finish(),
        b.finish(),
        c.finish(),
        "1/2/3 population 100/1k/10k  -/+ zoom  Space pause  Esc quit".to_owned(),
        "colors are frozen: tiles of a painting that walks".to_owned(),
    ];
    proof {
        assert(texts(lines@) =~= want);
    }
    block(&lines)
}

} // verus!

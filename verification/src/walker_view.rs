//! The walker playground: clicks select figures and send them walking,
//! keys drive the selected one, and a script of captures follows the
//! simulated clock. Figures are known by opaque numbers.
use vstd::prelude::*;
use vstd::string::*;
use crate::bits::{f32_ge, f32_lt};
use crate::character::{Carry, MovementInput};
use crate::doc::Doc;
use crate::view::{block, clamp, is_held, Key};
use crate::walkers::{RUN_SPEED, WALK_SPEED};

verus! {

use crate::bits::{f32_ge_spec, f32_is_nan, f32_key, f32_lt_spec};
use crate::character::idle_input;
use crate::doc::joined;
use crate::eval::{steady, value};
use crate::table::texts;
use crate::text::dec;
use crate::view::{block_of, clamped, held};

/// Least zoom: one half.
pub const ZOOM_MIN: u32 = 0x3F00_0000;

/// Greatest zoom: 2.5.
pub const ZOOM_MAX: u32 = 0x4020_0000;

/// Below this speed a figure idles: 0.15 m/s.
pub const IDLE_SPEED: u32 = 0x3E19_999A;

/// From this speed on a figure runs: 2.1 m/s.
pub const RUN_FROM: u32 = 0x4006_6666;

/// A carry blend above this is still being set down: 0.01.
pub const SET_DOWN: u32 = 0x3C23_D70A;

/// The scripted drive starts walking here: 0.3 s.
pub const DRIVE_FROM: u32 = 0x3E99_999A;

/// And running here: 4.5 s.
pub const RUN_START: u32 = 0x4090_0000;

/// The scripted send: 6.6 s.
pub const SHOT_SEND_T: u32 = 0x40D3_3333;

/// The swap to perspective: 7.9 s.
pub const SHOT_PERSP_T: u32 = 0x40FC_CCCD;

/// The end of the script: 8.8 s.
pub const SHOT_EXIT_T: u32 = 0x410C_CCCD;

/// The hop is held from here: 2 s.
pub const JUMP_FROM: u32 = 0x4000_0000;

/// To here: 2.2 s.
pub const JUMP_TO: u32 = 0x400C_CCCD;

/// The reach is held from here: 2.8 s.
pub const REACH_FROM: u32 = 0x4033_3333;

/// To here: 3.7 s.
pub const REACH_TO: u32 = 0x406C_CCCD;

/// The chest carry is held from here: 3.9 s.
pub const CARRY_FROM: u32 = 0x4079_999A;

/// To here: 4.4 s.
pub const CARRY_TO: u32 = 0x408C_CCCD;

/// The punch is held from here: 5 s.
pub const PUNCH_FROM: u32 = 0x40A0_0000;

/// To here: 5.8 s.
pub const PUNCH_TO: u32 = 0x40B9_999A;

/// The turn rate through the punch: 0.9.
pub const PUNCH_ARC_TURN: u32 = 0x3F66_6666;

/// The turn rate of one held key: 2.2.
pub const TURN_RATE: u32 = 0x400C_CCCD;

/// The turn rate of two held keys.
pub const TURN_RATE_2: u32 = 0x408C_CCCD;

/// One held key, the other way.
pub const TURN_BACK: u32 = 0xC00C_CCCD;

/// Two held keys, the other way.
pub const TURN_BACK_2: u32 = 0xC08C_CCCD;

// ---------------------------------------------------------------------------
// Keys
// ---------------------------------------------------------------------------

/// One viewer input.
#[derive(Debug, Clone, Copy, PartialEq, Eq, Structural)]
pub enum Action {
    Forward(bool),
    Run,
    Turn(i8),
    Jump,
    Punch,
    Reach,
    CarryCycle,
    OrthoToggle,
    PauseToggle,
    Reset,
    Zoom(i8),
    Quit,
}

/// What a key asks for.
pub open spec fn action_of(key: Key) -> Option<Action> {
    match key {
        Key::W => Some(Action::Forward(true)),
        Key::ArrowUp => Some(Action::Forward(true)),
        Key::S => Some(Action::Forward(false)),
        Key::ArrowDown => Some(Action::Forward(false)),
        Key::ShiftLeft => Some(Action::Run),
        Key::ShiftRight => Some(Action::Run),
        Key::A => Some(Action::Turn((-1) as i8)),
        Key::ArrowLeft => Some(Action::Turn((-1) as i8)),
        Key::D => Some(Action::Turn(1)),
        Key::ArrowRight => Some(Action::Turn(1)),
        Key::Space => Some(Action::Jump),
        Key::F => Some(Action::Punch),
        Key::E => Some(Action::Reach),
        Key::C => Some(Action::CarryCycle),
        Key::O => Some(Action::OrthoToggle),
        Key::P => Some(Action::PauseToggle),
        Key::R => Some(Action::Reset),
        Key::Minus => Some(Action::Zoom(1)),
        Key::Equal => Some(Action::Zoom((-1) as i8)),
        Key::Escape => Some(Action::Quit),
        _ => None,
    }
}

/// What a key asks for.
pub fn key_action(key: Key) -> (r: Option<Action>)
    ensures
        r == action_of(key),
{
    match key {
        Key::W => Some(Action::Forward(true)),
        Key::ArrowUp => Some(Action::Forward(true)),
        Key::S => Some(Action::Forward(false)),
        Key::ArrowDown => Some(Action::Forward(false)),
        Key::ShiftLeft => Some(Action::Run),
        Key::ShiftRight => Some(Action::Run),
        Key::A => Some(Action::Turn(-1)),
        Key::ArrowLeft => Some(Action::Turn(-1)),
        Key::D => Some(Action::Turn(1)),
        Key::ArrowRight => Some(Action::Turn(1)),
        Key::Space => Some(Action::Jump),
        Key::F => Some(Action::Punch),
        Key::E => Some(Action::Reach),
        Key::C => Some(Action::CarryCycle),
        Key::O => Some(Action::OrthoToggle),
        Key::P => Some(Action::PauseToggle),
        Key::R => Some(Action::Reset),
        Key::Minus => Some(Action::Zoom(1)),
        Key::Equal => Some(Action::Zoom(-1)),
        Key::Escape => Some(Action::Quit),
        _ => None,
    }
}

// ---------------------------------------------------------------------------
// State
// ---------------------------------------------------------------------------

/// The viewer's state.
#[derive(Debug, Clone, Copy, PartialEq, Eq, Structural)]
pub struct Viewer {
    /// The figure that always exists.
    pub player: u64,
    /// The figure under control.
    pub selected: u64,
    pub forward: bool,
    pub run: bool,
    pub zoom: u32,
    /// The selected figure's intent, refreshed every frame.
    pub input: MovementInput,
    pub reset_pending: bool,
    pub carry_pending: bool,
    /// Whether the camera is orthographic.
    pub ortho: bool,
    pub paused: bool,
    pub edit_count: u32,
}

/// What a click hit: a figure, the ground, or nothing.
#[derive(Debug, Clone, Copy, PartialEq, Eq, Structural)]
pub enum Hit {
    Figure(u64),
    Ground,
    Nothing,
}

/// What a click obliges the caller to do.
#[derive(Debug, Clone, Copy, PartialEq, Eq, Structural)]
pub enum Click {
    /// Take the figure off its scripted ring, and mark it selected.
    Select(u64),
    /// Control returns to the player: mark it selected.
    Return(u64),
    /// Send the selected figure to the clicked point.
    Send(u64),
    /// Nothing.
    Ignore,
}

/// The state after a click, and what it obliges to: another figure is
/// selected; the selected one gives control back; the ground sends the
/// selected figure walking.
pub open spec fn clicked(v: Viewer, hit: Hit) -> (Viewer, Click) {
    match hit {
        Hit::Figure(f) => if f != v.selected {
            (
                Viewer { selected: f, edit_count: (v.edit_count + 1) as u32, ..v },
                Click::Select(f),
            )
        } else {
            (
                Viewer { selected: v.player, edit_count: (v.edit_count + 1) as u32, ..v },
                Click::Return(v.player),
            )
        },
        Hit::Ground => (
            Viewer { edit_count: (v.edit_count + 1) as u32, ..v },
            Click::Send(v.selected),
        ),
        Hit::Nothing => (v, Click::Ignore),
    }
}

/// The state after one new key.
pub open spec fn pressed<F: Fn((u32, bool)) -> u32>(v: Viewer, key: Key, zoom: F) -> Viewer {
    match action_of(key) {
        None => v,
        Some(a) => {
            let w = Viewer { edit_count: (v.edit_count + 1) as u32, ..v };
            match a {
                Action::Run => Viewer { run: !v.run, ..w },
                Action::PauseToggle => Viewer { paused: !v.paused, ..w },
                Action::Reset => Viewer { reset_pending: true, ..w },
                Action::Zoom(d) => Viewer {
                    zoom: clamped(value(zoom, (v.zoom, d > 0)), ZOOM_MIN, ZOOM_MAX),
                    ..w
                },
                Action::CarryCycle => Viewer { carry_pending: true, ..w },
                Action::OrthoToggle => Viewer { ortho: !v.ortho, ..w },
                _ => w,
            }
        },
    }
}

/// The state after some new keys, in order.
pub open spec fn pressed_all<F: Fn((u32, bool)) -> u32>(v: Viewer, keys: Seq<Key>, zoom: F) -> Viewer
    decreases keys.len(),
{
    if keys.len() == 0 {
        v
    } else {
        pressed(pressed_all(v, keys.drop_last(), zoom), keys.last(), zoom)
    }
}

/// One for a held key.
pub open spec fn weight(keys: Seq<Key>, k: Key) -> int {
    if held(keys, k) {
        1
    } else {
        0
    }
}

/// How many held keys turn right, less those that turn left.
pub open spec fn net_turn(keys: Seq<Key>) -> int {
    weight(keys, Key::D) + weight(keys, Key::ArrowRight) - weight(keys, Key::A) - weight(
        keys,
        Key::ArrowLeft,
    )
}

/// The turn rate of a net number of turning keys.
pub open spec fn turn_of(n: int) -> u32 {
    if n == 2 {
        TURN_RATE_2
    } else if n == 1 {
        TURN_RATE
    } else if n == 0 {
        0
    } else if n == -1 {
        TURN_BACK
    } else {
        TURN_BACK_2
    }
}

/// Whether a walking key is held.
pub open spec fn walks(keys: Seq<Key>) -> bool {
    held(keys, Key::W) || held(keys, Key::ArrowUp) || held(keys, Key::S) || held(
        keys,
        Key::ArrowDown,
    )
}

/// The intent of the held keys.
pub open spec fn intent(keys: Seq<Key>, run: bool) -> MovementInput {
    MovementInput {
        target_speed: if walks(keys) {
            if run {
                RUN_SPEED
            } else {
                WALK_SPEED
            }
        } else {
            0
        },
        turn_rate: turn_of(net_turn(keys)),
        jump: held(keys, Key::Space),
        punch: held(keys, Key::F),
        reach: held(keys, Key::E),
    }
}

/// The state after a frame's keys: what is held becomes the intent, what
/// is new is acted on.
pub open spec fn keyed<F: Fn((u32, bool)) -> u32>(
    v: Viewer,
    down: Seq<Key>,
    new: Seq<Key>,
    zoom: F,
) -> Viewer {
    let w = pressed_all(Viewer { forward: walks(down), ..v }, new, zoom);
    Viewer { input: intent(down, w.run), ..w }
}

fn intended(down: &Vec<Key>, run: bool) -> (r: MovementInput)
    ensures
        r == intent(down@, run),
{
    let forward: bool = is_held(down, Key::W) || is_held(down, Key::ArrowUp) || is_held(
        down,
        Key::S,
    ) || is_held(down, Key::ArrowDown);
    let mut net: i8 = 0;
    if is_held(down, Key::D) {
        net = net + 1;
    }
    if is_held(down, Key::ArrowRight) {
        net = net + 1;
    }
    if is_held(down, Key::A) {
        net = net - 1;
    }
    if is_held(down, Key::ArrowLeft) {
        net = net - 1;
    }
    let turn: u32 = if net == 2 {
        TURN_RATE_2
    } else if net == 1 {
        TURN_RATE
    } else if net == 0 {
        0
    } else if net == -1 {
        TURN_BACK
    } else {
        TURN_BACK_2
    };
    MovementInput {
        target_speed: if forward {
            if run {
                RUN_SPEED
            } else {
                WALK_SPEED
            }
        } else {
            0
        },
        turn_rate: turn,
        jump: is_held(down, Key::Space),
        punch: is_held(down, Key::F),
        reach: is_held(down, Key::E),
    }
}

/// What a frame's input obliges the caller to do.
#[derive(Debug, Clone, Copy, PartialEq, Eq, Structural)]
pub struct Obligations {
    pub click: Click,
    /// The camera's projection changed kind.
    pub projection: bool,
    pub quit: bool,
}

impl Viewer {
    /// The player selected, standing, under the orthographic camera.
    pub fn new(player: u64) -> (r: Viewer)
        ensures
            r == (Viewer {
                player,
                selected: player,
                forward: false,
                run: false,
                zoom: 0x3F80_0000,
                input: idle_input(),
                reset_pending: false,
                carry_pending: false,
                ortho: true,
                paused: false,
                edit_count: 0,
            }),
    {
        Viewer {
            player,
            selected: player,
            forward: false,
            run: false,
            zoom: 0x3F80_0000,
            input: MovementInput::default(),
            reset_pending: false,
            carry_pending: false,
            ortho: true,
            paused: false,
            edit_count: 0,
        }
    }

    /// Act on a click.
    pub fn click(&mut self, hit: Hit) -> (r: Click)
        requires
            old(self).edit_count < u32::MAX,
        ensures
            (*final(self), r) == clicked(*old(self), hit),
    {
        match hit {
            Hit::Figure(f) => {
                self.edit_count = self.edit_count + 1;
                if f != self.selected {
                    self.selected = f;
                    Click::Select(f)
                } else {
                    self.selected = self.player;
                    Click::Return(self.player)
                }
            },
            Hit::Ground => {
                self.edit_count = self.edit_count + 1;
                Click::Send(self.selected)
            },
            Hit::Nothing => Click::Ignore,
        }
    }

    fn press<F: Fn((u32, bool)) -> u32>(&mut self, key: Key, zoom: &F)
        requires
            steady(*zoom),
            old(self).edit_count < u32::MAX,
        ensures
            *final(self) == pressed(*old(self), key, *zoom),
    {
        match key_action(key) {
            None => {},
            Some(a) => {
                self.edit_count = self.edit_count + 1;
                match a {
                    Action::Run => {
                        self.run = !self.run;
                    },
                    Action::PauseToggle => {
                        self.paused = !self.paused;
                    },
                    Action::Reset => {
                        self.reset_pending = true;
                    },
                    Action::Zoom(d) => {
                        let z: u32 = (*zoom)((self.zoom, d > 0));
                        self.zoom = clamp(z, ZOOM_MIN, ZOOM_MAX);
                    },
                    Action::CarryCycle => {
                        self.carry_pending = true;
                    },
                    Action::OrthoToggle => {
                        self.ortho = !self.ortho;
                    },
                    _ => {},
                }
            },
        }
    }

    fn press_all<F: Fn((u32, bool)) -> u32>(&mut self, new: &Vec<Key>, zoom: &F)
        requires
            steady(*zoom),
            old(self).edit_count + new@.len() <= u32::MAX,
        ensures
            *final(self) == pressed_all(*old(self), new@, *zoom),
    {
        let mut i: usize = 0;
        proof {
            assert(new@.take(0) =~= Seq::<Key>::empty());
        }
        while i < new.len()
            invariant
                i <= new@.len(),
                steady(*zoom),
                old(self).edit_count + new@.len() <= u32::MAX,
                self.edit_count <= old(self).edit_count + i,
                *self == pressed_all(*old(self), new@.take(i as int), *zoom),
            decreases new@.len() - i,
        {
            proof {
                assert(new@.take(i + 1).drop_last() =~= new@.take(i as int));
            }
            self.press(new[i], zoom);
            i = i + 1;
        }
        proof {
            assert(new@.take(i as int) =~= new@);
        }
    }

    /// Act on a frame's input: the click first, then the held and the
    /// new keys. While a capture script drives, input is ignored.
    /// `zoom(z, out)` is the zoom one factor out or in.
    pub fn handle_input<F: Fn((u32, bool)) -> u32>(
        &mut self,
        scripted: bool,
        hit: Option<Hit>,
        down: &Vec<Key>,
        new: &Vec<Key>,
        zoom: &F,
    ) -> (r: Obligations)
        requires
            steady(*zoom),
            old(self).edit_count + new@.len() < u32::MAX,
        ensures
            if scripted {
                *final(self) == *old(self) && r == (Obligations {
                    click: Click::Ignore,
                    projection: false,
                    quit: false,
                })
            } else {
                let (v, click) = match hit {
                    Some(h) => clicked(*old(self), h),
                    None => (*old(self), Click::Ignore),
                };
                *final(self) == keyed(v, down@, new@, *zoom) && r == (Obligations {
                    click,
                    projection: final(self).ortho != old(self).ortho,
                    quit: held(new@, Key::Escape),
                })
            },
    {
        if scripted {
            return Obligations { click: Click::Ignore, projection: false, quit: false };
        }
        let was_ortho: bool = self.ortho;
        let click = match hit {
            Some(h) => self.click(h),
            None => Click::Ignore,
        };
        self.forward = is_held(down, Key::W) || is_held(down, Key::ArrowUp) || is_held(
            down,
            Key::S,
        ) || is_held(down, Key::ArrowDown);
        self.press_all(new, zoom);
        self.input = intended(down, self.run);
        Obligations {
            click,
            projection: self.ortho != was_ortho,
            quit: is_held(new, Key::Escape),
        }
    }
}

/// Clicking a figure twice gives control back to the player.
pub proof fn lemma_second_click_returns_control(v: Viewer, f: u64)
    requires
        f != v.selected,
    ensures
        clicked(v, Hit::Figure(f)).0.selected == f,
        clicked(clicked(v, Hit::Figure(f)).0, Hit::Figure(f)).0.selected == v.player,
{
}

// ---------------------------------------------------------------------------
// Applying the intent
// ---------------------------------------------------------------------------

/// What the recorded intent does to the world.
#[derive(Debug, Clone, Copy, PartialEq, Eq, Structural)]
pub enum Apply {
    /// The player goes home and stands; its send is cancelled.
    Home(u64),
    /// The selected figure gets the input, and the carry if it changed;
    /// a nonzero input cancels a send.
    Drive { walker: u64, input: MovementInput, toggle_carry: bool, cancel_send: bool },
}

/// A pending reset comes first; else a pending carry and the intent.
pub open spec fn applying(v: Viewer) -> (Viewer, Apply) {
    if v.reset_pending {
        (Viewer { reset_pending: false, selected: v.player, ..v }, Apply::Home(v.player))
    } else {
        (
            Viewer { carry_pending: false, ..v },
            Apply::Drive {
                walker: v.selected,
                input: v.input,
                toggle_carry: v.carry_pending,
                cancel_send: v.input != idle_input(),
            },
        )
    }
}

/// Turn the recorded intent into what the world needs.
pub fn apply_selection_input(v: &mut Viewer) -> (r: Apply)
    ensures
        (*final(v), r) == applying(*old(v)),
{
    if v.reset_pending {
        v.reset_pending = false;
        v.selected = v.player;
        return Apply::Home(v.player);
    }
    let toggle_carry: bool = v.carry_pending;
    v.carry_pending = false;
    Apply::Drive {
        walker: v.selected,
        input: v.input,
        toggle_carry,
        cancel_send: v.input != MovementInput::default(),
    }
}

/// The other side of the chest-carry toggle.
pub open spec fn toggled(c: Carry) -> Carry {
    if c is Chest {
        Carry::Nothing
    } else {
        Carry::Chest
    }
}

/// Toggle a figure's chest carry.
pub fn toggle_carry(c: Carry) -> (r: Carry)
    ensures
        r == toggled(c),
{
    match c {
        Carry::Chest => Carry::Nothing,
        _ => Carry::Chest,
    }
}

/// Whether a goal disc is taken away: its target is gone, or reached.
pub fn goal_done(target: Option<(u32, u32)>) -> (r: bool)
    ensures
        r == match target {
            Some(t) => f32_ge_spec(t.1, t.0),
            None => true,
        },
{
    match target {
        Some((dist, arrive)) => f32_ge(arrive, dist),
        None => true,
    }
}

// ---------------------------------------------------------------------------
// Picking
// ---------------------------------------------------------------------------

/// One figure under a ray: how far along the ray it is nearest, how far
/// the ray misses its middle, and the radius of its picking sphere.
#[derive(Debug, Clone, Copy, PartialEq, Eq, Structural)]
pub struct Candidate {
    pub id: u64,
    pub along: u32,
    pub miss: u32,
    pub radius: u32,
}

/// The ray passes through a figure's sphere.
pub open spec fn struck(c: Candidate) -> bool {
    f32_lt_spec(c.miss, c.radius)
}

/// The figure a ray picks among the first `n`: the nearest one struck,
/// the earlier of two at one distance.
pub open spec fn picked(cs: Seq<Candidate>, n: int) -> Option<int>
    decreases n,
{
    if n <= 0 {
        None
    } else {
        let best = picked(cs, n - 1);
        if struck(cs[n - 1]) && (match best {
            None => true,
            Some(b) => f32_lt_spec(cs[n - 1].along, cs[b].along),
        }) {
            Some(n - 1)
        } else {
            best
        }
    }
}

/// Pick the figure under a ray.
pub fn pick_walker(cs: &Vec<Candidate>) -> (r: Option<u64>)
    ensures
        match picked(cs@, cs@.len() as int) {
            Some(i) => r == Some(cs@[i].id),
            None => r is None,
        },
{
    let mut best: Option<usize> = None;
    let mut n: usize = 0;
    while n < cs.len()
        invariant
            n <= cs@.len(),
            match best {
                Some(b) => b < n && picked(cs@, n as int) == Some(b as int),
                None => picked(cs@, n as int) is None,
            },
        decreases cs@.len() - n,
    {
        if f32_lt(cs[n].miss, cs[n].radius) {
            match best {
                None => {
                    best = Some(n);
                },
                Some(b) => {
                    if f32_lt(cs[n].along, cs[b].along) {
                        best = Some(n);
                    }
                },
            }
        }
        n = n + 1;
    }
    match best {
        Some(b) => Some(cs[b].id),
        None => None,
    }
}

/// The picked figure is struck, and no struck figure is nearer.
pub proof fn lemma_nearest_struck_figure_wins(cs: Seq<Candidate>, n: int)
    requires
        0 <= n <= cs.len(),
        forall|i: int| 0 <= i < cs.len() ==> !f32_is_nan((#[trigger] cs[i]).along),
    ensures
        match picked(cs, n) {
            Some(b) => 0 <= b < n && struck(cs[b]) && forall|i: int|
                0 <= i < n && struck(#[trigger] cs[i]) ==> f32_key(cs[b].along) <= f32_key(
                    cs[i].along,
                ),
            None => forall|i: int| 0 <= i < n ==> !struck(#[trigger] cs[i]),
        },
    decreases n,
{
    if n > 0 {
        lemma_nearest_struck_figure_wins(cs, n - 1);
    }
}

// ---------------------------------------------------------------------------
// Captures
// ---------------------------------------------------------------------------

/// How many captures the script takes.
pub const SHOT_COUNT: usize = 8;

/// When capture `k` is due.
pub open spec fn shot_due(k: int) -> u32 {
    if k == 0 {
        0x3FC0_0000
    } else if k == 1 {
        0x4013_3333
    } else if k == 2 {
        0x4050_0000
    } else if k == 3 {
        0x4089_999A
    } else if k == 4 {
        0x40A8_0000
    } else if k == 5 {
        0x40D0_0000
    } else if k == 6 {
        0x40EC_CCCD
    } else {
        0x4102_6666
    }
}

/// The tag of capture `k`.
pub open spec fn shot_tag(k: int) -> Seq<char> {
    if k == 0 {
        "walk"@
    } else if k == 1 {
        "air"@
    } else if k == 2 {
        "grab"@
    } else if k == 3 {
        "carry"@
    } else if k == 4 {
        "strike"@
    } else if k == 5 {
        "run"@
    } else if k == 6 {
        "sent"@
    } else {
        "persp"@
    }
}

fn due(k: usize) -> (r: u32)
    ensures
        r == shot_due(k as int),
{
    if k == 0 {
        0x3FC0_0000
    } else if k == 1 {
        0x4013_3333
    } else if k == 2 {
        0x4050_0000
    } else if k == 3 {
        0x4089_999A
    } else if k == 4 {
        0x40A8_0000
    } else if k == 5 {
        0x40D0_0000
    } else if k == 6 {
        0x40EC_CCCD
    } else {
        0x4102_6666
    }
}

/// The tag of a capture.
pub fn tag(k: usize) -> (r: &'static str)
    requires
        k < SHOT_COUNT,
    ensures
        r@ == shot_tag(k as int),
{
    if k == 0 {
        "walk"
    } else if k == 1 {
        "air"
    } else if k == 2 {
        "grab"
    } else if k == 3 {
        "carry"
    } else if k == 4 {
        "strike"
    } else if k == 5 {
        "run"
    } else if k == 6 {
        "sent"
    } else {
        "persp"
    }
}

/// A time lies in a window that excludes its end.
pub open spec fn during(t: u32, from: u32, to: u32) -> bool {
    f32_ge_spec(t, from) && f32_lt_spec(t, to)
}

fn is_during(t: u32, from: u32, to: u32) -> (r: bool)
    ensures
        r == during(t, from, to),
{
    f32_ge(t, from) && f32_lt(t, to)
}

/// The script's progress: which captures are taken, whether the send was
/// made, and whether the camera was swapped.
#[derive(Debug, Clone)]
pub struct Script {
    pub fired: Vec<bool>,
    pub sent: bool,
    pub swapped: bool,
}

/// What the script asks for at one frame.
#[derive(Debug, Clone)]
pub struct Scene {
    pub send: bool,
    pub carry: Carry,
    pub to_perspective: bool,
    /// Captures that are due now, in order.
    pub shots: Vec<usize>,
    pub exit: bool,
}

/// The scripted intent: walk, then run, then let a send drive; the
/// actions in their windows, turning through the punch.
pub open spec fn scripted_input(before: MovementInput, t: u32) -> MovementInput {
    let punch = during(t, PUNCH_FROM, PUNCH_TO);
    MovementInput {
        target_speed: if during(t, DRIVE_FROM, SHOT_SEND_T) {
            if f32_ge_spec(t, RUN_START) {
                RUN_SPEED
            } else {
                WALK_SPEED
            }
        } else if f32_ge_spec(t, SHOT_SEND_T) {
            0
        } else {
            before.target_speed
        },
        turn_rate: if punch {
            PUNCH_ARC_TURN
        } else {
            0
        },
        jump: during(t, JUMP_FROM, JUMP_TO),
        punch,
        reach: during(t, REACH_FROM, REACH_TO),
    }
}

/// Whether capture `k` is taken at a time.
pub open spec fn fires(fired: Seq<bool>, k: int, t: u32) -> bool {
    !fired[k] && f32_ge_spec(t, shot_due(k))
}

/// The captures among the first `n` that are taken at a time.
pub open spec fn shots_at(fired: Seq<bool>, t: u32, n: int) -> Seq<int>
    decreases n,
{
    if n <= 0 {
        Seq::empty()
    } else {
        let front = shots_at(fired, t, n - 1);
        if fires(fired, n - 1, t) {
            front.push(n - 1)
        } else {
            front
        }
    }
}

/// The script has sent the figure to its goal.
pub open spec fn sends_at(t: u32) -> bool {
    f32_ge_spec(t, SHOT_SEND_T)
}

/// The script has gone over to the perspective view.
pub open spec fn swaps_at(t: u32) -> bool {
    f32_ge_spec(t, SHOT_PERSP_T)
}

/// What the script has the figure carry.
pub open spec fn carried_at(t: u32) -> Carry {
    if during(t, CARRY_FROM, CARRY_TO) {
        Carry::Chest
    } else {
        Carry::Nothing
    }
}

/// The script is over.
pub open spec fn leaves_at(t: u32) -> bool {
    f32_ge_spec(t, SHOT_EXIT_T)
}

impl Script {
    /// Nothing done yet.
    pub fn new() -> (r: Script)
        ensures
            r.fired@ == Seq::new(SHOT_COUNT as nat, |i: int| false),
            !r.sent,
            !r.swapped,
    {
        let fired: Vec<bool> = vec![false; SHOT_COUNT];
        proof {
            assert(fired@ =~= Seq::new(SHOT_COUNT as nat, |i: int| false));
        }
        Script { fired, sent: false, swapped: false }
    }

    /// Take the script's step at a simulated time, writing the scripted
    /// intent.
    pub fn drive(&mut self, t: u32, input: &mut MovementInput) -> (r: Scene)
        requires
            old(self).fired@.len() == SHOT_COUNT,
        ensures
            *final(input) == scripted_input(*old(input), t),
            final(self).fired@ == Seq::new(
                SHOT_COUNT as nat,
                |k: int| old(self).fired@[k] || f32_ge_spec(t, shot_due(k)),
            ),
            final(self).sent == (old(self).sent || sends_at(t)),
            final(self).swapped == (old(self).swapped || swaps_at(t)),
            r.send == (!old(self).sent && sends_at(t)),
            r.to_perspective == (!old(self).swapped && swaps_at(t)),
            r.carry == carried_at(t),
            r.shots@.map_values(|k: usize| k as int) == shots_at(
                old(self).fired@,
                t,
                SHOT_COUNT as int,
            ),
            r.exit == leaves_at(t),
    {
        let mut send: bool = false;
        let driving: bool = is_during(t, DRIVE_FROM, SHOT_SEND_T);
        let released: bool = f32_ge(t, SHOT_SEND_T);
        if driving {
            input.target_speed = if f32_ge(t, RUN_START) {
                RUN_SPEED
            } else {
                WALK_SPEED
            };
        } else if released {
            input.target_speed = 0;
        }
        if released && !self.sent {
            self.sent = true;
            send = true;
        }
        input.jump = is_during(t, JUMP_FROM, JUMP_TO);
        input.punch = is_during(t, PUNCH_FROM, PUNCH_TO);
        input.reach = is_during(t, REACH_FROM, REACH_TO);
        input.turn_rate = if input.punch {
            PUNCH_ARC_TURN
        } else {
            0
        };
        let mut to_perspective: bool = false;
        if !self.swapped && f32_ge(t, SHOT_PERSP_T) {
            self.swapped = true;
            to_perspective = true;
        }
        let ghost before = self.fired@;
        let mut shots: Vec<usize> = Vec::new();
        let mut k: usize = 0;
        while k < SHOT_COUNT
            invariant
                k <= SHOT_COUNT,
                before.len() == SHOT_COUNT,
                self.fired@ == Seq::new(
                    SHOT_COUNT as nat,
                    |i: int|
                        if i < k {
                            before[i] || f32_ge_spec(t, shot_due(i))
                        } else {
                            before[i]
                        },
                ),
                shots@.map_values(|k: usize| k as int) == shots_at(before, t, k as int),
                self.sent == (old(self).sent || f32_ge_spec(t, SHOT_SEND_T)),
                self.swapped == (old(self).swapped || f32_ge_spec(t, SHOT_PERSP_T)),
            decreases SHOT_COUNT - k,
        {
            let ghost taken = shots@;
            if !self.fired[k] && f32_ge(t, due(k)) {
                self.fired.set(k, true);
                shots.push(k);
                proof {
                    assert(shots@.map_values(|k: usize| k as int) =~= taken.map_values(
                        |k: usize| k as int,
                    ).push(k as int));
                }
            }
            k = k + 1;
            proof {
                assert(self.fired@ =~= Seq::new(
                    SHOT_COUNT as nat,
                    |i: int|
                        if i < k {
                            before[i] || f32_ge_spec(t, shot_due(i))
                        } else {
                            before[i]
                        },
                ));
            }
        }
        proof {
            assert(self.fired@ =~= Seq::new(
                SHOT_COUNT as nat,
                |k: int| before[k] || f32_ge_spec(t, shot_due(k)),
            ));
        }
        Scene {
            send,
            carry: if is_during(t, CARRY_FROM, CARRY_TO) {
                Carry::Chest
            } else {
                Carry::Nothing
            },
            to_perspective,
            shots,
            exit: f32_ge(t, SHOT_EXIT_T),
        }
    }
}

// ---------------------------------------------------------------------------
// Readout
// ---------------------------------------------------------------------------

/// What the arms and legs are doing, with its printed measure.
pub enum Doing {
    /// Airborne, at a height four wide with two decimals.
    Air(String),
    /// Punching, at a percentage three wide.
    Punch(String),
    /// Reaching, at a percentage three wide.
    Reach(String),
    /// Neither.
    Gait,
}

/// The figure a readout speaks of.
pub struct Figure {
    /// The spawn id of a figure other than the player.
    pub id: Option<u32>,
    pub speed: u32,
    pub doing: Doing,
    pub carry: Carry,
    pub carry_blend: u32,
    pub footfalls: u64,
}

/// The printed numbers of the readout: speed four wide with two
/// decimals, carry blend as a percentage two wide, the clock seven wide
/// with two decimals, and the interpolation factor with two.
pub struct Printed {
    pub speed: String,
    pub carry: String,
    pub t: String,
    pub alpha: String,
}

/// The gait of a speed.
pub open spec fn gait_name(speed: u32) -> Seq<char> {
    if f32_lt_spec(speed, IDLE_SPEED) {
        "idle"@
    } else if f32_lt_spec(speed, RUN_FROM) {
        "walk"@
    } else {
        "run"@
    }
}

/// Who is selected.
pub open spec fn selection_name(id: Option<u32>) -> Seq<char> {
    match id {
        None => "player"@,
        Some(n) => "#"@ + dec(n as nat),
    }
}

/// What the figure is doing.
pub open spec fn doing_name(d: Doing) -> Seq<char> {
    match d {
        Doing::Air(m) => joined(seq!["air "@, m@, " m"@]),
        Doing::Punch(p) => joined(seq!["punch "@, p@, "%"@]),
        Doing::Reach(p) => joined(seq!["reach "@, p@, "%"@]),
        Doing::Gait => "\u{2014}"@,
    }
}

/// What the figure carries.
pub open spec fn carry_name(c: Carry, blend: u32, pct: Seq<char>) -> Seq<char> {
    match c {
        Carry::Chest => joined(seq!["chest "@, pct, "%"@]),
        Carry::Side => joined(seq!["side "@, pct, "%"@]),
        Carry::Nothing => if f32_lt_spec(SET_DOWN, blend) {
            joined(seq!["set down "@, pct, "%"@])
        } else {
            "\u{2014}"@
        },
    }
}

/// The readout's lines.
pub open spec fn readout_lines(
    scene: Seq<char>,
    seed: u64,
    v: Viewer,
    f: Figure,
    n: Printed,
    tick: u64,
    figures: u64,
) -> Seq<Seq<char>> {
    seq![
        joined(
            seq![
                "walker-playground  scene "@,
                scene,
                "  seed "@,
                dec(seed as nat),
                "  sel "@,
                selection_name(f.id),
                "  "@,
                if v.ortho {
                    "ortho"@
                } else {
                    "persp"@
                },
            ],
        ),
        joined(
            seq![
                "speed "@,
                n.speed@,
                " m/s  gait "@,
                gait_name(f.speed),
                "  action "@,
                doing_name(f.doing),
                "  carry "@,
                carry_name(f.carry, f.carry_blend, n.carry@),
                "  ["@,
                if v.paused {
                    "PAUSED"@
                } else {
                    "running"@
                },
                "]"@,
            ],
        ),
        joined(
            seq![
                "t "@,
                n.t@,
                "s  tick "@,
                dec(tick as nat),
                "  alpha "@,
                n.alpha@,
                "  heel strikes "@,
                dec(f.footfalls as nat),
                "  figures "@,
                dec(figures as nat),
            ],
        ),
        "click fig select \u{B7} click ground send \u{B7} W/S walk \u{B7} Shift run"@,
        "A/D turn \u{B7} Space jump \u{B7} F punch \u{B7} E reach \u{B7} C carry \u{B7} O ortho"@,
        "R reset  P pause  -/+ zoom  Esc quit"@,
    ]
}

fn gait(speed: u32) -> (r: &'static str)
    ensures
        r@ == gait_name(speed),
{
    if f32_lt(speed, IDLE_SPEED) {
        "idle"
    } else if f32_lt(speed, RUN_FROM) {
        "walk"
    } else {
        "run"
    }
}

fn selection(id: Option<u32>) -> (r: String)
    ensures
        r@ == selection_name(id),
{
    match id {
        None => "player".to_owned(),
        Some(n) => {
            let mut out = "#".to_owned();
            crate::text::push_dec(&mut out, n as u64);
            out
        },
    }
}

fn three(a: &str, b: &str, c: &str) -> (r: String)
    ensures
        r@ == joined(seq![a@, b@, c@]),
{
    let mut d = Doc::new();
    d.put(a);
    d.put(b);
    d.put(c);
    proof {
        assert(d@ =~= seq![a@, b@, c@]);
    }
    d.finish()
}

fn doing(d: &Doing) -> (r: String)
    ensures
        r@ == doing_name(*d),
{
    match d {
        Doing::Air(m) => three("air ", m.as_str(), " m"),
        Doing::Punch(p) => three("punch ", p.as_str(), "%"),
        Doing::Reach(p) => three("reach ", p.as_str(), "%"),
        Doing::Gait => "\u{2014}".to_owned(),
    }
}

fn carrying(c: Carry, blend: u32, pct: &str) -> (r: String)
    ensures
        r@ == carry_name(c, blend, pct@),
{
    match c {
        Carry::Chest => three("chest ", pct, "%"),
        Carry::Side => three("side ", pct, "%"),
        Carry::Nothing => {
            if f32_lt(SET_DOWN, blend) {
                three("set down ", pct, "%")
            } else {
                "\u{2014}".to_owned()
            }
        },
    }
}

/// The readout.
pub fn readout_text(
    scene: &str,
    seed: u64,
    v: &Viewer,
    f: &Figure,
    n: &Printed,
    tick: u64,
    figures: u64,
) -> (r: String)
    ensures
        r@ == block_of(readout_lines(scene@, seed, *v, *f, *n, tick, figures)),
{
    let who = selection(f.id);
    let mut a = Doc::new();
    a.put("walker-playground  scene ");
    a.put(scene);
    a.put("  seed ");
    a.put_dec(seed);
    a.put("  sel ");
    a.put(who.as_str());
    a.put("  ");
    if v.ortho {
        a.put("ortho");
    } else {
        a.put("persp");
    }
    let what = doing(&f.doing);
    let load = carrying(f.carry, f.carry_blend, n.carry.as_str());
    let mut b = Doc::new();
    b.put("speed ");
    b.put(n.speed.as_str());
    b.put(" m/s  gait ");
    b.put(gait(f.speed));
    b.put("  action ");
    b.put(what.as_str());
    b.put("  carry ");
    b.put(load.as_str());
    b.put("  [");
    if v.paused {
        b.put("PAUSED");
    } else {
        b.put("running");
    }
    b.put("]");
    let mut c = Doc::new();
    c.put("t ");
    c.put(n.t.as_str());
    c.put("s  tick ");
    c.put_dec(tick);
    c.put("  alpha ");
    c.put(n.alpha.as_str());
    c.put("  heel strikes ");
    c.put_dec(f.footfalls);
    c.put("  figures ");
    c.put_dec(figures);
    let ghost want = readout_lines(scene@, seed, *v, *f, *n, tick, figures);
    proof {
        assert(a@ =~= seq![
            "walker-playground  scene "@,
            scene@,
            "  seed "@,
            dec(seed as nat),
            "  sel "@,
            selection_name(f.id),
            "  "@,
            if v.ortho {
                "ortho"@
            } else {
                "persp"@
            },
        ]);
        assert(b@ =~= seq![
            "speed "@,
            n.speed@,
            " m/s  gait "@,
            gait_name(f.speed),
            "  action "@,
            doing_name(f.doing),
            "  carry "@,
            carry_name(f.carry, f.carry_blend, n.carry@),
            "  ["@,
            if v.paused {
                "PAUSED"@
            } else {
                "running"@
            },
            "]"@,
        ]);
        assert(c@ =~= seq![
            "t "@,
            n.t@,
            "s  tick "@,
            dec(tick as nat),
            "  alpha "@,
            n.alpha@,
            "  heel strikes "@,
            dec(f.footfalls as nat),
            "  figures "@,
            dec(figures as nat),
        ]);
    }
    let lines: Vec<String> = vec![
        a.finish(),
        b.finish(),
        c.finish(),
        "click fig select \u{B7} click ground send \u{B7} W/S walk \u{B7} Shift run".to_owned(),
        "A/D turn \u{B7} Space jump \u{B7} F punch \u{B7} E reach \u{B7} C carry \u{B7} O ortho".to_owned(),
        "R reset  P pause  -/+ zoom  Esc quit".to_owned(),
    ];
    proof {
        assert(texts(lines@) =~= want);
    }
    block(&lines)
}

} // verus!

//! The walking stick figure: a fixed rig of 13 bones, the state machine
//! that advances a character one tick, and the forward pass that places
//! its bones.
//!
//! Lengths, angles, speeds, and times are bit patterns of singles. What
//! floating point must compute is named by a `Motion` and handed in; the
//! branches (launch, flight, touchdown, stride, punch) are taken here.
use vstd::prelude::*;
use crate::bits::{f32_ge, f32_lt};
use crate::digest::{step, FNV_OFFSET};
use crate::rng::splitmix_mix;

verus! {

use crate::bits::{f32_ge_spec, f32_lt_spec};
use crate::digest::{gathered, lemma_gather_push, lemma_gathering_ignores_order, step_spec, two64};
use crate::eval::{steady, value};
use crate::rng::splitmix_mix_spec;

/// A vector of three bit patterns.
#[derive(Debug, Clone, Copy, PartialEq, Eq, Structural)]
pub struct Vec3 {
    pub x: u32,
    pub y: u32,
    pub z: u32,
}

// ---------------------------------------------------------------------------
// Skeleton
// ---------------------------------------------------------------------------

/// Number of bones in the rig.
pub const BONE_COUNT: usize = 13;

/// Bone index: hips.
pub const HIPS: usize = 0;

/// Bone index: torso.
pub const TORSO: usize = 1;

/// Bone index: head.
pub const HEAD: usize = 2;

/// Bone index: upper-arm-l.
pub const UPPER_ARM_L: usize = 3;

/// Bone index: lower-arm-l.
pub const LOWER_ARM_L: usize = 4;

/// Bone index: upper-arm-r.
pub const UPPER_ARM_R: usize = 5;

/// Bone index: lower-arm-r.
pub const LOWER_ARM_R: usize = 6;

/// Bone index: upper-leg-l.
pub const UPPER_LEG_L: usize = 7;

/// Bone index: lower-leg-l.
pub const LOWER_LEG_L: usize = 8;

/// Bone index: foot-l.
pub const FOOT_L: usize = 9;

/// Bone index: upper-leg-r.
pub const UPPER_LEG_R: usize = 10;

/// Bone index: lower-leg-r.
pub const LOWER_LEG_R: usize = 11;

/// Bone index: foot-r.
pub const FOOT_R: usize = 12;

/// One bone of the rig: its parent, the offset from the parent's joint
/// to its own (in the parent's frame), the bone itself (in its own
/// frame), and its render width.
#[derive(Debug, Clone, Copy, PartialEq, Eq, Structural)]
pub struct Bone {
    pub parent: Option<usize>,
    pub from: Vec3,
    pub dir: Vec3,
    pub width: u32,
}

/// The rig at height scale 1: a standing figure, arms hanging, feet on
/// the ground.
pub open spec fn rig() -> Seq<Bone> {
    seq![
        Bone {
            parent: None,
            from: Vec3 { x: 0, y: 0, z: 0 },
            dir: Vec3 { x: 0, y: 0x3DCC_CCCD, z: 0 },
            width: 0x3D4C_CCCD,
        },
        Bone {
            parent: Some(HIPS),
            from: Vec3 { x: 0, y: 0x3DCC_CCCD, z: 0 },
            dir: Vec3 { x: 0, y: 0x3F00_0000, z: 0 },
            width: 0x3D61_47AE,
        },
        Bone {
            parent: Some(TORSO),
            from: Vec3 { x: 0, y: 0x3F17_0A3D, z: 0 },
            dir: Vec3 { x: 0, y: 0x3E23_D70A, z: 0 },
            width: 0x3D23_D70A,
        },
        Bone {
            parent: Some(TORSO),
            from: Vec3 { x: 0x3E42_8F5C, y: 0x3EF5_C28F, z: 0 },
            dir: Vec3 { x: 0, y: 0xBE99_999A, z: 0 },
            width: 0x3D1B_A5E3,
        },
        Bone {
            parent: Some(UPPER_ARM_L),
            from: Vec3 { x: 0, y: 0xBE99_999A, z: 0 },
            dir: Vec3 { x: 0, y: 0xBE8A_3D71, z: 0 },
            width: 0x3D0B_4396,
        },
        Bone {
            parent: Some(TORSO),
            from: Vec3 { x: 0xBE42_8F5C, y: 0x3EF5_C28F, z: 0 },
            dir: Vec3 { x: 0, y: 0xBE99_999A, z: 0 },
            width: 0x3D1B_A5E3,
        },
        Bone {
            parent: Some(UPPER_ARM_R),
            from: Vec3 { x: 0, y: 0xBE99_999A, z: 0 },
            dir: Vec3 { x: 0, y: 0xBE8A_3D71, z: 0 },
            width: 0x3D0B_4396,
        },
        Bone {
            parent: Some(HIPS),
            from: Vec3 { x: 0x3DCC_CCCD, y: 0, z: 0 },
            dir: Vec3 { x: 0, y: 0xBEEB_851F, z: 0 },
            width: 0x3D44_9BA6,
        },
        Bone {
            parent: Some(UPPER_LEG_L),
            from: Vec3 { x: 0, y: 0xBEEB_851F, z: 0 },
            dir: Vec3 { x: 0, y: 0xBECC_CCCD, z: 0 },
            width: 0x3D2C_0831,
        },
        Bone {
            parent: Some(LOWER_LEG_L),
            from: Vec3 { x: 0, y: 0xBECC_CCCD, z: 0 },
            dir: Vec3 { x: 0, y: 0xBD0F_5C29, z: 0x3E23_D70A },
            width: 0x3D1B_A5E3,
        },
        Bone {
            parent: Some(HIPS),
            from: Vec3 { x: 0xBDCC_CCCD, y: 0, z: 0 },
            dir: Vec3 { x: 0, y: 0xBEEB_851F, z: 0 },
            width: 0x3D44_9BA6,
        },
        Bone {
            parent: Some(UPPER_LEG_R),
            from: Vec3 { x: 0, y: 0xBEEB_851F, z: 0 },
            dir: Vec3 { x: 0, y: 0xBECC_CCCD, z: 0 },
            width: 0x3D2C_0831,
        },
        Bone {
            parent: Some(LOWER_LEG_R),
            from: Vec3 { x: 0, y: 0xBECC_CCCD, z: 0 },
            dir: Vec3 { x: 0, y: 0xBD0F_5C29, z: 0x3E23_D70A },
            width: 0x3D1B_A5E3,
        },
    ]
}

/// Bone names.
pub open spec fn name_of(b: int) -> Seq<char> {
    if b == HIPS {
        "hips"@
    } else if b == TORSO {
        "torso"@
    } else if b == HEAD {
        "head"@
    } else if b == UPPER_ARM_L {
        "upper-arm-l"@
    } else if b == LOWER_ARM_L {
        "lower-arm-l"@
    } else if b == UPPER_ARM_R {
        "upper-arm-r"@
    } else if b == LOWER_ARM_R {
        "lower-arm-r"@
    } else if b == UPPER_LEG_L {
        "upper-leg-l"@
    } else if b == LOWER_LEG_L {
        "lower-leg-l"@
    } else if b == FOOT_L {
        "foot-l"@
    } else if b == UPPER_LEG_R {
        "upper-leg-r"@
    } else if b == LOWER_LEG_R {
        "lower-leg-r"@
    } else {
        "foot-r"@
    }
}

/// The name of a bone.
pub fn bone_name(b: usize) -> (r: &'static str)
    requires
        b < BONE_COUNT,
    ensures
        r@ == name_of(b as int),
{
    if b == HIPS {
        "hips"
    } else if b == TORSO {
        "torso"
    } else if b == HEAD {
        "head"
    } else if b == UPPER_ARM_L {
        "upper-arm-l"
    } else if b == LOWER_ARM_L {
        "lower-arm-l"
    } else if b == UPPER_ARM_R {
        "upper-arm-r"
    } else if b == LOWER_ARM_R {
        "lower-arm-r"
    } else if b == UPPER_LEG_L {
        "upper-leg-l"
    } else if b == LOWER_LEG_L {
        "lower-leg-l"
    } else if b == FOOT_L {
        "foot-l"
    } else if b == UPPER_LEG_R {
        "upper-leg-r"
    } else if b == LOWER_LEG_R {
        "lower-leg-r"
    } else {
        "foot-r"
    }
}

/// The humanoid rig. Parents always precede children, so the pose pass is
/// one forward loop.
#[derive(Debug, Clone)]
pub struct Skeleton {
    bones: Vec<Bone>,
}

/// Every bone hangs from an earlier one, or from the root.
pub open spec fn hangs_in_order(bones: Seq<Bone>) -> bool {
    forall|b: int|
        0 <= b < bones.len() ==> ((#[trigger] bones[b]).parent matches Some(p) ==> p < b)
}

impl View for Skeleton {
    type V = Seq<Bone>;

    closed spec fn view(&self) -> Seq<Bone> {
        self.bones@
    }
}

impl Skeleton {
    /// Parents precede children.
    pub open spec fn wf(&self) -> bool {
        hangs_in_order(self@)
    }

    /// The stick figure.
    pub fn humanoid() -> (r: Skeleton)
        ensures
            r@ == rig(),
            r.wf(),
            r@.len() == BONE_COUNT,
    {
        let bones: Vec<Bone> = vec![
            Bone {
                parent: None,
                from: Vec3 { x: 0, y: 0, z: 0 },
                dir: Vec3 { x: 0, y: 0x3DCC_CCCD, z: 0 },
                width: 0x3D4C_CCCD,
            },
            Bone {
                parent: Some(HIPS),
                from: Vec3 { x: 0, y: 0x3DCC_CCCD, z: 0 },
                dir: Vec3 { x: 0, y: 0x3F00_0000, z: 0 },
                width: 0x3D61_47AE,
            },
            Bone {
                parent: Some(TORSO),
                from: Vec3 { x: 0, y: 0x3F17_0A3D, z: 0 },
                dir: Vec3 { x: 0, y: 0x3E23_D70A, z: 0 },
                width: 0x3D23_D70A,
            },
            Bone {
                parent: Some(TORSO),
                from: Vec3 { x: 0x3E42_8F5C, y: 0x3EF5_C28F, z: 0 },
                dir: Vec3 { x: 0, y: 0xBE99_999A, z: 0 },
                width: 0x3D1B_A5E3,
            },
            Bone {
                parent: Some(UPPER_ARM_L),
                from: Vec3 { x: 0, y: 0xBE99_999A, z: 0 },
                dir: Vec3 { x: 0, y: 0xBE8A_3D71, z: 0 },
                width: 0x3D0B_4396,
            },
            Bone {
                parent: Some(TORSO),
                from: Vec3 { x: 0xBE42_8F5C, y: 0x3EF5_C28F, z: 0 },
                dir: Vec3 { x: 0, y: 0xBE99_999A, z: 0 },
                width: 0x3D1B_A5E3,
            },
            Bone {
                parent: Some(UPPER_ARM_R),
                from: Vec3 { x: 0, y: 0xBE99_999A, z: 0 },
                dir: Vec3 { x: 0, y: 0xBE8A_3D71, z: 0 },
                width: 0x3D0B_4396,
            },
            Bone {
                parent: Some(HIPS),
                from: Vec3 { x: 0x3DCC_CCCD, y: 0, z: 0 },
                dir: Vec3 { x: 0, y: 0xBEEB_851F, z: 0 },
                width: 0x3D44_9BA6,
            },
            Bone {
                parent: Some(UPPER_LEG_L),
                from: Vec3 { x: 0, y: 0xBEEB_851F, z: 0 },
                dir: Vec3 { x: 0, y: 0xBECC_CCCD, z: 0 },
                width: 0x3D2C_0831,
            },
            Bone {
                parent: Some(LOWER_LEG_L),
                from: Vec3 { x: 0, y: 0xBECC_CCCD, z: 0 },
                dir: Vec3 { x: 0, y: 0xBD0F_5C29, z: 0x3E23_D70A },
                width: 0x3D1B_A5E3,
            },
            Bone {
                parent: Some(HIPS),
                from: Vec3 { x: 0xBDCC_CCCD, y: 0, z: 0 },
                dir: Vec3 { x: 0, y: 0xBEEB_851F, z: 0 },
                width: 0x3D44_9BA6,
            },
            Bone {
                parent: Some(UPPER_LEG_R),
                from: Vec3 { x: 0, y: 0xBEEB_851F, z: 0 },
                dir: Vec3 { x: 0, y: 0xBECC_CCCD, z: 0 },
                width: 0x3D2C_0831,
            },
            Bone {
                parent: Some(LOWER_LEG_R),
                from: Vec3 { x: 0, y: 0xBECC_CCCD, z: 0 },
                dir: Vec3 { x: 0, y: 0xBD0F_5C29, z: 0x3E23_D70A },
                width: 0x3D1B_A5E3,
            },
        ];
        proof {
            assert(bones@ =~= rig());
        }
        Skeleton { bones }
    }

    /// Number of bones.
    pub fn bone_count(&self) -> (r: usize)
        ensures
            r == self@.len(),
    {
        self.bones.len()
    }

    /// A bone's parent; the root has none.
    pub fn parent(&self, b: usize) -> (r: Option<usize>)
        requires
            b < self@.len(),
        ensures
            r == self@[b as int].parent,
    {
        self.bones[b].parent
    }

    /// A bone's rest width.
    pub fn width(&self, b: usize) -> (r: u32)
        requires
            b < self@.len(),
        ensures
            r == self@[b as int].width,
    {
        self.bones[b].width
    }

    /// A bone as built.
    pub fn bone(&self, b: usize) -> (r: Bone)
        requires
            b < self@.len(),
        ensures
            r == self@[b as int],
    {
        self.bones[b]
    }
}

// ---------------------------------------------------------------------------
// State and stepping
// ---------------------------------------------------------------------------

/// Jump launch speed: 2.35 m/s.
pub const JUMP_V0: u32 = 0x4016_6666;

/// Landing absorption window: 0.3 s.
pub const LAND_WIN: u32 = 0x3E99_999A;

/// What a figure holds.
#[derive(Debug, Clone, Copy, PartialEq, Eq, Structural)]
pub enum Carry {
    /// Empty-handed.
    Nothing,
    /// A chest hold.
    Chest,
    /// A side hold.
    Side,
}

/// Locomotion intent for one character, one tick.
#[derive(Debug, Clone, Copy, PartialEq, Eq, Structural)]
pub struct MovementInput {
    /// Desired forward speed.
    pub target_speed: u32,
    /// Turn rate about the vertical.
    pub turn_rate: u32,
    /// Jump request, honored only while grounded. A held request launches
    /// again on every landing.
    pub jump: bool,
    /// Punch request: starts the one-shot when the arm is idle; ignored
    /// while one runs.
    pub punch: bool,
    /// Reach request, for hosts that animate one.
    pub reach: bool,
}

/// Standing still.
pub open spec fn idle_input() -> MovementInput {
    MovementInput { target_speed: 0, turn_rate: 0, jump: false, punch: false, reach: false }
}

impl Default for MovementInput {
    fn default() -> (r: MovementInput)
        ensures
            r == idle_input(),
    {
        MovementInput { target_speed: 0, turn_rate: 0, jump: false, punch: false, reach: false }
    }
}

/// One character: root state plus gait phase.
#[derive(Debug, Clone, Copy, PartialEq, Eq, Structural)]
pub struct Character {
    /// Root position on the ground plane.
    pub pos: Vec3,
    /// Heading about the vertical.
    pub heading: u32,
    /// Forward speed.
    pub speed: u32,
    /// Gait phase, unbounded.
    pub phase: u32,
    /// Seconds since spawn.
    pub t: u32,
    /// Heel strikes landed so far.
    pub footfalls: u64,
    /// Height scale.
    pub scale: u32,
    /// Root height above the ground plane.
    pub y: u32,
    /// Vertical velocity.
    pub vy: u32,
    /// Seconds since the last touchdown, up to the landing window.
    pub land_t: u32,
    /// Punch phase in `[0, 1)`; `None` while the arm is idle.
    pub punch: Option<u32>,
    /// What the figure holds.
    pub carry: Carry,
}

/// A quantity that floating point computes, for one fixed time step.
#[derive(Debug, Clone, Copy, PartialEq, Eq, Structural)]
pub enum Motion {
    /// The clock, one step on.
    Clock { t: u32 },
    /// The heading, turned at a rate.
    Turn { heading: u32, rate: u32 },
    /// The speed, eased toward a target; launching and braking have their
    /// own limits.
    Ease { speed: u32, target: u32, launching: bool },
    /// A coordinate, moved along the heading.
    TravelX { x: u32, heading: u32, speed: u32 },
    /// The resting height coordinate, moved along the heading.
    TravelY { y: u32, heading: u32, speed: u32 },
    /// A coordinate, moved along the heading.
    TravelZ { z: u32, heading: u32, speed: u32 },
    /// The height, moved at the vertical velocity.
    Rise { y: u32, vy: u32 },
    /// The vertical velocity under gravity.
    Fall { vy: u32 },
    /// The time since touchdown, one step on, within the landing window.
    Settle { land_t: u32 },
    /// The gait phase, advanced by ground distance.
    Stride { phase: u32, speed: u32 },
    /// The punch phase, one step on.
    Swing { phase: u32 },
}

/// On the floor and not mid-launch.
pub open spec fn on_ground(y: u32, vy: u32) -> bool {
    f32_ge_spec(0, y) && f32_ge_spec(0, vy)
}

/// The vertical velocity after a jump request.
pub open spec fn launched(c: Character, input: MovementInput) -> u32 {
    if input.jump && on_ground(c.y, c.vy) {
        JUMP_V0
    } else {
        c.vy
    }
}

/// Height, vertical velocity, and time since touchdown after one step: in
/// the air gravity pulls; the first step that does not stay above the
/// ground is touchdown.
pub open spec fn flown<F: Fn(Motion) -> u32>(c: Character, input: MovementInput, eval: F) -> (
    u32,
    u32,
    u32,
) {
    let vy = launched(c, input);
    let y = value(eval, Motion::Rise { y: c.y, vy });
    if f32_lt_spec(0, y) {
        (y, value(eval, Motion::Fall { vy }), c.land_t)
    } else {
        (
            0,
            if f32_lt_spec(vy, 0) {
                0
            } else {
                vy
            },
            if f32_lt_spec(0, c.y) || f32_lt_spec(0, vy) {
                0
            } else {
                value(eval, Motion::Settle { land_t: c.land_t })
            },
        )
    }
}

/// The punch after one step: idle until asked, then run to completion.
pub open spec fn punched<F: Fn(Motion) -> u32>(p: Option<u32>, asked: bool, eval: F) -> Option<u32> {
    match p {
        None => if asked {
            Some(0)
        } else {
            None
        },
        Some(phase) => {
            let next = value(eval, Motion::Swing { phase });
            if f32_lt_spec(next, 0x3F80_0000) {
                Some(next)
            } else {
                None
            }
        },
    }
}

/// The speed after one step, never below zero.
pub open spec fn eased<F: Fn(Motion) -> u32>(c: Character, input: MovementInput, eval: F) -> u32 {
    let speed = value(
        eval,
        Motion::Ease {
            speed: c.speed,
            target: input.target_speed,
            launching: f32_ge_spec(input.target_speed, c.speed),
        },
    );
    if f32_ge_spec(speed, 0) {
        speed
    } else {
        0
    }
}

/// Heel strikes between two phases: whole half cycles passed.
pub open spec fn strikes<H: Fn(u32) -> i64>(half: H, before: u32, after: u32) -> int {
    let n = value(half, after) - value(half, before);
    if n > 0 {
        n
    } else {
        0
    }
}

/// The character one step on.
pub open spec fn stepped<F: Fn(Motion) -> u32, H: Fn(u32) -> i64>(
    c: Character,
    input: MovementInput,
    eval: F,
    half: H,
) -> Character {
    let heading = value(eval, Motion::Turn { heading: c.heading, rate: input.turn_rate });
    let speed = eased(c, input, eval);
    let (y, vy, land_t) = flown(c, input, eval);
    let phase = if on_ground(y, vy) {
        value(eval, Motion::Stride { phase: c.phase, speed })
    } else {
        c.phase
    };
    Character {
        pos: Vec3 {
            x: value(eval, Motion::TravelX { x: c.pos.x, heading, speed }),
            y: value(eval, Motion::TravelY { y: c.pos.y, heading, speed }),
            z: value(eval, Motion::TravelZ { z: c.pos.z, heading, speed }),
        },
        heading,
        speed,
        phase,
        t: value(eval, Motion::Clock { t: c.t }),
        footfalls: if on_ground(y, vy) {
            (c.footfalls + strikes(half, c.phase, phase)) as u64
        } else {
            c.footfalls
        },
        scale: c.scale,
        y,
        vy,
        land_t,
        punch: punched(c.punch, input.punch, eval),
        carry: c.carry,
    }
}

/// Half cycles are counted within a range whose differences fit.
pub open spec fn counts_halves<H: Fn(u32) -> i64>(half: H) -> bool {
    steady(half) && forall|p: u32, n: i64|
        #[trigger] call_ensures(half, (p,), n) ==> -0x2000_0000_0000_0000 <= n
            <= 0x2000_0000_0000_0000
}

/// Half cycles are counted within a limit of zero.
pub open spec fn halves_within<H: Fn(u32) -> i64>(half: H, limit: nat) -> bool {
    forall|p: u32, n: i64| #[trigger] call_ensures(half, (p,), n) ==> -limit <= n <= limit
}

impl Character {
    /// A standing figure.
    pub fn new(pos: Vec3, heading: u32) -> (r: Character)
        ensures
            r == (Character {
                pos,
                heading,
                speed: 0,
                phase: 0,
                t: 0,
                footfalls: 0,
                scale: 0x3F80_0000,
                y: 0,
                vy: 0,
                land_t: LAND_WIN,
                punch: None,
                carry: Carry::Nothing,
            }),
    {
        Character {
            pos,
            heading,
            speed: 0,
            phase: 0,
            t: 0,
            footfalls: 0,
            scale: 0x3F80_0000,
            y: 0,
            vy: 0,
            land_t: LAND_WIN,
            punch: None,
            carry: Carry::Nothing,
        }
    }

    /// Ground contact: the stride advances, and jumps launch, only while
    /// grounded.
    pub fn grounded(&self) -> (r: bool)
        ensures
            r == on_ground(self.y, self.vy),
    {
        f32_ge(0, self.y) && f32_ge(0, self.vy)
    }

    fn fly<F: Fn(Motion) -> u32>(&mut self, input: &MovementInput, eval: &F)
        requires
            steady(*eval),
        ensures
            (final(self).y, final(self).vy, final(self).land_t) == flown(*old(self), *input, *eval),
            *final(self) == (Character {
                y: final(self).y,
                vy: final(self).vy,
                land_t: final(self).land_t,
                ..*old(self)
            }),
    {
        if input.jump && self.grounded() {
            self.vy = JUMP_V0;
        }
        let was_air: bool = f32_lt(0, self.y) || f32_lt(0, self.vy);
        let y: u32 = (*eval)(Motion::Rise { y: self.y, vy: self.vy });
        if f32_lt(0, y) {
            self.y = y;
            self.vy = (*eval)(Motion::Fall { vy: self.vy });
        } else {
            self.y = 0;
            if f32_lt(self.vy, 0) {
                self.vy = 0;
            }
            self.land_t = if was_air {
                0
            } else {
                (*eval)(Motion::Settle { land_t: self.land_t })
            };
        }
    }

    /// Advance exactly one time step: ease the speed, turn and travel,
    /// fly the vertical channel, advance the gait while in contact and
    /// count heel strikes, and progress the punch. `half` counts the
    /// whole half cycles of a phase.
    pub fn step<F: Fn(Motion) -> u32, H: Fn(u32) -> i64>(
        &mut self,
        input: &MovementInput,
        eval: &F,
        half: &H,
    )
        requires
            steady(*eval),
            counts_halves(*half),
            old(self).footfalls <= 0x7FFF_FFFF_FFFF_FFFF,
        ensures
            *final(self) == stepped(*old(self), *input, *eval, *half),
            old(self).footfalls <= final(self).footfalls,
            forall|limit: nat| #[trigger]
                halves_within(*half, limit) ==> final(self).footfalls <= old(self).footfalls + 2
                    * limit,
    {
        self.t = (*eval)(Motion::Clock { t: self.t });
        self.heading = (*eval)(Motion::Turn { heading: self.heading, rate: input.turn_rate });
        let launching: bool = f32_ge(input.target_speed, self.speed);
        let speed: u32 = (*eval)(
            Motion::Ease { speed: self.speed, target: input.target_speed, launching },
        );
        self.speed = if f32_ge(speed, 0) {
            speed
        } else {
            0
        };
        self.pos = Vec3 {
            x: (*eval)(
                Motion::TravelX { x: self.pos.x, heading: self.heading, speed: self.speed },
            ),
            y: (*eval)(
                Motion::TravelY { y: self.pos.y, heading: self.heading, speed: self.speed },
            ),
            z: (*eval)(
                Motion::TravelZ { z: self.pos.z, heading: self.heading, speed: self.speed },
            ),
        };
        self.fly(input, eval);
        if self.grounded() {
            let before: i64 = (*half)(self.phase);
            self.phase = (*eval)(Motion::Stride { phase: self.phase, speed: self.speed });
            let after: i64 = (*half)(self.phase);
            if after > before {
                self.footfalls = self.footfalls + (after - before) as u64;
            }
        }
        self.punch = match self.punch {
            None => if input.punch {
                Some(0)
            } else {
                None
            },
            Some(phase) => {
                let next: u32 = (*eval)(Motion::Swing { phase });
                if f32_lt(next, 0x3F80_0000) {
                    Some(next)
                } else {
                    None
                }
            },
        };
    }
}

/// A jump request in the air changes nothing: no double impulse.
pub proof fn lemma_airborne_jump_requests_do_nothing<F: Fn(Motion) -> u32, H: Fn(u32) -> i64>(
    c: Character,
    input: MovementInput,
    eval: F,
    half: H,
)
    requires
        !on_ground(c.y, c.vy),
    ensures
        stepped(c, MovementInput { jump: true, ..input }, eval, half) == stepped(
            c,
            MovementInput { jump: false, ..input },
            eval,
            half,
        ),
{
}

/// Without ground contact there is no stride and no heel strike.
pub proof fn lemma_no_contact_no_stride<F: Fn(Motion) -> u32, H: Fn(u32) -> i64>(
    c: Character,
    input: MovementInput,
    eval: F,
    half: H,
)
    ensures
        ({
            let n = stepped(c, input, eval, half);
            !on_ground(n.y, n.vy) ==> n.phase == c.phase && n.footfalls == c.footfalls
        }),
{
}

/// The step that ends a flight arms the landing absorption, and no step
/// leaves a figure below the ground.
pub proof fn lemma_touchdown_arms_the_landing<F: Fn(Motion) -> u32, H: Fn(u32) -> i64>(
    c: Character,
    input: MovementInput,
    eval: F,
    half: H,
)
    ensures
        ({
            let n = stepped(c, input, eval, half);
            &&& f32_ge_spec(n.y, 0)
            &&& f32_lt_spec(0, c.y) && !f32_lt_spec(0, n.y) ==> n.land_t == 0
        }),
{
}

/// A punch in progress does not listen: requests neither restart nor
/// extend it.
pub proof fn lemma_punches_run_to_completion<F: Fn(Motion) -> u32, H: Fn(u32) -> i64>(
    c: Character,
    input: MovementInput,
    eval: F,
    half: H,
)
    requires
        c.punch is Some,
    ensures
        stepped(c, MovementInput { punch: true, ..input }, eval, half) == stepped(
            c,
            MovementInput { punch: false, ..input },
            eval,
            half,
        ),
{
}

/// Heel strikes are never taken back.
pub proof fn lemma_footfalls_only_grow<F: Fn(Motion) -> u32, H: Fn(u32) -> i64>(
    c: Character,
    input: MovementInput,
    eval: F,
    half: H,
)
    requires
        c.footfalls + strikes(half, c.phase, stepped(c, input, eval, half).phase) <= u64::MAX,
    ensures
        stepped(c, input, eval, half).footfalls >= c.footfalls,
{
}

// ---------------------------------------------------------------------------
// Pose
// ---------------------------------------------------------------------------

/// A rotation of four bit patterns.
#[derive(Debug, Clone, Copy, PartialEq, Eq, Structural)]
pub struct Quat {
    pub x: u32,
    pub y: u32,
    pub z: u32,
    pub w: u32,
}

/// A placed bone: joint, tip, and world rotation.
#[derive(Debug, Clone, Copy, PartialEq, Eq, Structural)]
pub struct Placement {
    pub start: Vec3,
    pub tip: Vec3,
    pub rot: Quat,
}

/// Bone `b` hangs from its placed parent, or from the root.
pub open spec fn hung<F: Fn(usize, Option<Placement>) -> Placement>(
    bones: Seq<Bone>,
    attach: F,
    placed: Seq<Placement>,
    b: int,
) -> bool {
    call_ensures(
        attach,
        (
            b as usize,
            match bones[b].parent {
                Some(p) => Some(placed[p as int]),
                None => None,
            },
        ),
        placed[b],
    )
}

/// The pose shows some placement in which every bone hangs where it
/// should.
pub open spec fn poses<F: Fn(usize, Option<Placement>) -> Placement>(
    bones: Seq<Bone>,
    attach: F,
    pose: CharacterPose,
) -> bool {
    exists|placed: Seq<Placement>| #[trigger] shows(bones, attach, pose, placed)
}

/// The pose shows this placement.
pub open spec fn shows<F: Fn(usize, Option<Placement>) -> Placement>(
    bones: Seq<Bone>,
    attach: F,
    pose: CharacterPose,
    placed: Seq<Placement>,
) -> bool {
    &&& placed.len() == bones.len()
    &&& pose.start@ == placed.map_values(|p: Placement| p.start)
    &&& pose.tip@ == placed.map_values(|p: Placement| p.tip)
    &&& forall|b: int| 0 <= b < bones.len() ==> #[trigger] hung(bones, attach, placed, b)
}

/// A reused pose buffer for one character: joints and tips in world
/// space.
#[derive(Debug, Clone)]
pub struct CharacterPose {
    pub start: Vec<Vec3>,
    pub tip: Vec<Vec3>,
}

/// One point as a word.
pub open spec fn point_word(v: Vec3) -> u64 {
    (v.x as u64) ^ ((v.y as u64) << 32) ^ ((v.z as u64) << 17)
}

/// What one bone adds to a pose's digest: its joint and its tip folded
/// and avalanched.
pub open spec fn bone_word(b: (Vec3, Vec3)) -> u64 {
    splitmix_mix_spec(
        step_spec(step_spec(FNV_OFFSET, point_word(b.0)), point_word(b.1)),
    )
}

/// The digest of some bones in any order.
pub open spec fn bones_digest(bones: Seq<(Vec3, Vec3)>) -> u64 {
    gathered(bones, |b: (Vec3, Vec3)| bone_word(b))
}

/// A pose's digest does not depend on the order of its bones.
pub proof fn lemma_pose_digest_ignores_order(a: CharacterPose, b: CharacterPose)
    requires
        a.bones().to_multiset() == b.bones().to_multiset(),
    ensures
        bones_digest(a.bones()) == bones_digest(b.bones()),
{
    lemma_gathering_ignores_order(a.bones(), b.bones(), |b: (Vec3, Vec3)| bone_word(b));
}

impl CharacterPose {
    /// Joints and tips are parallel.
    pub open spec fn wf(&self) -> bool {
        self.tip@.len() == self.start@.len()
    }

    /// A zeroed buffer for a rig.
    pub fn new(skeleton: &Skeleton) -> (r: CharacterPose)
        ensures
            r.wf(),
            r.start@ == Seq::new(skeleton@.len(), |i: int| Vec3 { x: 0, y: 0, z: 0 }),
            r.tip@ == Seq::new(skeleton@.len(), |i: int| Vec3 { x: 0, y: 0, z: 0 }),
    {
        let n: usize = skeleton.bone_count();
        let mut start: Vec<Vec3> = Vec::with_capacity(n);
        let mut tip: Vec<Vec3> = Vec::with_capacity(n);
        let mut i: usize = 0;
        while i < n
            invariant
                i <= n,
                start@ == Seq::new(i as nat, |i: int| Vec3 { x: 0, y: 0, z: 0 }),
                tip@ == Seq::new(i as nat, |i: int| Vec3 { x: 0, y: 0, z: 0 }),
            decreases n - i,
        {
            start.push(Vec3 { x: 0, y: 0, z: 0 });
            tip.push(Vec3 { x: 0, y: 0, z: 0 });
            i = i + 1;
            proof {
                assert(start@ =~= Seq::new(i as nat, |i: int| Vec3 { x: 0, y: 0, z: 0 }));
                assert(tip@ =~= Seq::new(i as nat, |i: int| Vec3 { x: 0, y: 0, z: 0 }));
            }
        }
        CharacterPose { start, tip }
    }

    /// Number of bones.
    pub fn len(&self) -> (r: usize)
        ensures
            r == self.start@.len(),
    {
        self.start.len()
    }

    /// Whether there are none.
    pub fn is_empty(&self) -> (r: bool)
        ensures
            r == (self.start@.len() == 0),
    {
        self.start.len() == 0
    }

    /// The bones: joint and tip.
    pub open spec fn bones(&self) -> Seq<(Vec3, Vec3)> {
        Seq::new(self.start@.len(), |i: int| (self.start@[i], self.tip@[i]))
    }

    /// An order-independent digest of the pose.
    pub fn checksum(&self) -> (r: u64)
        requires
            self.wf(),
        ensures
            r == bones_digest(self.bones()),
    {
        let mut acc: u64 = FNV_OFFSET;
        let mut b: usize = 0;
        let ghost all = self.bones();
        let ghost word = |b: (Vec3, Vec3)| bone_word(b);
        proof {
            assert(all.take(0) =~= Seq::<(Vec3, Vec3)>::empty());
            vstd::arithmetic::div_mod::lemma_small_mod(FNV_OFFSET as nat, two64() as nat);
        }
        while b < self.start.len()
            invariant
                self.wf(),
                b <= self.start@.len(),
                all == self.bones(),
                word == (|b: (Vec3, Vec3)| bone_word(b)),
                acc == gathered(all.take(b as int), word),
            decreases self.start@.len() - b,
        {
            let s = self.start[b];
            let t = self.tip[b];
            let h: u64 = step(
                step(FNV_OFFSET, (s.x as u64) ^ ((s.y as u64) << 32) ^ ((s.z as u64) << 17)),
                (t.x as u64) ^ ((t.y as u64) << 32) ^ ((t.z as u64) << 17),
            );
            acc = acc.wrapping_add(splitmix_mix(h));
            proof {
                assert(all.take(b + 1) =~= all.take(b as int).push(all[b as int]));
                lemma_gather_push(all.take(b as int), all[b as int], word);
            }
            b = b + 1;
        }
        proof {
            assert(all.take(b as int) =~= all);
        }
        acc
    }
}

/// Place every bone of a rig, parents before children. `attach(b, p)`
/// places bone `b` on its placed parent `p`, or on the root; it captures
/// the character and its animated local rotations.
pub fn pose_into<F: Fn(usize, Option<Placement>) -> Placement>(
    skeleton: &Skeleton,
    pose: &mut CharacterPose,
    attach: &F,
)
    requires
        skeleton.wf(),
        old(pose).wf(),
        old(pose).start@.len() == skeleton@.len(),
        forall|b: usize, p: Option<Placement>| #[trigger] call_requires(*attach, (b, p)),
    ensures
        final(pose).wf(),
        poses(skeleton@, *attach, *final(pose)),
{
    let n: usize = skeleton.bone_count();
    let mut placed: Vec<Placement> = Vec::with_capacity(n);
    let mut b: usize = 0;
    while b < n
        invariant
            b <= n,
            n == skeleton@.len(),
            skeleton.wf(),
            placed@.len() == b,
            pose.start@.len() == n,
            pose.tip@.len() == n,
            forall|b: usize, p: Option<Placement>| #[trigger] call_requires(*attach, (b, p)),
            forall|i: int| 0 <= i < b ==> #[trigger] hung(skeleton@, *attach, placed@, i),
            forall|i: int|
                0 <= i < b ==> pose.start@[i] == (#[trigger] placed@[i]).start && pose.tip@[i]
                    == placed@[i].tip,
        decreases n - b,
    {
        let ghost before = placed@;
        let parent = skeleton.parent(b);
        proof {
            assert(skeleton@[b as int].parent == parent);
        }
        let on = match parent {
            Some(p) => Some(placed[p]),
            None => None,
        };
        let here = (*attach)(b, on);
        placed.push(here);
        pose.start.set(b, here.start);
        pose.tip.set(b, here.tip);
        proof {
            assert forall|i: int| 0 <= i < b + 1 implies #[trigger] hung(
                skeleton@,
                *attach,
                placed@,
                i,
            ) by {
                assert(skeleton@[i].parent matches Some(p) ==> p < i);
                if i < b {
                    assert(hung(skeleton@, *attach, before, i));
                }
            }
        }
        b = b + 1;
    }
    proof {
        assert(pose.start@ =~= placed@.map_values(|p: Placement| p.start));
        assert(pose.tip@ =~= placed@.map_values(|p: Placement| p.tip));
        assert(shows(skeleton@, *attach, *pose, placed@));
    }
}

proof fn lemma_hung_alike<F: Fn(usize, Option<Placement>) -> Placement>(
    bones: Seq<Bone>,
    attach: F,
    p: Seq<Placement>,
    q: Seq<Placement>,
    b: int,
)
    requires
        hangs_in_order(bones),
        p.len() == bones.len(),
        q.len() == bones.len(),
        forall|i: int| 0 <= i < bones.len() ==> #[trigger] hung(bones, attach, p, i),
        forall|i: int| 0 <= i < bones.len() ==> #[trigger] hung(bones, attach, q, i),
        forall|i: usize, on: Option<Placement>, s: Placement, t: Placement|
            #[trigger] call_ensures(attach, (i, on), s) && #[trigger] call_ensures(
                attach,
                (i, on),
                t,
            ) ==> s == t,
        0 <= b < bones.len(),
    ensures
        p[b] == q[b],
    decreases b,
{
    if let Some(up) = bones[b].parent {
        lemma_hung_alike(bones, attach, p, q, up as int);
    }
    assert(hung(bones, attach, p, b));
    assert(hung(bones, attach, q, b));
}

/// A pose is determined by the rig and by how bones attach: two passes
/// place every joint and tip alike, whatever the buffers held before.
pub proof fn lemma_poses_are_determined<F: Fn(usize, Option<Placement>) -> Placement>(
    skeleton: Skeleton,
    attach: F,
    a: CharacterPose,
    b: CharacterPose,
)
    requires
        skeleton.wf(),
        poses(skeleton@, attach, a),
        poses(skeleton@, attach, b),
        forall|i: usize, on: Option<Placement>, s: Placement, t: Placement|
            #[trigger] call_ensures(attach, (i, on), s) && #[trigger] call_ensures(
                attach,
                (i, on),
                t,
            ) ==> s == t,
    ensures
        a.start@ == b.start@,
        a.tip@ == b.tip@,
{
    let p = choose|placed: Seq<Placement>| #[trigger] shows(skeleton@, attach, a, placed);
    let q = choose|placed: Seq<Placement>| #[trigger] shows(skeleton@, attach, b, placed);
    assert(p =~= q) by {
        assert forall|i: int| 0 <= i < skeleton@.len() implies p[i] == q[i] by {
            lemma_hung_alike(skeleton@, attach, p, q, i);
        }
    }
}

/// Joints and tips are reached alike: a tip from its own bone's joint and
/// rotation along the bone, a joint from the parent's joint and rotation
/// along its offset.
pub open spec fn reaches<F: Fn(usize, Option<Placement>) -> Placement>(
    bones: Seq<Bone>,
    attach: F,
    reach: spec_fn(Vec3, Quat, Vec3) -> Vec3,
) -> bool {
    &&& forall|b: usize, on: Option<Placement>, placed: Placement|
        #![trigger call_ensures(attach, (b, on), placed)]
        b < bones.len() && call_ensures(attach, (b, on), placed) ==> placed.tip == reach(
            placed.start,
            placed.rot,
            bones[b as int].dir,
        )
    &&& forall|b: usize, up: Placement, placed: Placement|
        #![trigger call_ensures(attach, (b, Some(up)), placed)]
        b < bones.len() && call_ensures(attach, (b, Some(up)), placed) ==> placed.start == reach(
            up.start,
            up.rot,
            bones[b as int].from,
        )
}

/// Limbs stay joined in every pose: a bone whose offset is its parent's
/// whole length starts exactly at the parent's tip.
pub proof fn lemma_limbs_stay_joined<F: Fn(usize, Option<Placement>) -> Placement>(
    skeleton: Skeleton,
    attach: F,
    reach: spec_fn(Vec3, Quat, Vec3) -> Vec3,
    pose: CharacterPose,
    b: int,
)
    requires
        skeleton.wf(),
        poses(skeleton@, attach, pose),
        reaches(skeleton@, attach, reach),
        0 <= b < skeleton@.len(),
        skeleton@[b].parent is Some,
        skeleton@[b].from == skeleton@[skeleton@[b].parent->0 as int].dir,
    ensures
        pose.start@[b] == pose.tip@[skeleton@[b].parent->0 as int],
{
    let bones = skeleton@;
    let placed = choose|placed: Seq<Placement>| #[trigger] shows(bones, attach, pose, placed);
    let p = bones[b].parent->0;
    assert(b < skeleton.bones.len());
    assert(hung(bones, attach, placed, b));
    assert(hung(bones, attach, placed, p as int));
}

/// In the humanoid rig the torso, the lower arms, the lower legs and the
/// feet hang at their parents' tips.
pub proof fn lemma_rig_limbs_hang_at_tips(b: int)
    requires
        b == TORSO || b == LOWER_ARM_L || b == LOWER_ARM_R || b == LOWER_LEG_L || b == LOWER_LEG_R
            || b == FOOT_L || b == FOOT_R,
    ensures
        0 <= b < rig().len(),
        rig()[b].parent is Some,
        rig()[b].from == rig()[rig()[b].parent->0 as int].dir,
{
}

} // verus!

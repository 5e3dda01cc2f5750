//! Gaits: the amplitudes of the walk and the run, and how speed blends
//! from standing to walking and from walking to running.
use vstd::prelude::*;
use crate::bits::{f32_ge, F32_ONE, F32_ZERO};
use crate::character::LAND_WIN;
use crate::view::clamp;

verus! {

use crate::bits::{f32_ge_spec, f32_is_finite, f32_key, F32_SIGN};
use crate::eval::{steady, value};
use crate::view::clamped;

/// Below 0.15 m/s the figure idles.
pub const MOVE_LO: u32 = 0x3E19_999A;

/// From 0.9 m/s on it fully walks.
pub const MOVE_HI: u32 = 0x3F66_6666;

/// Up to 2.1 m/s the walk is pure.
pub const RUN_LO: u32 = 0x4006_6666;

/// From 3.1 m/s on the run is.
pub const RUN_HI: u32 = 0x4046_6666;

/// Locomotion amplitudes of one gait.
#[derive(Debug, Clone, Copy, PartialEq, Eq, Structural)]
pub struct GaitParams {
    /// Ground distance of a full cycle of both feet.
    pub stride_len: u32,
    /// Thigh pitch from vertical.
    pub thigh: u32,
    /// Knee flexion while the leg swings.
    pub knee: u32,
    /// Knee flexion kept while it stands.
    pub stance_knee: u32,
    /// Ankle push-off and clearance.
    pub foot: u32,
    /// Upper-arm swing.
    pub arm: u32,
    /// Elbow flexion.
    pub elbow: u32,
    /// Vertical oscillation of the root, twice a cycle.
    pub bob: u32,
    /// Lateral weight shift, once a cycle.
    pub lat: u32,
    /// Forward lean of the torso.
    pub lean: u32,
    /// Pelvis yaw.
    pub hip_sway: u32,
    /// Counter-yaw of the torso.
    pub torso_sway: u32,
}

/// The walk.
pub open spec fn walking() -> GaitParams {
    GaitParams {
        stride_len: 0x3FAC_CCCD,
        thigh: 0x3ED7_0A3D,
        knee: 0x3F73_3333,
        stance_knee: 0x3D75_C28F,
        foot: 0x3E61_47AE,
        arm: 0x3EA3_D70A,
        elbow: 0x3E8F_5C29,
        bob: 0x3C83_126F,
        lat: 0x3C93_74BC,
        lean: 0x3D8F_5C29,
        hip_sway: 0x3DCC_CCCD,
        torso_sway: 0x3DF5_C28F,
    }
}

/// The walk.
pub fn walk() -> (r: GaitParams)
    ensures
        r == walking(),
{
    GaitParams {
        stride_len: 0x3FAC_CCCD,
        thigh: 0x3ED7_0A3D,
        knee: 0x3F73_3333,
        stance_knee: 0x3D75_C28F,
        foot: 0x3E61_47AE,
        arm: 0x3EA3_D70A,
        elbow: 0x3E8F_5C29,
        bob: 0x3C83_126F,
        lat: 0x3C93_74BC,
        lean: 0x3D8F_5C29,
        hip_sway: 0x3DCC_CCCD,
        torso_sway: 0x3DF5_C28F,
    }
}

/// The run: a longer stride, deeper knees, pumped arms, more lean and
/// bob.
pub open spec fn running() -> GaitParams {
    GaitParams {
        stride_len: 0x4030_0000,
        thigh: 0x3F2E_147B,
        knee: 0x3FA0_0000,
        stance_knee: 0x3E61_47AE,
        foot: 0x3EB3_3333,
        arm: 0x3F38_51EC,
        elbow: 0x3F86_6666,
        bob: 0x3D38_51EC,
        lat: 0x3C44_9BA6,
        lean: 0x3E75_C28F,
        hip_sway: 0x3E23_D70A,
        torso_sway: 0x3E4C_CCCD,
    }
}

/// The run: a longer stride, deeper knees, pumped arms, more lean and
/// bob.
pub fn run() -> (r: GaitParams)
    ensures
        r == running(),
{
    GaitParams {
        stride_len: 0x4030_0000,
        thigh: 0x3F2E_147B,
        knee: 0x3FA0_0000,
        stance_knee: 0x3E61_47AE,
        foot: 0x3EB3_3333,
        arm: 0x3F38_51EC,
        elbow: 0x3F86_6666,
        bob: 0x3D38_51EC,
        lat: 0x3C44_9BA6,
        lean: 0x3E75_C28F,
        hip_sway: 0x3E23_D70A,
        torso_sway: 0x3E4C_CCCD,
    }
}

/// What a blend asks of arithmetic.
#[derive(Debug, Clone, Copy, PartialEq, Eq, Structural)]
pub enum Blend {
    /// How far `x` lies from `edge0` to `edge1`.
    Ratio { edge0: u32, edge1: u32, x: u32 },
    /// The smooth ease of a fraction.
    Ease { t: u32 },
    /// `a` and `b`, mixed by a fraction.
    Mix { a: u32, b: u32, t: u32 },
    /// What is left of a landing after some time.
    Decay { t: u32 },
}

/// The smooth step of `x` between two edges: the eased ratio, kept in the
/// unit range.
pub open spec fn smooth<F: Fn(Blend) -> u32>(eval: F, edge0: u32, edge1: u32, x: u32) -> u32 {
    let ratio = value(eval, Blend::Ratio { edge0, edge1, x });
    value(eval, Blend::Ease { t: clamped(ratio, F32_ZERO, F32_ONE) })
}

/// Two gaits, mixed field by field.
pub open spec fn mixed<F: Fn(Blend) -> u32>(
    a: GaitParams,
    b: GaitParams,
    t: u32,
    eval: F,
) -> GaitParams {
    GaitParams {
        stride_len: value(eval, Blend::Mix { a: a.stride_len, b: b.stride_len, t }),
        thigh: value(eval, Blend::Mix { a: a.thigh, b: b.thigh, t }),
        knee: value(eval, Blend::Mix { a: a.knee, b: b.knee, t }),
        stance_knee: value(eval, Blend::Mix { a: a.stance_knee, b: b.stance_knee, t }),
        foot: value(eval, Blend::Mix { a: a.foot, b: b.foot, t }),
        arm: value(eval, Blend::Mix { a: a.arm, b: b.arm, t }),
        elbow: value(eval, Blend::Mix { a: a.elbow, b: b.elbow, t }),
        bob: value(eval, Blend::Mix { a: a.bob, b: b.bob, t }),
        lat: value(eval, Blend::Mix { a: a.lat, b: b.lat, t }),
        lean: value(eval, Blend::Mix { a: a.lean, b: b.lean, t }),
        hip_sway: value(eval, Blend::Mix { a: a.hip_sway, b: b.hip_sway, t }),
        torso_sway: value(eval, Blend::Mix { a: a.torso_sway, b: b.torso_sway, t }),
    }
}

impl GaitParams {
    /// Mix toward another gait, field by field.
    pub fn lerp<F: Fn(Blend) -> u32>(self, other: GaitParams, t: u32, eval: &F) -> (r: GaitParams)
        requires
            steady(*eval),
        ensures
            r == mixed(self, other, t, *eval),
    {
        GaitParams {
            stride_len: (*eval)(Blend::Mix { a: self.stride_len, b: other.stride_len, t }),
            thigh: (*eval)(Blend::Mix { a: self.thigh, b: other.thigh, t }),
            knee: (*eval)(Blend::Mix { a: self.knee, b: other.knee, t }),
            stance_knee: (*eval)(Blend::Mix { a: self.stance_knee, b: other.stance_knee, t }),
            foot: (*eval)(Blend::Mix { a: self.foot, b: other.foot, t }),
            arm: (*eval)(Blend::Mix { a: self.arm, b: other.arm, t }),
            elbow: (*eval)(Blend::Mix { a: self.elbow, b: other.elbow, t }),
            bob: (*eval)(Blend::Mix { a: self.bob, b: other.bob, t }),
            lat: (*eval)(Blend::Mix { a: self.lat, b: other.lat, t }),
            lean: (*eval)(Blend::Mix { a: self.lean, b: other.lean, t }),
            hip_sway: (*eval)(Blend::Mix { a: self.hip_sway, b: other.hip_sway, t }),
            torso_sway: (*eval)(Blend::Mix { a: self.torso_sway, b: other.torso_sway, t }),
        }
    }
}

/// The smooth step of `x` between two edges.
pub fn smoothstep<F: Fn(Blend) -> u32>(edge0: u32, edge1: u32, x: u32, eval: &F) -> (r: u32)
    requires
        steady(*eval),
    ensures
        r == smooth(*eval, edge0, edge1, x),
{
    let ratio: u32 = (*eval)(Blend::Ratio { edge0, edge1, x });
    (*eval)(Blend::Ease { t: clamp(ratio, F32_ZERO, F32_ONE) })
}

/// How much a speed moves, from standing to walking.
pub open spec fn move_share<F: Fn(Blend) -> u32>(speed: u32, eval: F) -> u32 {
    smooth(eval, MOVE_LO, MOVE_HI, speed)
}

/// How much a speed runs, from walking to running.
pub open spec fn run_share<F: Fn(Blend) -> u32>(speed: u32, eval: F) -> u32 {
    smooth(eval, RUN_LO, RUN_HI, speed)
}

/// The gait of a speed.
pub open spec fn gait_of<F: Fn(Blend) -> u32>(speed: u32, eval: F) -> GaitParams {
    mixed(walking(), running(), run_share(speed, eval), eval)
}

/// What is left of a landing.
pub open spec fn bump<F: Fn(Blend) -> u32>(t: u32, eval: F) -> u32 {
    if f32_ge_spec(t, LAND_WIN) {
        F32_ZERO
    } else {
        value(eval, Blend::Decay { t })
    }
}

/// From standing to moving, by speed.
pub fn move_blend<F: Fn(Blend) -> u32>(speed: u32, eval: &F) -> (r: u32)
    requires
        steady(*eval),
    ensures
        r == move_share(speed, *eval),
{
    smoothstep(MOVE_LO, MOVE_HI, speed, eval)
}

/// From walking to running, by speed.
pub fn run_blend<F: Fn(Blend) -> u32>(speed: u32, eval: &F) -> (r: u32)
    requires
        steady(*eval),
    ensures
        r == run_share(speed, *eval),
{
    smoothstep(RUN_LO, RUN_HI, speed, eval)
}

/// The gait at a speed: the walk, mixed toward the run.
pub fn gait_at<F: Fn(Blend) -> u32>(speed: u32, eval: &F) -> (r: GaitParams)
    requires
        steady(*eval),
    ensures
        r == gait_of(speed, *eval),
{
    let t: u32 = run_blend(speed, eval);
    walk().lerp(run(), t, eval)
}

/// How much of a landing is still to be absorbed: nothing once the window
/// is over.
pub fn land_bump<F: Fn(Blend) -> u32>(t: u32, eval: &F) -> (r: u32)
    requires
        steady(*eval),
    ensures
        r == bump(t, *eval),
{
    if f32_ge(t, LAND_WIN) {
        F32_ZERO
    } else {
        (*eval)(Blend::Decay { t })
    }
}

// ---------------------------------------------------------------------------
// Laws
// ---------------------------------------------------------------------------

/// A finite number other than the negative zero.
pub open spec fn plain(v: u32) -> bool {
    f32_is_finite(v) && v != F32_SIGN
}

/// A gait of plain amplitudes.
pub open spec fn plain_gait(g: GaitParams) -> bool {
    &&& plain(g.stride_len)
    &&& plain(g.thigh)
    &&& plain(g.knee)
    &&& plain(g.stance_knee)
    &&& plain(g.foot)
    &&& plain(g.arm)
    &&& plain(g.elbow)
    &&& plain(g.bob)
    &&& plain(g.lat)
    &&& plain(g.lean)
    &&& plain(g.hip_sway)
    &&& plain(g.torso_sway)
}

/// Mixing plain numbers by zero gives the one, by one the other.
pub open spec fn mixes_exactly<F: Fn(Blend) -> u32>(eval: F) -> bool {
    &&& forall|a: u32, b: u32, t: u32|
        plain(a) && plain(b) && f32_key(t) == 0 ==> #[trigger] value(eval, Blend::Mix { a, b, t })
            == a
    &&& forall|a: u32, b: u32, t: u32|
        plain(a) && plain(b) && t == F32_ONE ==> #[trigger] value(eval, Blend::Mix { a, b, t }) == b
}

/// Mixing two gaits is exact at both ends.
pub proof fn lemma_lerp_is_exact_at_the_ends<F: Fn(Blend) -> u32>(
    a: GaitParams,
    b: GaitParams,
    t: u32,
    eval: F,
)
    requires
        mixes_exactly(eval),
        plain_gait(a),
        plain_gait(b),
    ensures
        f32_key(t) == 0 ==> mixed(a, b, t, eval) == a,
        t == F32_ONE ==> mixed(a, b, t, eval) == b,
{
}

/// A ratio is at most zero up to the first edge and at least one from the
/// second on, and easing keeps zero and one.
pub open spec fn exact_at_ends<F: Fn(Blend) -> u32>(eval: F, edge0: u32, edge1: u32) -> bool {
    &&& forall|x: u32|
        f32_ge_spec(edge0, x) ==> f32_ge_spec(
            F32_ZERO,
            #[trigger] value(eval, Blend::Ratio { edge0, edge1, x }),
        )
    &&& forall|x: u32|
        f32_ge_spec(x, edge1) ==> f32_ge_spec(
            #[trigger] value(eval, Blend::Ratio { edge0, edge1, x }),
            F32_ONE,
        )
    &&& forall|t: u32| f32_key(t) == 0 ==> f32_key(#[trigger] value(eval, Blend::Ease { t })) == 0
    &&& value(eval, Blend::Ease { t: F32_ONE }) == F32_ONE
}

/// A blend is zero up to its first edge and one from its second on.
pub proof fn lemma_blends_settle<F: Fn(Blend) -> u32>(eval: F, edge0: u32, edge1: u32, x: u32)
    requires
        exact_at_ends(eval, edge0, edge1),
    ensures
        f32_ge_spec(edge0, x) ==> f32_key(smooth(eval, edge0, edge1, x)) == 0,
        f32_ge_spec(x, edge1) ==> smooth(eval, edge0, edge1, x) == F32_ONE,
{
    let ratio = value(eval, Blend::Ratio { edge0, edge1, x });
    let t = clamped(ratio, F32_ZERO, F32_ONE);
    if f32_ge_spec(edge0, x) {
        assert(f32_key(t) == 0);
    }
    if f32_ge_spec(x, edge1) {
        assert(t == F32_ONE);
    }
}

/// Up to the lower speed the gait is the pure walk, from the upper on the
/// pure run.
pub proof fn lemma_pure_gaits_at_the_ends<F: Fn(Blend) -> u32>(eval: F, speed: u32)
    requires
        exact_at_ends(eval, 0x4006_6666, 0x4046_6666),
        mixes_exactly(eval),
    ensures
        f32_ge_spec(0x4006_6666, speed) ==> gait_of(speed, eval) == walking(),
        f32_ge_spec(speed, 0x4046_6666) ==> gait_of(speed, eval) == running(),
{
    lemma_blends_settle(eval, RUN_LO, RUN_HI, speed);
    let t = smooth(eval, RUN_LO, RUN_HI, speed);
    lemma_lerp_is_exact_at_the_ends(walking(), running(), t, eval);
}

/// Up to 0.15 m/s a figure stands and from 0.9 m/s on it moves, all of
/// it; up to 2.1 m/s it walks and from 3.1 m/s on it runs, all of it.
pub proof fn lemma_shares_are_whole_at_the_ends<F: Fn(Blend) -> u32>(eval: F, speed: u32)
    requires
        exact_at_ends(eval, 0x3E19_999A, 0x3F66_6666),
        exact_at_ends(eval, 0x4006_6666, 0x4046_6666),
    ensures
        f32_ge_spec(0x3E19_999A, speed) ==> f32_key(move_share(speed, eval)) == 0,
        f32_ge_spec(speed, 0x3F66_6666) ==> move_share(speed, eval) == 0x3F80_0000,
        f32_ge_spec(0x4006_6666, speed) ==> f32_key(run_share(speed, eval)) == 0,
        f32_ge_spec(speed, 0x4046_6666) ==> run_share(speed, eval) == 0x3F80_0000,
{
    lemma_blends_settle(eval, 0x3E19_999A, 0x3F66_6666, speed);
    lemma_blends_settle(eval, 0x4006_6666, 0x4046_6666, speed);
}

/// A landing is absorbed within three tenths of a second, and until then
/// fades by its age alone.
pub proof fn lemma_landings_fade<F: Fn(Blend) -> u32>(eval: F, t: u32)
    ensures
        f32_ge_spec(t, 0x3E99_999A) ==> bump(t, eval) == 0,
        !f32_ge_spec(t, 0x3E99_999A) ==> bump(t, eval) == value(eval, Blend::Decay { t }),
{
}

/// Blends never fall as speed rises, where the ratio does not and easing
/// does not fall within the unit range.
pub proof fn lemma_blends_are_monotone<F: Fn(Blend) -> u32>(
    eval: F,
    edge0: u32,
    edge1: u32,
    x: u32,
    y: u32,
)
    requires
        f32_ge_spec(
            value(eval, Blend::Ratio { edge0, edge1, x: y }),
            value(eval, Blend::Ratio { edge0, edge1, x }),
        ),
        forall|s: u32, t: u32|
            f32_ge_spec(s, F32_ZERO) && f32_ge_spec(t, s) && f32_ge_spec(F32_ONE, t)
                ==> f32_ge_spec(
                #[trigger] value(eval, Blend::Ease { t }),
                #[trigger] value(eval, Blend::Ease { t: s }),
            ),
    ensures
        f32_ge_spec(smooth(eval, edge0, edge1, y), smooth(eval, edge0, edge1, x)),
{
    let s = clamped(value(eval, Blend::Ratio { edge0, edge1, x }), F32_ZERO, F32_ONE);
    let t = clamped(value(eval, Blend::Ratio { edge0, edge1, x: y }), F32_ZERO, F32_ONE);
    assert(f32_ge_spec(s, F32_ZERO) && f32_ge_spec(t, s) && f32_ge_spec(F32_ONE, t));
}

} // verus!

//! What holds of every figure: how one step moves, flies, lands, strides
//! and punches, how bones hang, how controllers steer, and where a scene
//! puts its walkers.
use vstd::prelude::*;

verus! {

use crate::bits::{f32_ge_spec, f32_lt_spec, f32_magnitude};
use crate::character::{
    poses, shows, stepped, hung, Bone, Carry, Character, CharacterPose, Motion, MovementInput,
    Placement, Vec3,
};
use crate::eval::value;
use crate::mandala::{
    builds, figure_of, figures, loop_count, loop_of, seated, tier_of, Field, LoopSpec, MandalaSpec,
    Measures,
};
use crate::movement::{
    circled, mirrored, placed_at, sent, shows_stance, ticked, walked, Aim, BoneSegment, Hang,
    MoveTarget, Walker,
};
use crate::rng::{counter_after, hop_seed, unit_draw};
use crate::walkers::{steered, walker_of, CirclePath, Layout, ScenePreset, SpawnSpec};

// ---------------------------------------------------------------------------
// One step
// ---------------------------------------------------------------------------

/// A step turns first and then travels: the figure goes along its new
/// heading at its new speed, its clock runs, and what it holds and how
/// tall it is stay.
pub proof fn lemma_steps_travel_along_the_new_heading<F: Fn(Motion) -> u32, H: Fn(u32) -> i64>(
    c: Character,
    input: MovementInput,
    eval: F,
    half: H,
)
    ensures
        ({
            let n = stepped(c, input, eval, half);
            &&& n.t == value(eval, Motion::Clock { t: c.t })
            &&& n.heading == value(eval, Motion::Turn { heading: c.heading, rate: input.turn_rate })
            &&& n.pos.x == value(
                eval,
                Motion::TravelX { x: c.pos.x, heading: n.heading, speed: n.speed },
            )
            &&& n.pos.y == value(
                eval,
                Motion::TravelY { y: c.pos.y, heading: n.heading, speed: n.speed },
            )
            &&& n.pos.z == value(
                eval,
                Motion::TravelZ { z: c.pos.z, heading: n.heading, speed: n.speed },
            )
            &&& n.scale == c.scale
            &&& n.carry == c.carry
        }),
{
}

/// Speed eases toward its target, launching up to it and braking down to
/// it, and never falls below zero.
pub proof fn lemma_speed_eases_toward_the_target<F: Fn(Motion) -> u32, H: Fn(u32) -> i64>(
    c: Character,
    input: MovementInput,
    eval: F,
    half: H,
)
    ensures
        ({
            let n = stepped(c, input, eval, half);
            let launching = f32_ge_spec(input.target_speed, c.speed);
            let speed = value(
                eval,
                Motion::Ease { speed: c.speed, target: input.target_speed, launching },
            );
            &&& f32_ge_spec(n.speed, 0)
            &&& f32_ge_spec(speed, 0) ==> n.speed == speed
            &&& !f32_ge_spec(speed, 0) ==> n.speed == 0
        }),
{
}

/// A jump asked for on the ground launches at the jump speed, and only
/// then: the height rises by it, and gravity takes its first share.
pub proof fn lemma_jumps_launch_from_the_ground<F: Fn(Motion) -> u32, H: Fn(u32) -> i64>(
    c: Character,
    input: MovementInput,
    eval: F,
    half: H,
)
    requires
        f32_ge_spec(0, c.y),
        f32_ge_spec(0, c.vy),
        input.jump,
        f32_lt_spec(0, value(eval, Motion::Rise { y: c.y, vy: 0x4016_6666 })),
    ensures
        ({
            let n = stepped(c, input, eval, half);
            &&& n.y == value(eval, Motion::Rise { y: c.y, vy: 0x4016_6666 })
            &&& n.vy == value(eval, Motion::Fall { vy: 0x4016_6666 })
            &&& n.land_t == c.land_t
            &&& n.phase == c.phase
            &&& n.footfalls == c.footfalls
        }),
{
}

/// Without a jump from the ground, height is the arc of gravity: above
/// the ground the figure rises at its velocity and its velocity falls;
/// where the arc meets the ground it stops there, and a fall ends.
pub proof fn lemma_flights_are_ballistic<F: Fn(Motion) -> u32, H: Fn(u32) -> i64>(
    c: Character,
    input: MovementInput,
    eval: F,
    half: H,
)
    requires
        !input.jump || f32_lt_spec(0, c.y) || f32_lt_spec(0, c.vy),
    ensures
        ({
            let n = stepped(c, input, eval, half);
            let y = value(eval, Motion::Rise { y: c.y, vy: c.vy });
            &&& f32_lt_spec(0, y) ==> n.y == y && n.vy == value(eval, Motion::Fall { vy: c.vy })
                && n.land_t == c.land_t
            &&& !f32_lt_spec(0, y) ==> n.y == 0 && n.vy == if f32_lt_spec(c.vy, 0) {
                0
            } else {
                c.vy
            }
            &&& !f32_lt_spec(0, y) && (f32_lt_spec(0, c.y) || f32_lt_spec(0, c.vy)) ==> n.land_t
                == 0
        }),
{
}

/// A step that begins and ends on the ground lets the landing settle.
pub proof fn lemma_landings_settle<F: Fn(Motion) -> u32, H: Fn(u32) -> i64>(
    c: Character,
    input: MovementInput,
    eval: F,
    half: H,
)
    requires
        !f32_lt_spec(0, c.y),
        !f32_lt_spec(0, c.vy),
        !input.jump,
        !f32_lt_spec(0, value(eval, Motion::Rise { y: c.y, vy: c.vy })),
    ensures
        stepped(c, input, eval, half).land_t == value(eval, Motion::Settle { land_t: c.land_t }),
        stepped(c, input, eval, half).y == 0,
        !f32_lt_spec(0, stepped(c, input, eval, half).vy),
{
}

/// A time since touchdown after some settling.
pub open spec fn settled<F: Fn(Motion) -> u32>(eval: F, land_t: u32, n: nat) -> u32
    decreases n,
{
    if n == 0 {
        land_t
    } else {
        value(eval, Motion::Settle { land_t: settled(eval, land_t, (n - 1) as nat) })
    }
}

/// A figure left standing straightens up: its landing settles once a
/// step, so it is over after as many steps as settling takes to reach
/// the window from touchdown.
pub proof fn lemma_standing_figures_straighten_up<F: Fn(Motion) -> u32, H: Fn(u32) -> i64>(
    c: Character,
    input: MovementInput,
    eval: F,
    half: H,
    n: nat,
)
    requires
        c.y == 0,
        !f32_lt_spec(0, c.vy),
        !input.jump,
        forall|vy: u32|
            !f32_lt_spec(0, vy) ==> !f32_lt_spec(
                0,
                #[trigger] value(eval, Motion::Rise { y: 0, vy }),
            ),
    ensures
        walked(c, input, eval, half, n).y == 0,
        !f32_lt_spec(0, walked(c, input, eval, half, n).vy),
        walked(c, input, eval, half, n).land_t == settled(eval, c.land_t, n),
        settled(eval, c.land_t, n) == 0x3E99_999A ==> walked(c, input, eval, half, n).land_t
            == 0x3E99_999A,
    decreases n,
{
    if n > 0 {
        let m = (n - 1) as nat;
        lemma_standing_figures_straighten_up(c, input, eval, half, m);
        let at = walked(c, input, eval, half, m);
        assert(!f32_lt_spec(0, value(eval, Motion::Rise { y: 0, vy: at.vy })));
        lemma_landings_settle(at, input, eval, half);
    }
}

/// On the ground the stride advances by the ground covered, and every
/// half cycle passed is one heel strike.
pub proof fn lemma_strides_count_heel_strikes<F: Fn(Motion) -> u32, H: Fn(u32) -> i64>(
    c: Character,
    input: MovementInput,
    eval: F,
    half: H,
)
    requires
        f32_ge_spec(0, stepped(c, input, eval, half).y),
        f32_ge_spec(0, stepped(c, input, eval, half).vy),
    ensures
        ({
            let n = stepped(c, input, eval, half);
            let passed = value(half, n.phase) - value(half, c.phase);
            &&& n.phase == value(eval, Motion::Stride { phase: c.phase, speed: n.speed })
            &&& passed <= 0 ==> n.footfalls == c.footfalls
            &&& 0 < passed <= u64::MAX - c.footfalls ==> n.footfalls == c.footfalls + passed
        }),
{
}

/// An idle arm punches when asked; a punch swings on until it is done.
pub proof fn lemma_punches_swing_until_done<F: Fn(Motion) -> u32, H: Fn(u32) -> i64>(
    c: Character,
    input: MovementInput,
    eval: F,
    half: H,
)
    ensures
        ({
            let n = stepped(c, input, eval, half);
            &&& c.punch is None && input.punch ==> n.punch == Some(0u32)
            &&& c.punch is None && !input.punch ==> n.punch is None
            &&& c.punch matches Some(phase) ==> {
                let next = value(eval, Motion::Swing { phase });
                &&& f32_lt_spec(next, 0x3F80_0000) ==> n.punch == Some(next)
                &&& !f32_lt_spec(next, 0x3F80_0000) ==> n.punch is None
            }
        }),
{
}

/// The channels do not disturb each other: jumping and punching leave
/// the travel alone, and travel and jumping leave the punch alone.
pub proof fn lemma_channels_are_independent<F: Fn(Motion) -> u32, H: Fn(u32) -> i64>(
    c: Character,
    input: MovementInput,
    other: MovementInput,
    eval: F,
    half: H,
)
    ensures
        ({
            let n = stepped(c, input, eval, half);
            let m = stepped(c, other, eval, half);
            &&& input.target_speed == other.target_speed && input.turn_rate == other.turn_rate
                ==> n.pos == m.pos && n.heading == m.heading && n.speed == m.speed
            &&& input.jump == other.jump ==> n.y == m.y && n.vy == m.vy && n.land_t == m.land_t
            &&& input.punch == other.punch ==> n.punch == m.punch
            &&& n.t == m.t
        }),
{
}

/// A walk in two parts is one walk.
pub proof fn lemma_walks_add_up<F: Fn(Motion) -> u32, H: Fn(u32) -> i64>(
    c: Character,
    input: MovementInput,
    eval: F,
    half: H,
    a: nat,
    b: nat,
)
    ensures
        walked(c, input, eval, half, 0) == c,
        walked(c, input, eval, half, 1) == stepped(c, input, eval, half),
        walked(c, input, eval, half, a + b) == walked(
            walked(c, input, eval, half, a),
            input,
            eval,
            half,
            b,
        ),
    decreases b,
{
    assert(walked(c, input, eval, half, 0) == c);
    if b > 0 {
        lemma_walks_add_up(c, input, eval, half, a, (b - 1) as nat);
        assert((a + b - 1) as nat == a + (b - 1) as nat);
    }
}

// ---------------------------------------------------------------------------
// Poses
// ---------------------------------------------------------------------------

/// The bone's placed parent, or the root.
pub open spec fn hangs_on(bones: Seq<Bone>, placed: Seq<Placement>, b: int) -> Option<Placement> {
    match bones[b].parent {
        Some(p) => Some(placed[p as int]),
        None => None,
    }
}

/// A posed rig is placed bone by bone, each on its placed parent and the
/// root on the figure; joints and tips are those of the placement.
pub proof fn lemma_posed_bones_hang_on_their_parents<
    F: Fn(usize, Option<Placement>) -> Placement,
>(bones: Seq<Bone>, attach: F, pose: CharacterPose)
    requires
        poses(bones, attach, pose),
    ensures
        pose.start@.len() == bones.len(),
        pose.tip@.len() == bones.len(),
        exists|placed: Seq<Placement>|
            placed.len() == bones.len() && forall|b: int|
                0 <= b < bones.len() ==> pose.start@[b] == (#[trigger] placed[b]).start
                    && pose.tip@[b] == placed[b].tip && call_ensures(
                    attach,
                    (b as usize, hangs_on(bones, placed, b)),
                    placed[b],
                ),
{
    let placed = choose|placed: Seq<Placement>| #[trigger] shows(bones, attach, pose, placed);
    assert forall|b: int| 0 <= b < bones.len() implies pose.start@[b]
        == (#[trigger] placed[b]).start && pose.tip@[b] == placed[b].tip && call_ensures(
        attach,
        (b as usize, hangs_on(bones, placed, b)),
        placed[b],
    ) by {
        assert(hung(bones, attach, placed, b));
    }
}

/// Bone `b` of a pose is where its placement is, and placed on its
/// placed parent, or on the root.
pub open spec fn stands_placed<S, A: Fn(Hang<S>) -> Placement>(
    bones: Seq<Bone>,
    stance: S,
    attach: A,
    pose: CharacterPose,
    placed: Seq<Placement>,
    b: int,
) -> bool {
    &&& pose.start@[b] == placed[b].start
    &&& pose.tip@[b] == placed[b].tip
    &&& placed[b] == value(attach, (stance, b as usize, hangs_on(bones, placed, b)))
}

/// Every bone of a pose stands placed.
pub open spec fn all_placed<S, A: Fn(Hang<S>) -> Placement>(
    bones: Seq<Bone>,
    stance: S,
    attach: A,
    pose: CharacterPose,
    placed: Seq<Placement>,
) -> bool {
    placed.len() == bones.len() && forall|b: int|
        0 <= b < bones.len() ==> #[trigger] stands_placed(bones, stance, attach, pose, placed, b)
}

/// A shown stance is placed bone by bone in the same way.
pub proof fn lemma_shown_stances_hang_on_their_parents<S, A: Fn(Hang<S>) -> Placement>(
    bones: Seq<Bone>,
    stance: S,
    attach: A,
    pose: CharacterPose,
)
    requires
        shows_stance(bones, stance, attach, pose),
        crate::character::hangs_in_order(bones),
    ensures
        pose.start@.len() == bones.len(),
        pose.tip@.len() == bones.len(),
        exists|placed: Seq<Placement>| #[trigger]
            all_placed(bones, stance, attach, pose, placed),
{
    let placed = Seq::new(bones.len(), |b: int| placed_at(bones, stance, attach, b));
    assert forall|b: int| 0 <= b < bones.len() implies #[trigger] stands_placed(
        bones,
        stance,
        attach,
        pose,
        placed,
        b,
    ) by {
        if let Some(p) = bones[b].parent {
            assert(placed[p as int] == placed_at(bones, stance, attach, p as int));
        }
    }
    assert(all_placed(bones, stance, attach, pose, placed));
}

// ---------------------------------------------------------------------------
// Ticks and controllers
// ---------------------------------------------------------------------------

/// A tick steps the character by its input, remembers the pose it had,
/// poses it anew, and leaves the rest of the walker alone.
pub proof fn lemma_ticks_step_and_remember<
    S,
    F: Fn(Motion) -> u32,
    H: Fn(u32) -> i64,
    N: Fn(Character) -> S,
    A: Fn(Hang<S>) -> Placement,
>(
    bones: Seq<Bone>,
    w: Walker,
    eval: F,
    half: H,
    animate: N,
    attach: A,
    next: Walker,
)
    requires
        ticked(bones, w, eval, half, animate, attach, next),
    ensures
        next.character == stepped(w.character, w.input, eval, half),
        next.prev == w.curr,
        shows_stance(bones, value(animate, next.character), attach, next.curr),
        next.id == w.id,
        next.input == w.input,
        next.path == w.path,
        next.target == w.target,
{
}

/// Scripted walkers take their circle's input; the others keep theirs.
pub proof fn lemma_circles_write_their_walkers<C: Fn(CirclePath) -> MovementInput>(
    w: Walker,
    circle: C,
)
    ensures
        w.path matches Some(p) ==> circled(w, circle) == value(circle, p),
        w.path is None ==> circled(w, circle) == w.input,
{
}

/// A walker with a goal holds still once it is within the arrival radius;
/// before that it turns toward the goal, and walks as soon as the bearing
/// is at most a quarter turn off. The others keep their input.
pub proof fn lemma_goals_are_walked_to<M: Fn((Vec3, u32, MoveTarget)) -> Aim>(w: Walker, aim: M)
    ensures
        w.target is None ==> sent(w, aim) == w.input,
        w.target matches Some(t) ==> {
            let m = value(aim, (w.character.pos, w.character.heading, t));
            let input = sent(w, aim);
            &&& !input.jump && !input.punch && !input.reach
            &&& f32_ge_spec(t.arrive, m.dist) ==> input.target_speed == 0 && input.turn_rate == 0
            &&& !f32_ge_spec(t.arrive, m.dist) ==> input.turn_rate == m.turn
            &&& !f32_ge_spec(t.arrive, m.dist) && f32_lt_spec(
                0x3FC9_0FDB,
                f32_magnitude(m.err) as u32,
            ) ==> input.target_speed == 0
            &&& !f32_ge_spec(t.arrive, m.dist) && !f32_lt_spec(
                0x3FC9_0FDB,
                f32_magnitude(m.err) as u32,
            ) ==> input.target_speed == 0x3FAC_CCCD
        },
{
}

/// The same of one command: arrival holds, a wrong bearing turns in
/// place, and anything else walks.
pub proof fn lemma_commands_hold_turn_or_walk(dist: u32, arrive: u32, err: u32, turn: u32)
    ensures
        ({
            let input = steered(dist, arrive, err, turn);
            let off = f32_lt_spec(0x3FC9_0FDB, f32_magnitude(err) as u32);
            &&& !input.jump && !input.punch && !input.reach
            &&& f32_ge_spec(arrive, dist) ==> input.target_speed == 0 && input.turn_rate == 0
            &&& !f32_ge_spec(arrive, dist) ==> input.turn_rate == turn && input.target_speed
                == if off {
                0u32
            } else {
                0x3FAC_CCCD
            }
        }),
{
}

/// The mirror mixes a bone's joint with its joint and its tip with its
/// tip, the earlier pose first, and keeps whose bone it is.
pub proof fn lemma_mirrors_mix_joint_with_joint<X: Fn((Vec3, Vec3, u32)) -> Vec3>(
    s: BoneSegment,
    w: Walker,
    alpha: u32,
    mix: X,
)
    ensures
        ({
            let m = mirrored(s, w, alpha, mix);
            let b = s.bone as int;
            &&& m.a == value(mix, (w.prev.start@[b], w.curr.start@[b], alpha))
            &&& m.b == value(mix, (w.prev.tip@[b], w.curr.tip@[b], alpha))
            &&& m.walker == s.walker
            &&& m.bone == s.bone
            &&& m.width == s.width
        }),
{
}

// ---------------------------------------------------------------------------
// Circle scenes
// ---------------------------------------------------------------------------

/// A figure that has not moved yet: at rest on the ground, upright,
/// counting nothing, its arm idle.
pub open spec fn at_its_start(c: Character) -> bool {
    &&& c.speed == 0
    &&& c.t == 0
    &&& c.footfalls == 0
    &&& c.y == 0
    &&& c.vy == 0
    &&& c.land_t == 0x3E99_999A
    &&& c.punch is None
}

/// Every walker of a scene starts at rest on its own ring about the
/// origin: one angle gives both its coordinates and its heading along
/// the ring.
pub proof fn lemma_walkers_start_on_their_rings<F: Fn(Layout) -> u32>(
    p: ScenePreset,
    seed: u64,
    k: int,
    eval: F,
)
    ensures
        ({
            let w = walker_of(p, seed, k, eval);
            &&& at_its_start(w.character)
            &&& w.character.pos.y == 0
            &&& w.path.dir == 0x3F80_0000 || w.path.dir == 0xBF80_0000
            &&& exists|unit: u32|
                {
                    let angle = #[trigger] value(eval, Layout::Span { unit, min: 0, max: 0x40C9_0FDB });
                    &&& w.character.pos.x == value(
                        eval,
                        Layout::RingX { radius: w.path.radius, angle },
                    )
                    &&& w.character.pos.z == value(
                        eval,
                        Layout::RingZ { radius: w.path.radius, angle },
                    )
                    &&& w.character.heading == value(
                        eval,
                        Layout::Tangent { angle, dir: w.path.dir },
                    )
                }
        }),
{
    let s = hop_seed(seed, k);
    let n: nat = if p.fixed is Some {
        1
    } else {
        2
    };
    let unit = unit_draw(counter_after(s, n + 1));
    let angle = value(eval, Layout::Span { unit, min: 0, max: 0x40C9_0FDB });
    let w = walker_of(p, seed, k, eval);
    assert(w.character.pos.x == value(eval, Layout::RingX { radius: w.path.radius, angle }));
}

/// A walker's own generator is drawn in one order: radius, speed unless
/// all share one, direction, angle, gait phase, height. Radii and speeds
/// lie in the preset's ranges, gait phases in a full turn, and heights
/// within eight percent of the rig's.
pub proof fn lemma_walkers_are_drawn_in_order<F: Fn(Layout) -> u32>(
    p: ScenePreset,
    seed: u64,
    k: int,
    eval: F,
)
    ensures
        ({
            let w = walker_of(p, seed, k, eval);
            let draw = |i: int| unit_draw(counter_after(hop_seed(seed, k), i as nat));
            let n: int = if p.fixed is Some {
                1
            } else {
                2
            };
            &&& w.path.radius == value(
                eval,
                Layout::Span { unit: draw(0), min: p.radius_min, max: p.radius_max },
            )
            &&& p.fixed matches Some(speed) ==> w.path.speed == speed
            &&& p.fixed is None ==> w.path.speed == value(
                eval,
                Layout::Span { unit: draw(1), min: p.speed_min, max: p.speed_max },
            )
            &&& w.path.dir == 0x3F80_0000 <==> draw(n) < 0x80_0000
            &&& w.character.pos.x == value(
                eval,
                Layout::RingX {
                    radius: w.path.radius,
                    angle: value(
                        eval,
                        Layout::Span { unit: draw(n + 1), min: 0, max: 0x40C9_0FDB },
                    ),
                },
            )
            &&& w.character.pos.z == value(
                eval,
                Layout::RingZ {
                    radius: w.path.radius,
                    angle: value(
                        eval,
                        Layout::Span { unit: draw(n + 1), min: 0, max: 0x40C9_0FDB },
                    ),
                },
            )
            &&& w.character.heading == value(
                eval,
                Layout::Tangent {
                    angle: value(
                        eval,
                        Layout::Span { unit: draw(n + 1), min: 0, max: 0x40C9_0FDB },
                    ),
                    dir: w.path.dir,
                },
            )
            &&& w.character.phase == value(
                eval,
                Layout::Span { unit: draw(n + 2), min: 0, max: 0x40C9_0FDB },
            )
            &&& w.character.scale == value(
                eval,
                Layout::Span { unit: draw(n + 3), min: 0x3F6B_851F, max: 0x3F8A_3D71 },
            )
        }),
{
}

/// Porters carry in turn: a chest hold, a side hold, nothing; in other
/// scenes all hands are empty.
pub proof fn lemma_porters_carry_in_turn<F: Fn(Layout) -> u32>(
    p: ScenePreset,
    seed: u64,
    k: int,
    eval: F,
)
    ensures
        ({
            let held = walker_of(p, seed, k, eval).character.carry;
            &&& held == Carry::Chest <==> p.carry && k % 3 == 0
            &&& held == Carry::Side <==> p.carry && k % 3 == 1
        }),
{
}

// ---------------------------------------------------------------------------
// Mandalas
// ---------------------------------------------------------------------------

/// A loop's figure starts at rest on its loop: one angle, that of its
/// slot, gives its coordinates about the loop's center, its heading along
/// the loop, and its gait phase; it walks the loop's way at the shared
/// radius and speed.
pub proof fn lemma_figures_start_on_their_loops<F: Fn(Field) -> u32>(
    l: LoopSpec,
    j: usize,
    radius: u32,
    speed: u32,
    eval: F,
)
    ensures
        ({
            let w = figure_of(l, j as int, radius, speed, eval);
            let angle = value(eval, Field::Slot { phase0: l.phase0, j, walkers: l.walkers });
            &&& at_its_start(w.character)
            &&& w.character.phase == angle
            &&& w.character.scale == 0x3F80_0000
            &&& w.character.carry == Carry::Nothing
            &&& w.character.pos.x == value(
                eval,
                Field::FigureX { center: l.center_x, radius, angle },
            )
            &&& w.character.pos.y == value(eval, Field::FigureY { radius, angle })
            &&& w.character.pos.z == value(
                eval,
                Field::FigureZ { center: l.center_z, radius, angle },
            )
            &&& w.character.heading == value(eval, Field::Tangent { angle, dir: l.dir })
            &&& w.path == (CirclePath { radius, speed, dir: l.dir })
        }),
{
}

/// A field's figures come loop by loop and slot by slot: slot `j` of loop
/// `n` stands behind everyone on the loops before, and there are as many
/// figures as seats.
pub proof fn lemma_figures_come_loop_by_loop<F: Fn(Field) -> u32>(
    s: MandalaSpec,
    n: int,
    j: int,
    all: int,
    eval: F,
)
    requires
        0 <= n < all <= s.loops@.len(),
        0 <= j < s.loops@[n].walkers,
    ensures
        figures(s, all, eval).len() == seated(s.loops@, all),
        seated(s.loops@, n) + j < seated(s.loops@, all),
        figures(s, all, eval)[seated(s.loops@, n) + j] == figure_of(
            s.loops@[n],
            j,
            s.radius,
            s.speed,
            eval,
        ),
    decreases all,
{
    lemma_figures_fill_seats(s, all - 1, eval);
    if n < all - 1 {
        lemma_figures_come_loop_by_loop(s, n, j, all - 1, eval);
    }
}

proof fn lemma_figures_fill_seats<F: Fn(Field) -> u32>(s: MandalaSpec, n: int, eval: F)
    requires
        0 <= n <= s.loops@.len(),
    ensures
        figures(s, n, eval).len() == seated(s.loops@, n),
    decreases n,
{
    if n > 0 {
        lemma_figures_fill_seats(s, n - 1, eval);
    }
}

/// A field has just as many loops as its population needs: all of them
/// full would seat everyone, and one fewer would not.
pub proof fn lemma_fields_have_loops_enough<F: Fn(Field) -> u32>(
    count: int,
    seed: u64,
    m: Measures,
    eval: F,
    r: MandalaSpec,
)
    requires
        0 <= count,
        m.per_loop > 0,
        builds(count, seed, m, eval, r),
    ensures
        count <= r.loops@.len() * m.per_loop,
        r.loops@.len() > 0 ==> (r.loops@.len() - 1) * m.per_loop < count,
{
    let p = m.per_loop as int;
    let n = loop_count(count, p);
    vstd::arithmetic::div_mod::lemma_fundamental_div_mod(count + p - 1, p);
    let q = (count + p - 1) / p;
    let rest = (count + p - 1) % p;
    assert(0 <= rest < p) by (nonlinear_arith)
        requires
            p > 0,
            rest == (count + p - 1) % p,
    ;
    assert(q >= 0 && count <= q * p && (q - 1) * p < count) by (nonlinear_arith)
        requires
            count + p - 1 == p * q + rest,
            0 <= rest < p,
            count >= 0,
            p > 0,
    ;
}

/// Every loop of a field is placed by three draws of its own: two jitter
/// its center among the others, one is the phase of its first walker;
/// directions alternate. Radius, canvas and period are those measured,
/// and the speed is the population's.
pub proof fn lemma_loops_are_drawn_in_order<F: Fn(Field) -> u32>(
    count: int,
    seed: u64,
    m: Measures,
    eval: F,
    r: MandalaSpec,
    i: int,
)
    requires
        0 <= count,
        m.per_loop > 0,
        builds(count, seed, m, eval, r),
        0 <= i < r.loops@.len(),
    ensures
        ({
            let l = r.loops@[i];
            let loops = r.loops@.len() as usize;
            let jitter_x = unit_draw(counter_after(seed, (3 * i) as nat));
            let jitter_z = unit_draw(counter_after(seed, (3 * i + 1) as nat));
            &&& l.center_x == value(
                eval,
                Field::CenterX { m: i as usize, loops, jitter_x, jitter_z },
            )
            &&& l.center_z == value(
                eval,
                Field::CenterZ { m: i as usize, loops, jitter_x, jitter_z },
            )
            &&& l.phase0 == value(
                eval,
                Field::Phase { unit: unit_draw(counter_after(seed, (3 * i + 2) as nat)) },
            )
            &&& l.dir == if i % 2 == 0 {
                0x3F80_0000u32
            } else {
                0xBF80_0000
            }
            &&& r.radius == m.radius
            &&& r.canvas == m.canvas
            &&& r.period == m.period
            &&& r.speed == tier_of(count).1
        }),
{
    lemma_loops_are_placed(count, seed, m, eval, r, i);
    let k = (3 * i) as nat;
    assert(k + 1 == (3 * i + 1) as nat && k + 2 == (3 * i + 2) as nat);
}

proof fn lemma_loops_are_placed<F: Fn(Field) -> u32>(
    count: int,
    seed: u64,
    m: Measures,
    eval: F,
    r: MandalaSpec,
    i: int,
)
    requires
        0 <= count,
        m.per_loop > 0,
        builds(count, seed, m, eval, r),
        0 <= i < r.loops@.len(),
    ensures
        r.loops@[i] == loop_of(count, r.loops@.len() as int, seed, i, eval),
{
    let n = loop_count(count, m.per_loop as int);
    vstd::arithmetic::div_mod::lemma_div_pos_is_pos(count + m.per_loop - 1, m.per_loop as int);
    let all = Seq::new(n as nat, |i: int| loop_of(count, n, seed, i, eval));
    assert(r.loops@[i] == all[i]);
}

/// Larger crowds stand farther apart and walk faster, in three tiers that
/// change at three hundred and at three thousand.
pub proof fn lemma_larger_crowds_walk_faster(a: int, b: int)
    requires
        a <= b,
    ensures
        tier_of(a).0 <= tier_of(b).0,
        tier_of(a).1 <= tier_of(b).1,
        tier_of(a) == tier_of(b) <==> (a < 300 <==> b < 300) && (a < 3000 <==> b < 3000),
{
}

} // verus!

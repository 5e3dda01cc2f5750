//! The walker gallery: scene presets, the seeded layout of a scene, the
//! point-to-point controller's decisions, and the state digest.
use vstd::prelude::*;
use vstd::string::*;
use crate::bits::{f32_abs, f32_ge, f32_lt};
use crate::character::{Carry, Character, MovementInput, Vec3};
use crate::rng::{nth_seed, Rng};
use crate::text::same;

verus! {

use crate::bits::{f32_ge_spec, f32_lt_spec, f32_magnitude};
use crate::character::{idle_input, LAND_WIN};
use crate::eval::{steady, value};
use crate::rng::{counter_after, hop_seed, unit_draw};
use vstd::seq_lib::to_multiset_len;

/// Walk cruise speed: 1.35 m/s.
pub const WALK_SPEED: u32 = 0x3FAC_CCCD;

/// Run cruise speed: 3.6 m/s.
pub const RUN_SPEED: u32 = 0x4066_6666;

/// Cruise speed of point-to-point walks: 1.35 m/s.
pub const MOVE_TO_SPEED: u32 = 0x3FAC_CCCD;

/// Bearing error beyond which a figure halts and turns in place: a
/// quarter turn.
pub const MOVE_TURN_HALT: u32 = 0x3FC9_0FDB;

/// A full turn.
pub const TAU: u32 = 0x40C9_0FDB;

/// One.
pub const COUNTERCLOCKWISE: u32 = 0x3F80_0000;

/// Minus one.
pub const CLOCKWISE: u32 = 0xBF80_0000;

/// Half of the draw grid.
pub const HALF_UNITS: u32 = 0x80_0000;

// ---------------------------------------------------------------------------
// Scenes
// ---------------------------------------------------------------------------

/// A scene of scripted circles: how many walkers, the ranges of their
/// radii and speeds, a speed that all share, and whether they carry.
#[derive(Debug, Clone, Copy, PartialEq, Eq, Structural)]
pub struct ScenePreset {
    pub count: usize,
    pub radius_min: u32,
    pub radius_max: u32,
    pub speed_min: u32,
    pub speed_max: u32,
    pub fixed: Option<u32>,
    pub carry: bool,
}

/// The presets: one figure on a 5 m ring at walking speed; one on a 7 m
/// ring at a run; twelve porters on rings of 3 to 9 m; a crowd of 96 on
/// rings of 2.5 to 12 m.
pub open spec fn preset_of(id: Seq<char>) -> Option<ScenePreset> {
    if id == "walk"@ {
        Some(
            ScenePreset {
                count: 1,
                radius_min: 0x40A0_0000,
                radius_max: 0x40A0_0000,
                speed_min: WALK_SPEED,
                speed_max: WALK_SPEED,
                fixed: Some(WALK_SPEED),
                carry: false,
            },
        )
    } else if id == "walk-run"@ {
        Some(
            ScenePreset {
                count: 1,
                radius_min: 0x40E0_0000,
                radius_max: 0x40E0_0000,
                speed_min: RUN_SPEED,
                speed_max: RUN_SPEED,
                fixed: Some(RUN_SPEED),
                carry: false,
            },
        )
    } else if id == "carry"@ {
        Some(
            ScenePreset {
                count: 12,
                radius_min: 0x4040_0000,
                radius_max: 0x4110_0000,
                speed_min: 0x3F8C_CCCD,
                speed_max: 0x3FCC_CCCD,
                fixed: None,
                carry: true,
            },
        )
    } else if id == "crowd"@ {
        Some(
            ScenePreset {
                count: 96,
                radius_min: 0x4020_0000,
                radius_max: 0x4140_0000,
                speed_min: 0x3F66_6666,
                speed_max: 0x4019_999A,
                fixed: None,
                carry: false,
            },
        )
    } else {
        None
    }
}

/// A circle scene's preset.
pub fn scene_preset(id: &str) -> (r: Option<ScenePreset>)
    ensures
        r == preset_of(id@),
{
    if same(id, "walk") {
        Some(
            ScenePreset {
                count: 1,
                radius_min: 0x40A0_0000,
                radius_max: 0x40A0_0000,
                speed_min: WALK_SPEED,
                speed_max: WALK_SPEED,
                fixed: Some(WALK_SPEED),
                carry: false,
            },
        )
    } else if same(id, "walk-run") {
        Some(
            ScenePreset {
                count: 1,
                radius_min: 0x40E0_0000,
                radius_max: 0x40E0_0000,
                speed_min: RUN_SPEED,
                speed_max: RUN_SPEED,
                fixed: Some(RUN_SPEED),
                carry: false,
            },
        )
    } else if same(id, "carry") {
        Some(
            ScenePreset {
                count: 12,
                radius_min: 0x4040_0000,
                radius_max: 0x4110_0000,
                speed_min: 0x3F8C_CCCD,
                speed_max: 0x3FCC_CCCD,
                fixed: None,
                carry: true,
            },
        )
    } else if same(id, "crowd") {
        Some(
            ScenePreset {
                count: 96,
                radius_min: 0x4020_0000,
                radius_max: 0x4140_0000,
                speed_min: 0x3F66_6666,
                speed_max: 0x4019_999A,
                fixed: None,
                carry: false,
            },
        )
    } else {
        None
    }
}

/// A scripted circle.
#[derive(Debug, Clone, Copy, PartialEq, Eq, Structural)]
pub struct CirclePath {
    pub radius: u32,
    pub speed: u32,
    pub dir: u32,
}

/// One walker to spawn.
#[derive(Debug, Clone, Copy, PartialEq, Eq, Structural)]
pub struct SpawnSpec {
    pub character: Character,
    pub path: CirclePath,
}

/// A quantity of the layout that floating point computes.
#[derive(Debug, Clone, Copy, PartialEq, Eq, Structural)]
pub enum Layout {
    /// A draw placed between two bounds.
    Span { unit: u32, min: u32, max: u32 },
    /// The x of a point on a ring about the origin.
    RingX { radius: u32, angle: u32 },
    /// The z of a point on a ring about the origin.
    RingZ { radius: u32, angle: u32 },
    /// The heading along a ring at an angle.
    Tangent { angle: u32, dir: u32 },
}

/// What the `k`-th porter carries: chest, side, and nothing in turn.
pub open spec fn carried(k: int) -> Carry {
    if k % 3 == 0 {
        Carry::Chest
    } else if k % 3 == 1 {
        Carry::Side
    } else {
        Carry::Nothing
    }
}

/// Walker `k` of a scene: a generator of its own, drawn for the radius,
/// the speed unless all share one, the direction, the angle, the gait
/// phase, and the height scale, in this order.
pub open spec fn walker_of<F: Fn(Layout) -> u32>(
    p: ScenePreset,
    seed: u64,
    k: int,
    eval: F,
) -> SpawnSpec {
    let s = hop_seed(seed, k);
    let radius = value(
        eval,
        Layout::Span {
            unit: unit_draw(counter_after(s, 0)),
            min: p.radius_min,
            max: p.radius_max,
        },
    );
    let (speed, n) = match p.fixed {
        Some(v) => (v, 1nat),
        None => (
            value(
                eval,
                Layout::Span {
                    unit: unit_draw(counter_after(s, 1)),
                    min: p.speed_min,
                    max: p.speed_max,
                },
            ),
            2nat,
        ),
    };
    let dir = if unit_draw(counter_after(s, n)) < HALF_UNITS {
        COUNTERCLOCKWISE
    } else {
        CLOCKWISE
    };
    let angle = value(
        eval,
        Layout::Span { unit: unit_draw(counter_after(s, n + 1)), min: 0, max: TAU },
    );
    SpawnSpec {
        character: Character {
            pos: Vec3 {
                x: value(eval, Layout::RingX { radius, angle }),
                y: 0,
                z: value(eval, Layout::RingZ { radius, angle }),
            },
            heading: value(eval, Layout::Tangent { angle, dir }),
            speed: 0,
            phase: value(
                eval,
                Layout::Span { unit: unit_draw(counter_after(s, n + 2)), min: 0, max: TAU },
            ),
            t: 0,
            footfalls: 0,
            scale: value(
                eval,
                Layout::Span {
                    unit: unit_draw(counter_after(s, n + 3)),
                    min: 0x3F6B_851F,
                    max: 0x3F8A_3D71,
                },
            ),
            y: 0,
            vy: 0,
            land_t: LAND_WIN,
            punch: None,
            carry: if p.carry {
                carried(k)
            } else {
                Carry::Nothing
            },
        },
        path: CirclePath { radius, speed, dir },
    }
}

/// The seed walker `k` of a scene draws from.
pub fn walker_seed(seed: u64, k: usize) -> (r: u64)
    ensures
        r == hop_seed(seed, k as int),
{
    nth_seed(seed, k)
}

fn build_walker<F: Fn(Layout) -> u32>(p: &ScenePreset, seed: u64, k: usize, eval: &F) -> (r:
    SpawnSpec)
    requires
        steady(*eval),
    ensures
        r == walker_of(*p, seed, k as int, *eval),
{
    let ghost s = hop_seed(seed, k as int);
    let mut rng = Rng::new(walker_seed(seed, k));
    proof {
        reveal_with_fuel(counter_after, 7);
    }
    let unit: u32 = rng.next_unit();
    let radius: u32 = (*eval)(Layout::Span { unit, min: p.radius_min, max: p.radius_max });
    let speed: u32 = match p.fixed {
        Some(v) => v,
        None => {
            let unit: u32 = rng.next_unit();
            (*eval)(Layout::Span { unit, min: p.speed_min, max: p.speed_max })
        },
    };
    let turn: u32 = rng.next_unit();
    let dir: u32 = if turn < HALF_UNITS {
        COUNTERCLOCKWISE
    } else {
        CLOCKWISE
    };
    let around: u32 = rng.next_unit();
    let angle: u32 = (*eval)(Layout::Span { unit: around, min: 0, max: TAU });
    let pos = Vec3 {
        x: (*eval)(Layout::RingX { radius, angle }),
        y: 0,
        z: (*eval)(Layout::RingZ { radius, angle }),
    };
    let mut character = Character::new(pos, (*eval)(Layout::Tangent { angle, dir }));
    let gait: u32 = rng.next_unit();
    character.phase = (*eval)(Layout::Span { unit: gait, min: 0, max: TAU });
    let height: u32 = rng.next_unit();
    character.scale = (*eval)(Layout::Span { unit: height, min: 0x3F6B_851F, max: 0x3F8A_3D71 });
    if p.carry {
        character.carry = if k % 3 == 0 {
            Carry::Chest
        } else if k % 3 == 1 {
            Carry::Side
        } else {
            Carry::Nothing
        };
    }
    SpawnSpec { character, path: CirclePath { radius, speed, dir } }
}

/// The scene's walkers, in order.
pub fn build_scene<F: Fn(Layout) -> u32>(p: &ScenePreset, seed: u64, eval: &F) -> (r: Vec<
    SpawnSpec,
>)
    requires
        steady(*eval),
    ensures
        r@ == Seq::new(p.count as nat, |k: int| walker_of(*p, seed, k, *eval)),
{
    let mut specs: Vec<SpawnSpec> = Vec::with_capacity(p.count);
    let mut k: usize = 0;
    while k < p.count
        invariant
            k <= p.count,
            steady(*eval),
            specs@ == Seq::new(k as nat, |k: int| walker_of(*p, seed, k, *eval)),
        decreases p.count - k,
    {
        specs.push(build_walker(p, seed, k, eval));
        k = k + 1;
        proof {
            assert(specs@ =~= Seq::new(k as nat, |k: int| walker_of(*p, seed, k, *eval)));
        }
    }
    specs
}

// ---------------------------------------------------------------------------
// Point-to-point control
// ---------------------------------------------------------------------------

/// The controller's command: inside the arrival radius hold; while the
/// bearing is more than a quarter turn off, turn in place; else walk.
pub open spec fn steered(dist: u32, arrive: u32, err: u32, turn: u32) -> MovementInput {
    if f32_ge_spec(arrive, dist) {
        idle_input()
    } else {
        MovementInput {
            target_speed: if f32_lt_spec(MOVE_TURN_HALT, f32_magnitude(err) as u32) {
                0
            } else {
                MOVE_TO_SPEED
            },
            turn_rate: turn,
            jump: false,
            punch: false,
            reach: false,
        }
    }
}

/// Steer toward a goal: its distance and arrival radius, the bearing
/// error, and the turn rate that the error asks for.
pub fn steer(dist: u32, arrive: u32, err: u32, turn: u32) -> (r: MovementInput)
    ensures
        r == steered(dist, arrive, err, turn),
{
    if f32_ge(arrive, dist) {
        return MovementInput::default();
    }
    MovementInput {
        target_speed: if f32_lt(MOVE_TURN_HALT, f32_abs(err)) {
            0
        } else {
            MOVE_TO_SPEED
        },
        turn_rate: turn,
        jump: false,
        punch: false,
        reach: false,
    }
}

// ---------------------------------------------------------------------------
// Digests
// ---------------------------------------------------------------------------

/// One walker's contribution: its pose digest avalanche-mixed, and its
/// spawn id spread over the word.
pub open spec fn mixed(id: u32, checksum: u64) -> u64 {
    let m = (checksum * 0x9E37_79B9_7F4A_7C15 % 0x1_0000_0000_0000_0000) as u64;
    ((m << 23) | (m >> 41)) ^ ((id * 0xD1B5_4A32_D192_ED03 % 0x1_0000_0000_0000_0000) as u64)
}

/// The contributions added up.
pub open spec fn mixed_sum(walkers: Seq<(u32, u64)>) -> int
    decreases walkers.len(),
{
    if walkers.len() == 0 {
        0
    } else {
        mixed_sum(walkers.drop_last()) + mixed(walkers.last().0, walkers.last().1)
    }
}

/// The digest of a world: the contributions added up, modulo 2^64.
pub fn state_checksum(walkers: &Vec<(u32, u64)>) -> (r: u64)
    ensures
        r == mixed_sum(walkers@) % 0x1_0000_0000_0000_0000,
{
    let mut sum: u64 = 0;
    let mut i: usize = 0;
    proof {
        assert(walkers@.take(0) =~= Seq::<(u32, u64)>::empty());
    }
    while i < walkers.len()
        invariant
            i <= walkers@.len(),
            sum == mixed_sum(walkers@.take(i as int)) % 0x1_0000_0000_0000_0000,
        decreases walkers@.len() - i,
    {
        let (id, checksum) = walkers[i];
        let m: u64 = checksum.wrapping_mul(0x9E37_79B9_7F4A_7C15);
        let word: u64 = ((m << 23) | (m >> 41)) ^ (id as u64).wrapping_mul(0xD1B5_4A32_D192_ED03);
        proof {
            assert(word == mixed(id, checksum));
            assert(walkers@.take(i + 1).drop_last() =~= walkers@.take(i as int));
            vstd::arithmetic::div_mod::lemma_add_mod_noop(
                mixed_sum(walkers@.take(i as int)),
                word as int,
                0x1_0000_0000_0000_0000,
            );
            vstd::arithmetic::div_mod::lemma_small_mod(word as nat, 0x1_0000_0000_0000_0000);
        }
        sum = sum.wrapping_add(word);
        i = i + 1;
    }
    proof {
        assert(walkers@.take(i as int) =~= walkers@);
    }
    sum
}

proof fn lemma_sum_without(walkers: Seq<(u32, u64)>, i: int)
    requires
        0 <= i < walkers.len(),
    ensures
        mixed_sum(walkers) == mixed_sum(walkers.remove(i)) + mixed(walkers[i].0, walkers[i].1),
    decreases walkers.len(),
{
    if i == walkers.len() - 1 {
        assert(walkers.remove(i) =~= walkers.drop_last());
    } else {
        lemma_sum_without(walkers.drop_last(), i);
        assert(walkers.remove(i).drop_last() =~= walkers.drop_last().remove(i));
        assert(walkers.remove(i).last() == walkers.last());
    }
}

/// The order in which walkers are visited does not move the digest.
pub proof fn lemma_digest_ignores_order(a: Seq<(u32, u64)>, b: Seq<(u32, u64)>)
    requires
        a.to_multiset() == b.to_multiset(),
    ensures
        mixed_sum(a) == mixed_sum(b),
    decreases a.len(),
{
    broadcast use vstd::seq_lib::group_to_multiset_ensures;

    to_multiset_len(a);
    to_multiset_len(b);
    if a.len() > 0 {
        let x = a.last();
        assert(a.contains(x));
        assert(b.to_multiset().count(x) > 0);
        assert(b.contains(x));
        let i = choose|i: int| 0 <= i < b.len() && b[i] == x;
        lemma_sum_without(b, i);
        assert(a.drop_last() =~= a.remove(a.len() - 1));
        assert(a.drop_last().to_multiset() =~= b.remove(i).to_multiset());
        lemma_digest_ignores_order(a.drop_last(), b.remove(i));
    }
}

/// Heel strikes added up.
pub open spec fn footfall_sum(footfalls: Seq<u64>) -> nat
    decreases footfalls.len(),
{
    if footfalls.len() == 0 {
        0
    } else {
        footfall_sum(footfalls.drop_last()) + footfalls.last() as nat
    }
}

proof fn lemma_footfalls_ascend(footfalls: Seq<u64>, i: int)
    requires
        0 <= i <= footfalls.len(),
    ensures
        footfall_sum(footfalls.take(i)) <= footfall_sum(footfalls),
    decreases footfalls.len() - i,
{
    if i == footfalls.len() {
        assert(footfalls.take(i) =~= footfalls);
    } else {
        lemma_footfalls_ascend(footfalls, i + 1);
        assert(footfalls.take(i + 1).drop_last() =~= footfalls.take(i));
    }
}

/// Total heel strikes landed so far.
pub fn total_footfalls(footfalls: &Vec<u64>) -> (r: u64)
    requires
        footfall_sum(footfalls@) <= u64::MAX,
    ensures
        r == footfall_sum(footfalls@),
{
    let mut sum: u64 = 0;
    let mut i: usize = 0;
    while i < footfalls.len()
        invariant
            i <= footfalls@.len(),
            footfall_sum(footfalls@) <= u64::MAX,
            sum == footfall_sum(footfalls@.take(i as int)),
        decreases footfalls@.len() - i,
    {
        proof {
            lemma_footfalls_ascend(footfalls@, i + 1);
            assert(footfalls@.take(i + 1).drop_last() =~= footfalls@.take(i as int));
        }
        sum = sum + footfalls[i];
        i = i + 1;
    }
    proof {
        assert(footfalls@.take(i as int) =~= footfalls@);
    }
    sum
}

} // verus!

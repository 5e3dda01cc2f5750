//! The mandala scenes: a hundred, a thousand, or ten thousand walkers on
//! interlocking loops. Every loop shares one radius and one speed, so
//! all figures are back where they started at every multiple of one
//! period.
use vstd::prelude::*;
use vstd::string::*;
use crate::character::{Character, Vec3};
use crate::rng::Rng;
use crate::text::same;
use crate::walkers;
use crate::walkers::{CirclePath, ScenePreset, SpawnSpec, CLOCKWISE, COUNTERCLOCKWISE};

verus! {

use crate::character::{Carry, LAND_WIN};
use crate::eval::{steady, value};
use crate::rng::{counter_after, unit_draw};

/// One loop: its center, direction, the phase of its first walker, and
/// how many walk it.
#[derive(Debug, Clone, Copy, PartialEq, Eq, Structural)]
pub struct LoopSpec {
    pub center_x: u32,
    pub center_z: u32,
    pub dir: u32,
    pub phase0: u32,
    pub walkers: usize,
}

/// The measures of a field that floating point computes from its
/// population: canvas and loop radius, the shared period, and how many
/// figures a loop of that radius seats.
#[derive(Debug, Clone, Copy, PartialEq, Eq, Structural)]
pub struct Measures {
    pub radius: u32,
    pub canvas: u32,
    pub period: u32,
    pub per_loop: usize,
}

/// A resolved field.
#[derive(Debug, Clone)]
pub struct MandalaSpec {
    pub loops: Vec<LoopSpec>,
    pub speed: u32,
    pub radius: u32,
    pub canvas: u32,
    pub period: u32,
}

/// A quantity of the field that floating point computes.
#[derive(Debug, Clone, Copy, PartialEq, Eq, Structural)]
pub enum Field {
    /// The x of loop `m`'s center among `loops`, jittered by two draws.
    CenterX { m: usize, loops: usize, jitter_x: u32, jitter_z: u32 },
    /// The z of that center.
    CenterZ { m: usize, loops: usize, jitter_x: u32, jitter_z: u32 },
    /// A draw as a phase.
    Phase { unit: u32 },
    /// The angle of slot `j` of a loop.
    Slot { phase0: u32, j: usize, walkers: usize },
    /// A coordinate of a figure at an angle of its loop.
    FigureX { center: u32, radius: u32, angle: u32 },
    /// The other coordinate.
    FigureZ { center: u32, radius: u32, angle: u32 },
    /// The resting height of a figure at an angle of its loop.
    FigureY { radius: u32, angle: u32 },
    /// The heading along a loop.
    Tangent { angle: u32, dir: u32 },
}

/// The population a scene id stands for.
pub open spec fn preset_of(id: Seq<char>) -> Option<usize> {
    if id == "mandala-100"@ {
        Some(100)
    } else if id == "mandala-1k"@ {
        Some(1000)
    } else if id == "mandala-10k"@ {
        Some(10000)
    } else {
        None
    }
}

/// The population a scene id stands for.
pub fn preset(id: &str) -> (r: Option<usize>)
    ensures
        r == preset_of(id@),
{
    if same(id, "mandala-100") {
        Some(100)
    } else if same(id, "mandala-1k") {
        Some(1000)
    } else if same(id, "mandala-10k") {
        Some(10000)
    } else {
        None
    }
}

/// The largest population whose self-contained picture stays a sensible
/// size.
pub const PICTURE_LIMIT: usize = 400;

/// Whether a scene is too large to draw.
pub fn too_large(id: &str) -> (r: bool)
    ensures
        r == (preset_of(id@) matches Some(n) && n > PICTURE_LIMIT),
{
    match preset(id) {
        Some(n) => n > PICTURE_LIMIT,
        None => false,
    }
}

/// Tile spacing and walking speed of a population: small crowds stand
/// closer and walk slower.
pub open spec fn tier_of(count: int) -> (u32, u32) {
    if count < 300 {
        (0x3F59_999A, 0x3FAC_CCCD)
    } else if count < 3000 {
        (0x3F80_0000, 0x3FE6_6666)
    } else {
        (0x3F8C_CCCD, 0x400C_CCCD)
    }
}

/// Tile spacing and walking speed of a population.
pub fn tier(count: usize) -> (r: (u32, u32))
    ensures
        r == tier_of(count as int),
{
    if count < 300 {
        (0x3F59_999A, 0x3FAC_CCCD)
    } else if count < 3000 {
        (0x3F80_0000, 0x3FE6_6666)
    } else {
        (0x3F8C_CCCD, 0x400C_CCCD)
    }
}

/// How many loops seat a population.
pub open spec fn loop_count(count: int, per_loop: int) -> int {
    (count + per_loop - 1) / per_loop
}

/// How many walk loop `m` of `loops`: an even share, and one more on the
/// first few.
pub open spec fn share(count: int, loops: int, m: int) -> int {
    count / loops + if m < count % loops {
        1int
    } else {
        0int
    }
}

/// Loop `m` of the field: two jitter draws and a phase draw, directions
/// alternating.
pub open spec fn loop_of<F: Fn(Field) -> u32>(
    count: int,
    loops: int,
    seed: u64,
    m: int,
    eval: F,
) -> LoopSpec {
    let k = (3 * m) as nat;
    let jitter_x = unit_draw(counter_after(seed, k));
    let jitter_z = unit_draw(counter_after(seed, k + 1));
    LoopSpec {
        center_x: value(
            eval,
            Field::CenterX { m: m as usize, loops: loops as usize, jitter_x, jitter_z },
        ),
        center_z: value(
            eval,
            Field::CenterZ { m: m as usize, loops: loops as usize, jitter_x, jitter_z },
        ),
        dir: if m % 2 == 0 {
            COUNTERCLOCKWISE
        } else {
            CLOCKWISE
        },
        phase0: value(eval, Field::Phase { unit: unit_draw(counter_after(seed, k + 2)) }),
        walkers: share(count, loops, m) as usize,
    }
}

/// Walkers on the first `n` loops.
pub open spec fn seated(loops: Seq<LoopSpec>, n: int) -> nat
    decreases n,
{
    if n <= 0 {
        0
    } else {
        seated(loops, n - 1) + loops[n - 1].walkers as nat
    }
}

/// The shares of the first `n` loops.
pub open spec fn shares(count: int, loops: int, n: int) -> int
    decreases n,
{
    if n <= 0 {
        0
    } else {
        shares(count, loops, n - 1) + share(count, loops, n - 1)
    }
}

proof fn lemma_shares(count: int, loops: int, n: int)
    requires
        count >= 0,
        loops > 0,
        0 <= n <= loops,
    ensures
        shares(count, loops, n) == n * (count / loops) + if n < count % loops {
            n
        } else {
            count % loops
        },
    decreases n,
{
    let base = count / loops;
    if n > 0 {
        lemma_shares(count, loops, n - 1);
        assert(n * base == (n - 1) * base + base) by (nonlinear_arith);
    } else {
        assert(0 * base == 0) by (nonlinear_arith);
    }
}

/// The shares add up to the population exactly, whatever the number of
/// loops, and no two loops differ by more than one walker.
pub proof fn lemma_shares_add_up(count: int, loops: int, i: int, j: int)
    requires
        count >= 0,
        loops > 0,
        0 <= i < loops,
        0 <= j < loops,
    ensures
        shares(count, loops, loops) == count,
        share(count, loops, i) - share(count, loops, j) <= 1,
{
    lemma_shares(count, loops, loops);
    vstd::arithmetic::div_mod::lemma_fundamental_div_mod(count, loops);
    assert(0 <= count % loops < loops) by (nonlinear_arith)
        requires
            loops > 0,
    ;
    assert(loops * (count / loops) == (count / loops) * loops) by (nonlinear_arith);
}

impl MandalaSpec {
    /// Total walkers.
    pub fn walker_total(&self) -> (r: usize)
        requires
            seated(self.loops@, self.loops@.len() as int) <= usize::MAX,
        ensures
            r == seated(self.loops@, self.loops@.len() as int),
    {
        let mut sum: usize = 0;
        let mut i: usize = 0;
        while i < self.loops.len()
            invariant
                i <= self.loops@.len(),
                seated(self.loops@, self.loops@.len() as int) <= usize::MAX,
                sum == seated(self.loops@, i as int),
            decreases self.loops@.len() - i,
        {
            proof {
                lemma_seated_ascends(self.loops@, i + 1);
            }
            sum = sum + self.loops[i].walkers;
            i = i + 1;
        }
        sum
    }
}

proof fn lemma_seated_ascends(loops: Seq<LoopSpec>, i: int)
    requires
        0 <= i <= loops.len(),
    ensures
        seated(loops, i) <= seated(loops, loops.len() as int),
    decreases loops.len() - i,
{
    if i < loops.len() {
        lemma_seated_ascends(loops, i + 1);
    }
}

/// The field seats a population of walkers on loops laid out from a
/// seed.
pub open spec fn builds<F: Fn(Field) -> u32>(
    count: int,
    seed: u64,
    m: Measures,
    eval: F,
    r: MandalaSpec,
) -> bool {
    let loops = loop_count(count, m.per_loop as int);
    &&& r.loops@ == Seq::new(loops as nat, |i: int| loop_of(count, loops, seed, i, eval))
    &&& r.speed == tier_of(count).1
    &&& r.radius == m.radius
    &&& r.canvas == m.canvas
    &&& r.period == m.period
}

/// Build the field for exactly `count` walkers.
pub fn build<F: Fn(Field) -> u32>(count: usize, seed: u64, measures: &Measures, eval: &F) -> (r:
    MandalaSpec)
    requires
        measures.per_loop > 0,
        steady(*eval),
    ensures
        builds(count as int, seed, *measures, *eval, r),
        seated(r.loops@, r.loops@.len() as int) == count,
        forall|i: int, j: int|
            #![trigger r.loops@[i], r.loops@[j]]
            0 <= i < r.loops@.len() && 0 <= j < r.loops@.len() ==> r.loops@[i].walkers
                <= r.loops@[j].walkers + 1,
        forall|i: int|
            0 <= i < r.loops@.len() ==> (#[trigger] r.loops@[i]).dir == if i % 2 == 0 {
                COUNTERCLOCKWISE
            } else {
                CLOCKWISE
            },
{
    let speed: u32 = tier(count).1;
    let per_loop: usize = measures.per_loop;
    if count == 0 {
        let loops: Vec<LoopSpec> = Vec::new();
        proof {
            vstd::arithmetic::div_mod::lemma_basic_div(per_loop - 1, per_loop as int);
            assert(loop_count(0, per_loop as int) == 0);
            assert(loops@ =~= Seq::new(0nat, |i: int| loop_of(0, 0, seed, i, *eval)));
        }
        return MandalaSpec {
            loops,
            speed,
            radius: measures.radius,
            canvas: measures.canvas,
            period: measures.period,
        };
    }
    let ghost n = loop_count(count as int, per_loop as int);
    let whole: usize = count / per_loop;
    let left: usize = count % per_loop;
    proof {
        vstd::arithmetic::div_mod::lemma_fundamental_div_mod(count as int, per_loop as int);
        let q = whole as int;
        let p = per_loop as int;
        assert(count == p * q + left);
        assert(n == q + if left > 0 {
            1int
        } else {
            0int
        }) by {
            if left > 0 {
                assert(count + p - 1 == p * (q + 1) + (left - 1)) by (nonlinear_arith)
                    requires
                        count == p * q + left,
                ;
                vstd::arithmetic::div_mod::lemma_fundamental_div_mod_converse(
                    count + p - 1,
                    p,
                    q + 1,
                    left - 1,
                );
            } else {
                vstd::arithmetic::div_mod::lemma_fundamental_div_mod_converse(
                    count + p - 1,
                    p,
                    q,
                    p - 1,
                );
            }
        }
        assert(q <= count && (left > 0 && p > 1 ==> q < count)) by (nonlinear_arith)
            requires
                count == p * q + left,
                p > 0,
                left >= 0,
                q >= 0,
                left < p,
                count > 0,
        ;
        assert(n > 0) by (nonlinear_arith)
            requires
                count == p * q + left,
                count > 0,
                p > 0,
                n == q + if left > 0 {
                    1int
                } else {
                    0int
                },
                q >= 0,
        ;
    }
    let loops: usize = if left > 0 {
        whole + 1
    } else {
        whole
    };
    let base: usize = count / loops;
    let extra: usize = count % loops;
    let mut rng = Rng::new(seed);
    let mut out: Vec<LoopSpec> = Vec::with_capacity(loops);
    let mut m: usize = 0;
    proof {
        assert(count as int / n * n <= count) by (nonlinear_arith)
            requires
                n > 0,
                count >= 0,
        ;
        assert(count as int / n <= count) by (nonlinear_arith)
            requires
                n > 0,
                count >= 0,
        ;
        assert(extra > 0 ==> base < usize::MAX) by {
            if extra > 0 && base == usize::MAX {
                vstd::arithmetic::div_mod::lemma_fundamental_div_mod(count as int, n);
                assert(n * base >= base) by (nonlinear_arith)
                    requires
                        n >= 1,
                        base >= 0,
                ;
            }
        }
    }
    while m < loops
        invariant
            m <= loops,
            loops == n,
            n > 0,
            base == count as int / n,
            extra == count as int % n,
            extra > 0 ==> base < usize::MAX,
            steady(*eval),
            rng.counter() == counter_after(seed, (3 * m) as nat),
            out@ == Seq::new(m as nat, |i: int| loop_of(count as int, n, seed, i, *eval)),
        decreases loops - m,
    {
        let ghost k = (3 * m) as nat;
        let jitter_x: u32 = rng.next_unit();
        let jitter_z: u32 = rng.next_unit();
        let center_x: u32 = (*eval)(Field::CenterX { m, loops, jitter_x, jitter_z });
        let center_z: u32 = (*eval)(Field::CenterZ { m, loops, jitter_x, jitter_z });
        let unit: u32 = rng.next_unit();
        proof {
            reveal_with_fuel(counter_after, 4);
            assert(rng.counter() == counter_after(seed, k + 3));
            assert(k + 3 == 3 * (m + 1));
        }
        let walkers: usize = if m < extra {
            base + 1
        } else {
            base
        };
        out.push(
            LoopSpec {
                center_x,
                center_z,
                dir: if m % 2 == 0 {
                    COUNTERCLOCKWISE
                } else {
                    CLOCKWISE
                },
                phase0: (*eval)(Field::Phase { unit }),
                walkers,
            },
        );
        m = m + 1;
        proof {
            assert(out@ =~= Seq::new(
                m as nat,
                |i: int| loop_of(count as int, n, seed, i, *eval),
            ));
        }
    }
    proof {
        lemma_shares_add_up(count as int, n, 0, 0);
        lemma_seated_is_shares(count as int, n, seed, *eval, out@, n);
    }
    MandalaSpec {
        loops: out,
        speed,
        radius: measures.radius,
        canvas: measures.canvas,
        period: measures.period,
    }
}

proof fn lemma_seated_is_shares<F: Fn(Field) -> u32>(
    count: int,
    loops: int,
    seed: u64,
    eval: F,
    s: Seq<LoopSpec>,
    n: int,
)
    requires
        0 < count <= usize::MAX,
        0 < loops,
        0 <= n <= loops,
        s == Seq::new(loops as nat, |i: int| loop_of(count, loops, seed, i, eval)),
    ensures
        seated(s, n) == shares(count, loops, n),
    decreases n,
{
    if n > 0 {
        lemma_seated_is_shares(count, loops, seed, eval, s, n - 1);
        assert(0 <= share(count, loops, n - 1) <= count) by {
            vstd::arithmetic::div_mod::lemma_fundamental_div_mod(count, loops);
            let q = count / loops;
            let r = count % loops;
            assert(0 <= q && 0 <= r && (r > 0 ==> q + 1 <= count) && q <= count)
                by (nonlinear_arith)
                requires
                    count == loops * q + r,
                    loops > 0,
                    count > 0,
                    0 <= r < loops,
            ;
        }
    }
}

/// The figure in slot `j` of a loop: standing on the loop, facing along
/// it, its gait phase the angle it starts at.
pub open spec fn figure_of<F: Fn(Field) -> u32>(
    l: LoopSpec,
    j: int,
    radius: u32,
    speed: u32,
    eval: F,
) -> SpawnSpec {
    let angle = value(
        eval,
        Field::Slot { phase0: l.phase0, j: j as usize, walkers: l.walkers },
    );
    SpawnSpec {
        character: Character {
            pos: Vec3 {
                x: value(eval, Field::FigureX { center: l.center_x, radius, angle }),
                y: value(eval, Field::FigureY { radius, angle }),
                z: value(eval, Field::FigureZ { center: l.center_z, radius, angle }),
            },
            heading: value(eval, Field::Tangent { angle, dir: l.dir }),
            speed: 0,
            phase: angle,
            t: 0,
            footfalls: 0,
            scale: 0x3F80_0000,
            y: 0,
            vy: 0,
            land_t: LAND_WIN,
            punch: None,
            carry: Carry::Nothing,
        },
        path: CirclePath { radius, speed, dir: l.dir },
    }
}

/// The figure in slot `j` of a loop.
pub fn figure<F: Fn(Field) -> u32>(l: &LoopSpec, j: usize, radius: u32, speed: u32, eval: &F) -> (r:
    SpawnSpec)
    requires
        steady(*eval),
    ensures
        r == figure_of(*l, j as int, radius, speed, *eval),
{
    let angle: u32 = (*eval)(Field::Slot { phase0: l.phase0, j, walkers: l.walkers });
    let pos = Vec3 {
        x: (*eval)(Field::FigureX { center: l.center_x, radius, angle }),
        y: (*eval)(Field::FigureY { radius, angle }),
        z: (*eval)(Field::FigureZ { center: l.center_z, radius, angle }),
    };
    let mut character = Character::new(pos, (*eval)(Field::Tangent { angle, dir: l.dir }));
    character.phase = angle;
    SpawnSpec { character, path: CirclePath { radius, speed, dir: l.dir } }
}

/// The figures of the first `n` loops, loop by loop.
pub open spec fn figures<F: Fn(Field) -> u32>(s: MandalaSpec, n: int, eval: F) -> Seq<SpawnSpec>
    decreases n,
{
    if n <= 0 {
        Seq::empty()
    } else {
        figures(s, n - 1, eval) + Seq::new(
            s.loops@[n - 1].walkers as nat,
            |j: int| figure_of(s.loops@[n - 1], j, s.radius, s.speed, eval),
        )
    }
}

/// The field's figures, loop by loop.
pub fn spawn_specs<F: Fn(Field) -> u32>(s: &MandalaSpec, eval: &F) -> (r: Vec<SpawnSpec>)
    requires
        steady(*eval),
    ensures
        r@ == figures(*s, s.loops@.len() as int, *eval),
        r@.len() == seated(s.loops@, s.loops@.len() as int),
{
    let mut out: Vec<SpawnSpec> = Vec::new();
    let mut n: usize = 0;
    while n < s.loops.len()
        invariant
            n <= s.loops@.len(),
            steady(*eval),
            out@ == figures(*s, n as int, *eval),
            out@.len() == seated(s.loops@, n as int),
        decreases s.loops@.len() - n,
    {
        let l = s.loops[n];
        let ghost front = out@;
        let mut j: usize = 0;
        while j < l.walkers
            invariant
                j <= l.walkers,
                n < s.loops@.len(),
                l == s.loops@[n as int],
                steady(*eval),
                out@ == front + Seq::new(
                    j as nat,
                    |j: int| figure_of(l, j, s.radius, s.speed, *eval),
                ),
            decreases l.walkers - j,
        {
            out.push(figure(&l, j, s.radius, s.speed, eval));
            j = j + 1;
            proof {
                assert(out@ =~= front + Seq::new(
                    j as nat,
                    |j: int| figure_of(l, j, s.radius, s.speed, *eval),
                ));
            }
        }
        n = n + 1;
    }
    out
}

// ---------------------------------------------------------------------------
// Scenes
// ---------------------------------------------------------------------------

/// What a scene's walkers come from.
#[derive(Debug, Clone, Copy, PartialEq, Eq, Structural)]
pub enum Source {
    /// A field of so many figures.
    Field(usize),
    /// Scripted circles.
    Circles(ScenePreset),
}

/// Fields by their ids, circles by theirs, and the single walker for any
/// other id.
pub open spec fn source_of(scene: Seq<char>) -> Source {
    match preset_of(scene) {
        Some(count) => Source::Field(count),
        None => match walkers::preset_of(scene) {
            Some(p) => Source::Circles(p),
            None => Source::Circles(walkers::preset_of("walk"@)->0),
        },
    }
}

/// Where a scene's walkers come from. The measurement harness, the
/// drawings and the viewer all lay out their worlds by this one answer.
pub fn scene_source(scene: &str) -> (r: Source)
    ensures
        r == source_of(scene@),
{
    if let Some(count) = preset(scene) {
        return Source::Field(count);
    }
    match walkers::scene_preset(scene) {
        Some(p) => Source::Circles(p),
        None => match walkers::scene_preset("walk") {
            Some(p) => Source::Circles(p),
            None => Source::Field(0),
        },
    }
}

} // verus!

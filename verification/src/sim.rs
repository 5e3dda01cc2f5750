//! The bouncing-particle simulation in a box, stored as a structure of
//! arrays. Every quantity is the bit pattern of a single; the two sums
//! and products that floating point must compute are handed in as
//! functions over bit patterns, and everything else (draw order, wall
//! reflection, the state digest) is decided here.
use vstd::prelude::*;
use crate::bits::{f32_abs, f32_lt, f32_neg_abs};
use crate::digest::{digest_quads, Quad};
use crate::rng::Rng;

verus! {

use crate::bits::{f32_ge_spec, f32_is_nan, f32_key, f32_lt_spec, f32_magnitude, F32_SIGN};
use crate::digest::{lemma_gathering_ignores_order, quad_word, quads, quads_digest};
use crate::eval::steady;
use crate::rng::{counter_after, ranged, spans};

/// The least speed a seeded particle draws: -30.
pub const SPEED_MIN: u32 = 0xC1F0_0000;

/// The bound on the speed a seeded particle draws: 30.
pub const SPEED_MAX: u32 = 0x41F0_0000;

/// Particles in `[0, width] x [0, height]`.
#[derive(Debug, Clone)]
pub struct Sim {
    pub xs: Vec<u32>,
    pub ys: Vec<u32>,
    pub vxs: Vec<u32>,
    pub vys: Vec<u32>,
    pub width: u32,
    pub height: u32,
}

/// Position and speed after meeting the walls: clamped onto a wall that
/// was passed, with the speed turned away from it.
pub open spec fn reflected(pos: u32, vel: u32, min: u32, max: u32) -> (u32, u32) {
    if f32_lt_spec(pos, min) {
        (min, f32_magnitude(vel) as u32)
    } else if f32_lt_spec(max, pos) {
        (max, (F32_SIGN + f32_magnitude(vel)) as u32)
    } else {
        (pos, vel)
    }
}

/// Keep a position inside the walls.
pub fn reflect(pos: u32, vel: u32, min: u32, max: u32) -> (r: (u32, u32))
    ensures
        r == reflected(pos, vel, min, max),
{
    if f32_lt(pos, min) {
        (min, f32_abs(vel))
    } else if f32_lt(max, pos) {
        (max, f32_neg_abs(vel))
    } else {
        (pos, vel)
    }
}

/// One coordinate advanced by one tick: some result of the advance,
/// reflected off the walls.
pub open spec fn coordinate_stepped<F: Fn(u32, u32, u32) -> u32>(
    advance: F,
    pos: u32,
    vel: u32,
    dt: u32,
    max: u32,
    next: (u32, u32),
) -> bool {
    exists|moved: u32|
        #![trigger call_ensures(advance, (pos, vel, dt), moved)]
        call_ensures(advance, (pos, vel, dt), moved) && next == reflected(moved, vel, 0, max)
}

impl Sim {
    /// The four arrays are parallel.
    pub open spec fn wf(&self) -> bool {
        &&& self.ys@.len() == self.xs@.len()
        &&& self.vxs@.len() == self.xs@.len()
        &&& self.vys@.len() == self.xs@.len()
    }

    /// The simulation after one tick.
    pub open spec fn stepped<F: Fn(u32, u32, u32) -> u32>(
        &self,
        advance: F,
        dt: u32,
        next: Sim,
    ) -> bool {
        &&& next.wf()
        &&& next.xs@.len() == self.xs@.len()
        &&& next.width == self.width
        &&& next.height == self.height
        &&& forall|i: int|
            0 <= i < self.xs@.len() ==> #[trigger] coordinate_stepped(
                advance,
                self.xs@[i],
                self.vxs@[i],
                dt,
                self.width,
                (next.xs@[i], next.vxs@[i]),
            )
        &&& forall|i: int|
            0 <= i < self.xs@.len() ==> #[trigger] coordinate_stepped(
                advance,
                self.ys@[i],
                self.vys@[i],
                dt,
                self.height,
                (next.ys@[i], next.vys@[i]),
            )
    }

    /// Particle `i` holds the four draws that follow `4 * i` earlier ones.
    pub open spec fn particle_seeded<F: Fn((u32, u32, u32)) -> u32>(
        &self,
        span: F,
        seed: u64,
        i: int,
    ) -> bool {
        let k = (4 * i) as nat;
        &&& self.xs@[i] == ranged(span, counter_after(seed, k), 0, self.width)
        &&& self.ys@[i] == ranged(span, counter_after(seed, k + 1), 0, self.height)
        &&& self.vxs@[i] == ranged(span, counter_after(seed, k + 2), SPEED_MIN, SPEED_MAX)
        &&& self.vys@[i] == ranged(span, counter_after(seed, k + 3), SPEED_MIN, SPEED_MAX)
    }

    /// Particle `i` is inside the box and no faster than the bounds.
    pub open spec fn particle_bounded(&self, i: int) -> bool {
        &&& spans(0, self.width) ==> f32_ge_spec(self.xs@[i], 0) && f32_lt_spec(
            self.xs@[i],
            self.width,
        )
        &&& spans(0, self.height) ==> f32_ge_spec(self.ys@[i], 0) && f32_lt_spec(
            self.ys@[i],
            self.height,
        )
        &&& f32_ge_spec(self.vxs@[i], SPEED_MIN) && f32_lt_spec(self.vxs@[i], SPEED_MAX)
        &&& f32_ge_spec(self.vys@[i], SPEED_MIN) && f32_lt_spec(self.vys@[i], SPEED_MAX)
    }

    /// A deterministic scene of `n` particles. `span` places a number of
    /// `[0, 1)` between two bounds.
    pub fn seeded<F: Fn((u32, u32, u32)) -> u32>(
        n: usize,
        seed: u64,
        width: u32,
        height: u32,
        span: &F,
    ) -> (r: Sim)
        requires
            steady(*span),
        ensures
            r.wf(),
            r.xs@.len() == n,
            r.width == width,
            r.height == height,
            forall|i: int| 0 <= i < n ==> #[trigger] r.particle_seeded(*span, seed, i),
            forall|i: int| 0 <= i < n ==> #[trigger] r.particle_bounded(i),
    {
        let mut rng = Rng::new(seed);
        let mut sim = Sim {
            xs: Vec::with_capacity(n),
            ys: Vec::with_capacity(n),
            vxs: Vec::with_capacity(n),
            vys: Vec::with_capacity(n),
            width,
            height,
        };
        let mut i: usize = 0;
        while i < n
            invariant
                i <= n,
                sim.wf(),
                sim.xs@.len() == i,
                sim.width == width,
                sim.height == height,
                rng.counter() == counter_after(seed, (4 * i) as nat),
                steady(*span),
                forall|j: int| 0 <= j < i ==> #[trigger] sim.particle_seeded(*span, seed, j),
                forall|j: int| 0 <= j < i ==> #[trigger] sim.particle_bounded(j),
            decreases n - i,
        {
            let ghost before = sim;
            let ghost k = (4 * i) as nat;
            sim.xs.push(rng.range_f32(0, width, span));
            sim.ys.push(rng.range_f32(0, height, span));
            sim.vxs.push(rng.range_f32(SPEED_MIN, SPEED_MAX, span));
            sim.vys.push(rng.range_f32(SPEED_MIN, SPEED_MAX, span));
            proof {
                reveal_with_fuel(counter_after, 5);
                assert(rng.counter() == counter_after(seed, k + 4));
                assert(k + 4 == 4 * (i + 1));
                assert(spans(SPEED_MIN, SPEED_MAX));
                assert forall|j: int| 0 <= j < i + 1 implies #[trigger] sim.particle_seeded(
                    *span,
                    seed,
                    j,
                ) && sim.particle_bounded(j) by {
                    if j < i {
                        assert(before.particle_seeded(*span, seed, j));
                        assert(before.particle_bounded(j));
                    }
                }
                assert forall|j: int| 0 <= j < i + 1 implies #[trigger] sim.particle_bounded(j) by {
                    assert(sim.particle_seeded(*span, seed, j));
                }
            }
            i = i + 1;
        }
        sim
    }

    /// Number of particles.
    pub fn len(&self) -> (r: usize)
        ensures
            r == self.xs@.len(),
    {
        self.xs.len()
    }

    /// Whether there are none.
    pub fn is_empty(&self) -> (r: bool)
        ensures
            r == (self.xs@.len() == 0),
    {
        self.xs.len() == 0
    }

    /// Advance one tick. `advance(pos, vel, dt)` is `pos + vel * dt`.
    pub fn step<F: Fn(u32, u32, u32) -> u32>(&mut self, dt: u32, advance: F)
        requires
            old(self).wf(),
            forall|p: u32, v: u32| #[trigger] call_requires(advance, (p, v, dt)),
        ensures
            old(self).stepped(advance, dt, *final(self)),
    {
        let n: usize = self.xs.len();
        let mut i: usize = 0;
        while i < n
            invariant
                i <= n,
                n == old(self).xs@.len(),
                old(self).wf(),
                self.wf(),
                self.xs@.len() == n,
                self.width == old(self).width,
                self.height == old(self).height,
                forall|p: u32, v: u32| #[trigger] call_requires(advance, (p, v, dt)),
                forall|j: int|
                    i <= j < n ==> self.xs@[j] == old(self).xs@[j] && self.vxs@[j] == old(
                        self,
                    ).vxs@[j] && self.ys@[j] == old(self).ys@[j] && self.vys@[j] == old(self).vys@[j],
                forall|j: int|
                    0 <= j < i ==> #[trigger] coordinate_stepped(
                        advance,
                        old(self).xs@[j],
                        old(self).vxs@[j],
                        dt,
                        old(self).width,
                        (self.xs@[j], self.vxs@[j]),
                    ),
                forall|j: int|
                    0 <= j < i ==> #[trigger] coordinate_stepped(
                        advance,
                        old(self).ys@[j],
                        old(self).vys@[j],
                        dt,
                        old(self).height,
                        (self.ys@[j], self.vys@[j]),
                    ),
            decreases n - i,
        {
            let ghost before = *self;
            let moved_x: u32 = advance(self.xs[i], self.vxs[i], dt);
            let (x, vx) = reflect(moved_x, self.vxs[i], 0, self.width);
            let moved_y: u32 = advance(self.ys[i], self.vys[i], dt);
            let (y, vy) = reflect(moved_y, self.vys[i], 0, self.height);
            self.xs.set(i, x);
            self.ys.set(i, y);
            self.vxs.set(i, vx);
            self.vys.set(i, vy);
            proof {
                assert(coordinate_stepped(
                    advance,
                    old(self).xs@[i as int],
                    old(self).vxs@[i as int],
                    dt,
                    old(self).width,
                    (x, vx),
                ));
                assert(coordinate_stepped(
                    advance,
                    old(self).ys@[i as int],
                    old(self).vys@[i as int],
                    dt,
                    old(self).height,
                    (y, vy),
                ));
                assert forall|j: int| 0 <= j < i + 1 implies #[trigger] coordinate_stepped(
                    advance,
                    old(self).xs@[j],
                    old(self).vxs@[j],
                    dt,
                    old(self).width,
                    (self.xs@[j], self.vxs@[j]),
                ) by {
                    if j < i {
                        assert(self.xs@[j] == before.xs@[j]);
                        assert(self.vxs@[j] == before.vxs@[j]);
                    }
                }
                assert forall|j: int| 0 <= j < i + 1 implies #[trigger] coordinate_stepped(
                    advance,
                    old(self).ys@[j],
                    old(self).vys@[j],
                    dt,
                    old(self).height,
                    (self.ys@[j], self.vys@[j]),
                ) by {
                    if j < i {
                        assert(self.ys@[j] == before.ys@[j]);
                        assert(self.vys@[j] == before.vys@[j]);
                    }
                }
            }
            i = i + 1;
        }
    }

    /// The particles: position and speed.
    pub open spec fn particles(&self) -> Seq<Quad> {
        quads(self.xs@, self.ys@, self.vxs@, self.vys@)
    }

    /// An order-independent digest of the full state, for determinism
    /// checks.
    pub fn state_checksum(&self) -> (r: u64)
        requires
            self.wf(),
        ensures
            r == quads_digest(self.particles()),
    {
        digest_quads(&self.xs, &self.ys, &self.vxs, &self.vys)
    }
}

/// The digest does not depend on the order of the particles.
pub proof fn lemma_digest_ignores_order(a: Sim, b: Sim)
    requires
        a.particles().to_multiset() == b.particles().to_multiset(),
    ensures
        quads_digest(a.particles()) == quads_digest(b.particles()),
{
    lemma_gathering_ignores_order(a.particles(), b.particles(), |q: Quad| quad_word(q));
}

/// Reflection keeps a position inside the walls, whatever the advance
/// gave, as long as it gave a number; and a speed turned by a wall keeps
/// its magnitude.
pub proof fn lemma_walls_hold(pos: u32, vel: u32, min: u32, max: u32)
    requires
        !f32_is_nan(pos),
        f32_ge_spec(max, min),
    ensures
        f32_ge_spec(reflected(pos, vel, min, max).0, min),
        f32_ge_spec(max, reflected(pos, vel, min, max).0),
        f32_magnitude(reflected(pos, vel, min, max).1) == f32_magnitude(vel),
{
}

/// A particle that passed a wall leaves it: past the low wall the speed
/// points up, past the high wall it points down.
pub proof fn lemma_walls_turn_speeds(pos: u32, vel: u32, min: u32, max: u32)
    requires
        !f32_is_nan(vel),
        f32_ge_spec(max, min),
    ensures
        f32_lt_spec(pos, min) ==> f32_key(reflected(pos, vel, min, max).1) >= 0,
        f32_lt_spec(max, pos) ==> f32_key(reflected(pos, vel, min, max).1) <= 0,
{
}

/// One tick keeps a particle in the box: whatever numbers the advance
/// gives for its own two coordinates, the stepped position lies between
/// the walls.
pub proof fn lemma_step_stays_in_the_box<F: Fn(u32, u32, u32) -> u32>(
    sim: Sim,
    advance: F,
    dt: u32,
    next: Sim,
    i: int,
)
    requires
        sim.stepped(advance, dt, next),
        f32_ge_spec(sim.width, 0),
        f32_ge_spec(sim.height, 0),
        0 <= i < sim.xs@.len(),
        forall|moved: u32|
            #[trigger] call_ensures(advance, (sim.xs@[i], sim.vxs@[i], dt), moved) ==> !f32_is_nan(
                moved,
            ),
        forall|moved: u32|
            #[trigger] call_ensures(advance, (sim.ys@[i], sim.vys@[i], dt), moved) ==> !f32_is_nan(
                moved,
            ),
    ensures
        f32_ge_spec(next.xs@[i], 0),
        f32_ge_spec(next.width, next.xs@[i]),
        f32_ge_spec(next.ys@[i], 0),
        f32_ge_spec(next.height, next.ys@[i]),
{
    assert(coordinate_stepped(
        advance,
        sim.xs@[i],
        sim.vxs@[i],
        dt,
        sim.width,
        (next.xs@[i], next.vxs@[i]),
    ));
    assert(coordinate_stepped(
        advance,
        sim.ys@[i],
        sim.vys@[i],
        dt,
        sim.height,
        (next.ys@[i], next.vys@[i]),
    ));
}

/// A tick is determined: an advance with one answer per argument leaves
/// one outcome, so equal simulations stay equal.
pub proof fn lemma_steps_are_determined<F: Fn(u32, u32, u32) -> u32>(
    sim: Sim,
    advance: F,
    dt: u32,
    a: Sim,
    b: Sim,
)
    requires
        sim.stepped(advance, dt, a),
        sim.stepped(advance, dt, b),
        forall|p: u32, v: u32, m: u32, n: u32|
            #[trigger] call_ensures(advance, (p, v, dt), m) && #[trigger] call_ensures(
                advance,
                (p, v, dt),
                n,
            ) ==> m == n,
    ensures
        a.xs@ == b.xs@,
        a.ys@ == b.ys@,
        a.vxs@ == b.vxs@,
        a.vys@ == b.vys@,
        a.width == b.width,
        a.height == b.height,
{
    assert forall|i: int| 0 <= i < sim.xs@.len() implies a.xs@[i] == b.xs@[i] && a.vxs@[i]
        == b.vxs@[i] by {
        let (x, v) = (sim.xs@[i], sim.vxs@[i]);
        assert(coordinate_stepped(advance, x, v, dt, sim.width, (a.xs@[i], a.vxs@[i])));
        assert(coordinate_stepped(advance, x, v, dt, sim.width, (b.xs@[i], b.vxs@[i])));
    }
    assert forall|i: int| 0 <= i < sim.xs@.len() implies a.ys@[i] == b.ys@[i] && a.vys@[i]
        == b.vys@[i] by {
        let (y, v) = (sim.ys@[i], sim.vys@[i]);
        assert(coordinate_stepped(advance, y, v, dt, sim.height, (a.ys@[i], a.vys@[i])));
        assert(coordinate_stepped(advance, y, v, dt, sim.height, (b.ys@[i], b.vys@[i])));
    }
}

} // verus!

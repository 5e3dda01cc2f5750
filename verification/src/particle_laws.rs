//! What the bouncing particles promise as a whole: how bit patterns
//! order, what a draw of a range gives, how a particle moves and bounces,
//! which particles meet, and what a percentile covers.
use vstd::prelude::*;

verus! {

use crate::bits::{f32_ge_spec, f32_is_nan, f32_lt_spec};
use crate::demo::{cells_at, meeting, Ends};
use crate::demo::lemma_meeting_pairs;
use crate::eval::value;
use crate::grid::clamped;
use crate::rng::{counter_after, ranged};
use crate::sim::Sim;
use crate::singles::fraction_of;
use crate::stats::{lemma_total_order, percentile_of, ranked, total_key, total_order};

/// Patterns order as the numbers they stand for: without a sign by
/// magnitude, with one against it, and a signed number before an unsigned
/// one unless both are zero. What is no number compares with nothing.
pub proof fn lemma_patterns_order_as_numbers(a: u32, b: u32)
    ensures
        a <= 0x7F80_0000 && b <= 0x7F80_0000 ==> (f32_lt_spec(a, b) <==> a < b),
        0x8000_0000 <= a <= 0xFF80_0000 && 0x8000_0000 <= b <= 0xFF80_0000 ==> (f32_lt_spec(a, b)
            <==> b < a),
        0x8000_0000 <= a <= 0xFF80_0000 && b <= 0x7F80_0000 ==> (f32_lt_spec(a, b) <==> !(a
            == 0x8000_0000 && b == 0)) && !f32_lt_spec(b, a),
        0x7F80_0000 < a < 0x8000_0000 || 0xFF80_0000 < a ==> !f32_lt_spec(a, b) && !f32_lt_spec(
            b,
            a,
        ) && !f32_ge_spec(a, b) && !f32_ge_spec(b, a),
        !f32_is_nan(a) && !f32_is_nan(b) ==> (f32_ge_spec(a, b) <==> !f32_lt_spec(a, b)),
{
}

/// Each draw steps the counter by the golden gamma, whatever was drawn
/// before.
pub proof fn lemma_draws_step_the_counter(state: u64, n: nat)
    ensures
        counter_after(state, n) == (state + n * 0x9E37_79B9_7F4A_7C15) % 0x1_0000_0000_0000_0000,
    decreases n,
{
    if n > 0 {
        let before = (n - 1) as nat;
        lemma_draws_step_the_counter(state, before);
        vstd::arithmetic::div_mod::lemma_add_mod_noop(
            state + before * 0x9E37_79B9_7F4A_7C15,
            0x9E37_79B9_7F4A_7C15,
            0x1_0000_0000_0000_0000,
        );
        assert(n * 0x9E37_79B9_7F4A_7C15 == before * 0x9E37_79B9_7F4A_7C15
            + 0x9E37_79B9_7F4A_7C15) by (nonlinear_arith)
            requires
                before == n - 1,
        ;
        vstd::arithmetic::div_mod::lemma_small_mod(
            0x9E37_79B9_7F4A_7C15,
            0x1_0000_0000_0000_0000,
        );
    } else {
        vstd::arithmetic::div_mod::lemma_small_mod(state as nat, 0x1_0000_0000_0000_0000);
    }
}

/// A draw of a range takes what the placing function makes of a fraction
/// wherever that lies in the range, and lies in the range in any case.
pub proof fn lemma_draws_are_placed_in_their_range<F: Fn((u32, u32, u32)) -> u32>(
    span: F,
    state: u64,
    min: u32,
    max: u32,
)
    requires
        min % 0x8000_0000 < 0x7F80_0000,
        max % 0x8000_0000 < 0x7F80_0000,
        f32_lt_spec(min, max),
    ensures
        ({
            let z = ((state + 0x9E37_79B9_7F4A_7C15) % 0x1_0000_0000_0000_0000) as u64;
            let n = crate::rng::splitmix_mix_spec(z) >> 40;
            let placed = value(span, (fraction_of(n as int), min, max));
            &&& f32_ge_spec(placed, min) && f32_lt_spec(placed, max) ==> ranged(
                span,
                state,
                min,
                max,
            ) == placed
            &&& f32_lt_spec(placed, min) ==> ranged(span, state, min, max) == min
        }),
        f32_ge_spec(ranged(span, state, min, max), min),
        f32_lt_spec(ranged(span, state, min, max), max),
{
    let z = ((state + 0x9E37_79B9_7F4A_7C15) % 0x1_0000_0000_0000_0000) as u64;
    let n = crate::rng::splitmix_mix_spec(z) >> 40;
    let mixed = crate::rng::splitmix_mix_spec(z);
    assert(mixed >> 40 < 0x100_0000) by (bit_vector);
    assert(n as u32 as int == n as int);
}

/// A draw that rounding carries past its range is the last number of it:
/// none lies between that and the bound.
pub proof fn lemma_draws_past_their_range_are_its_last<F: Fn((u32, u32, u32)) -> u32>(
    span: F,
    state: u64,
    min: u32,
    max: u32,
    between: u32,
)
    requires
        min % 0x8000_0000 < 0x7F80_0000,
        max % 0x8000_0000 < 0x7F80_0000,
        f32_lt_spec(min, max),
        ({
            let z = ((state + 0x9E37_79B9_7F4A_7C15) % 0x1_0000_0000_0000_0000) as u64;
            let n = crate::rng::splitmix_mix_spec(z) >> 40;
            f32_ge_spec(value(span, (fraction_of(n as int), min, max)), max)
        }),
    ensures
        !(f32_lt_spec(ranged(span, state, min, max), between) && f32_lt_spec(between, max)),
{
    let z = ((state + 0x9E37_79B9_7F4A_7C15) % 0x1_0000_0000_0000_0000) as u64;
    let mixed = crate::rng::splitmix_mix_spec(z);
    let n = mixed >> 40;
    assert(mixed >> 40 < 0x100_0000) by (bit_vector);
    assert(n as u32 as int == n as int);
}

/// A seeded particle takes four draws of its own, in order: across the
/// box, up the box, and two speeds of -30 to 30.
pub proof fn lemma_particles_take_four_draws<F: Fn((u32, u32, u32)) -> u32>(
    sim: Sim,
    span: F,
    seed: u64,
    i: int,
)
    requires
        0 <= i < sim.xs@.len(),
        sim.particle_seeded(span, seed, i),
    ensures
        ({
            let at = |k: int|
                ((seed + (4 * i + k) * 0x9E37_79B9_7F4A_7C15) % 0x1_0000_0000_0000_0000) as u64;
            &&& sim.xs@[i] == ranged(span, at(0), 0, sim.width)
            &&& sim.ys@[i] == ranged(span, at(1), 0, sim.height)
            &&& sim.vxs@[i] == ranged(span, at(2), 0xC1F0_0000, 0x41F0_0000)
            &&& sim.vys@[i] == ranged(span, at(3), 0xC1F0_0000, 0x41F0_0000)
        }),
{
    let k = (4 * i) as nat;
    lemma_draws_step_the_counter(seed, k);
    lemma_draws_step_the_counter(seed, k + 1);
    lemma_draws_step_the_counter(seed, k + 2);
    lemma_draws_step_the_counter(seed, k + 3);
}

/// A particle moves by its own speed. Inside the walls it keeps what the
/// advance gave and its speed; past one it stops on it and turns away.
/// The width bounds the one coordinate and the height the other.
pub proof fn lemma_particles_move_and_bounce<F: Fn(u32, u32, u32) -> u32>(
    sim: Sim,
    advance: F,
    dt: u32,
    next: Sim,
    i: int,
)
    requires
        sim.wf(),
        sim.stepped(advance, dt, next),
        0 <= i < sim.xs@.len(),
    ensures
        next.xs@.len() == sim.xs@.len(),
        next.width == sim.width,
        next.height == sim.height,
        exists|x: u32|
            #![trigger call_ensures(advance, (sim.xs@[i], sim.vxs@[i], dt), x)]
            {
                &&& call_ensures(advance, (sim.xs@[i], sim.vxs@[i], dt), x)
                &&& f32_lt_spec(x, 0) ==> next.xs@[i] == 0 && next.vxs@[i] == sim.vxs@[i]
                    % 0x8000_0000
                &&& !f32_lt_spec(x, 0) && f32_lt_spec(sim.width, x) ==> next.xs@[i] == sim.width
                    && next.vxs@[i] == 0x8000_0000 + sim.vxs@[i] % 0x8000_0000
                &&& !f32_lt_spec(x, 0) && !f32_lt_spec(sim.width, x) ==> next.xs@[i] == x
                    && next.vxs@[i] == sim.vxs@[i]
            },
        exists|y: u32|
            #![trigger call_ensures(advance, (sim.ys@[i], sim.vys@[i], dt), y)]
            {
                &&& call_ensures(advance, (sim.ys@[i], sim.vys@[i], dt), y)
                &&& f32_lt_spec(y, 0) ==> next.ys@[i] == 0 && next.vys@[i] == sim.vys@[i]
                    % 0x8000_0000
                &&& !f32_lt_spec(y, 0) && f32_lt_spec(sim.height, y) ==> next.ys@[i] == sim.height
                    && next.vys@[i] == 0x8000_0000 + sim.vys@[i] % 0x8000_0000
                &&& !f32_lt_spec(y, 0) && !f32_lt_spec(sim.height, y) ==> next.ys@[i] == y
                    && next.vys@[i] == sim.vys@[i]
            },
{
    assert(crate::sim::coordinate_stepped(
        advance,
        sim.xs@[i],
        sim.vxs@[i],
        dt,
        sim.width,
        (next.xs@[i], next.vxs@[i]),
    ));
    assert(crate::sim::coordinate_stepped(
        advance,
        sim.ys@[i],
        sim.vys@[i],
        dt,
        sim.height,
        (next.ys@[i], next.vys@[i]),
    ));
}

/// A coordinate on the grid is kept, and one off it goes to the nearest
/// cell.
pub proof fn lemma_cells_are_the_nearest(v: i64, len: int)
    requires
        len > 0,
    ensures
        0 <= clamped(v, len) < len,
        0 <= v < len ==> clamped(v, len) == v,
        forall|c: int|
            #![trigger clamped(v, len) - c]
            0 <= c < len ==> -(if v >= c {
                v - c
            } else {
                c - v
            }) <= clamped(v, len) - v <= (if v >= c {
                v - c
            } else {
                c - v
            }),
{
}

/// Two particles on the grid, in the same or neighboring cells both ways,
/// meet if and only if they are near where they stand; and they are
/// counted once, the lower index first.
pub proof fn lemma_near_particles_meet<C: Fn(u32) -> i64, N: Fn(Ends) -> bool>(
    sim: Sim,
    cell: C,
    near: N,
    size: (int, int),
    a: u32,
    b: u32,
)
    requires
        0 < size.0,
        0 < size.1,
        sim.xs@.len() <= u32::MAX,
        sim.wf(),
        a < b < sim.xs@.len(),
        0 <= value(cell, sim.xs@[a as int]) < size.0,
        0 <= value(cell, sim.xs@[b as int]) < size.0,
        0 <= value(cell, sim.ys@[a as int]) < size.1,
        0 <= value(cell, sim.ys@[b as int]) < size.1,
    ensures
        meeting(sim, cell, near, size).contains((a, b)) <==> {
            &&& -1 <= value(cell, sim.xs@[a as int]) - value(cell, sim.xs@[b as int]) <= 1
            &&& -1 <= value(cell, sim.ys@[a as int]) - value(cell, sim.ys@[b as int]) <= 1
            &&& value(
                near,
                (sim.xs@[a as int], sim.ys@[a as int], sim.xs@[b as int], sim.ys@[b as int]),
            )
        },
        !meeting(sim, cell, near, size).contains((b, a)),
        meeting(sim, cell, near, size).no_duplicates(),
{
    lemma_meeting_pairs(sim, cell, near, size);
    let cells = cells_at(sim, cell);
    assert(cells[a as int] == (value(cell, sim.xs@[a as int]), value(cell, sim.ys@[a as int])));
    assert(cells[b as int] == (value(cell, sim.xs@[b as int]), value(cell, sim.ys@[b as int])));
}

/// Doubles rank by their total order: without a sign by pattern, with one
/// against it, and every signed pattern before every unsigned one.
pub proof fn lemma_doubles_rank_by_sign_and_size(a: u64, b: u64)
    ensures
        a < 0x8000_0000_0000_0000 && b < 0x8000_0000_0000_0000 ==> (total_key(a) < total_key(b)
            <==> a < b),
        a >= 0x8000_0000_0000_0000 && b >= 0x8000_0000_0000_0000 ==> (total_key(a) < total_key(b)
            <==> b < a),
        a >= 0x8000_0000_0000_0000 && b < 0x8000_0000_0000_0000 ==> total_key(a) < total_key(b),
        total_key(a) == total_key(b) ==> a == b,
{
}

/// A percentile is a value of the sample at some rank, in ascending
/// order, such that so large a share of the sample lies at or before the
/// rank, and no earlier rank has that.
pub proof fn lemma_percentiles_cover_their_share(sample: Seq<u64>, num: int, den: int)
    requires
        sample.len() > 0,
        0 <= num <= den,
        den > 0,
    ensures
        ranked(sample).to_multiset() == sample.to_multiset(),
        forall|i: int, j: int|
            0 <= i <= j < sample.len() ==> total_key(#[trigger] ranked(sample)[i]) <= total_key(
                #[trigger] ranked(sample)[j],
            ),
        exists|rank: int|
            {
                &&& 1 <= rank <= sample.len()
                &&& percentile_of(ranked(sample), num, den) == #[trigger] ranked(sample)[rank - 1]
                &&& rank * den >= num * sample.len()
                &&& rank == 1 || (rank - 1) * den < num * sample.len()
            },
{
    broadcast use vstd::seq_lib::group_to_multiset_ensures;

    lemma_total_order();
    sample.lemma_sort_by_ensures(total_order());
    let s = ranked(sample);
    let n = s.len() as int;
    assert(n == s.to_multiset().len());
    assert(sample.len() == sample.to_multiset().len());
    assert forall|i: int, j: int| 0 <= i <= j < sample.len() implies total_key(#[trigger] s[i])
        <= total_key(#[trigger] s[j]) by {
        if i < j {
            assert(total_order()(s[i], s[j]));
        }
    }
    let covered = (num * n + den - 1) / den;
    let rank = crate::stats::nearest_rank(n, num, den);
    let total = num * n;
    assert(0 <= total <= den * n) by (nonlinear_arith)
        requires
            0 <= num <= den,
            n >= 0,
            total == num * n,
    ;
    assert(covered * den >= total && (covered - 1) * den < total && covered >= 0) by (nonlinear_arith)
        requires
            covered == (total + den - 1) / den,
            den > 0,
            total >= 0,
    ;
    assert(covered <= n) by (nonlinear_arith)
        requires
            (covered - 1) * den < total,
            total <= den * n,
            den > 0,
    ;
    if covered < 1 {
        assert(rank == 1);
        assert(covered == 0);
        assert(covered * den == 0) by (nonlinear_arith)
            requires
                covered == 0,
        ;
        assert(rank * den >= total);
    }
    assert(rank * den >= total);
    assert(percentile_of(s, num, den) == s[rank - 1]);
}

/// The ends of a sample: the 0th percentile is its least value and the
/// 100th its greatest.
pub proof fn lemma_percentiles_end_at_the_extremes(sample: Seq<u64>, i: int)
    requires
        0 <= i < sample.len(),
    ensures
        total_key(percentile_of(ranked(sample), 0, 100)) <= total_key(sample[i]),
        total_key(sample[i]) <= total_key(percentile_of(ranked(sample), 100, 100)),
{
    broadcast use vstd::seq_lib::group_to_multiset_ensures;

    lemma_percentiles_cover_their_share(sample, 0, 100);
    lemma_percentiles_cover_their_share(sample, 100, 100);
    let s = ranked(sample);
    let n = s.len() as int;
    assert(n == s.to_multiset().len());
    assert(sample.len() == sample.to_multiset().len());
    assert(sample.contains(sample[i]));
    sample.to_multiset_ensures();
    s.to_multiset_ensures();
    assert(s.to_multiset().count(sample[i]) > 0);
    assert(s.contains(sample[i]));
    let at = choose|at: int| 0 <= at < s.len() && s[at] == sample[i];
    let first = choose|rank: int|
        {
            &&& 1 <= rank <= sample.len()
            &&& percentile_of(s, 0, 100) == #[trigger] s[rank - 1]
            &&& rank * 100 >= 0 * sample.len()
            &&& rank == 1 || (rank - 1) * 100 < 0 * sample.len()
        };
    let last = choose|rank: int|
        {
            &&& 1 <= rank <= sample.len()
            &&& percentile_of(s, 100, 100) == #[trigger] s[rank - 1]
            &&& rank * 100 >= 100 * sample.len()
            &&& rank == 1 || (rank - 1) * 100 < 100 * sample.len()
        };
    assert(first == 1);
    assert(last == n);
    assert(total_key(s[0]) <= total_key(s[at]) <= total_key(s[n - 1]));
}

/// The number that the generator's finalizer made another of: shifts are
/// undone by shifts, products by the inverse factors.
pub open spec fn unmixed(r: u64) -> u64 {
    let b = r ^ (r >> 31) ^ (r >> 62);
    let y = (b as int * 0x3196_42B2_D24D_8EC3int % 0x1_0000_0000_0000_0000int) as u64;
    let a = y ^ (y >> 27) ^ (y >> 54);
    let x = (a as int * 0x96DE_1B17_3F11_9089int % 0x1_0000_0000_0000_0000int) as u64;
    x ^ (x >> 30) ^ (x >> 60)
}

/// A product with an odd factor is undone by the factor's inverse.
proof fn lemma_factors_undo(v: u64, c: int, d: int, q: int)
    requires
        c * d == q * 0x1_0000_0000_0000_0000 + 1,
    ensures
        (v * c % 0x1_0000_0000_0000_0000) * d % 0x1_0000_0000_0000_0000 == v,
{
    let m = 0x1_0000_0000_0000_0000int;
    vstd::arithmetic::div_mod::lemma_mul_mod_noop_left(v * c, d, m);
    assert(v * c * d == m * (v * q) + v) by (nonlinear_arith)
        requires
            c * d == q * m + 1,
    ;
    vstd::arithmetic::div_mod::lemma_mod_multiples_vanish(v * q, v as int, m);
    vstd::arithmetic::div_mod::lemma_small_mod(v as nat, m as nat);
}

/// The generator's finalizer loses nothing: what it was given can be
/// read back from what it made, so different numbers never make the
/// same word.
pub proof fn lemma_finalized_words_read_back(z: u64)
    ensures
        unmixed(crate::rng::splitmix_mix_spec(z)) == z,
{
    let x = z ^ (z >> 30);
    let a = (x as int * 0xBF58_476D_1CE4_E5B9int % 0x1_0000_0000_0000_0000int) as u64;
    let y = a ^ (a >> 27);
    let b = (y as int * 0x94D0_49BB_1331_11EBint % 0x1_0000_0000_0000_0000int) as u64;
    let r = b ^ (b >> 31);
    assert(r ^ (r >> 31) ^ (r >> 62) == b) by (bit_vector)
        requires
            r == b ^ (b >> 31),
    ;
    assert(y ^ (y >> 27) ^ (y >> 54) == a) by (bit_vector)
        requires
            y == a ^ (a >> 27),
    ;
    assert(x ^ (x >> 30) ^ (x >> 60) == z) by (bit_vector)
        requires
            x == z ^ (z >> 30),
    ;
    lemma_factors_undo(y, 0x94D0_49BB_1331_11EB, 0x3196_42B2_D24D_8EC3, 0x1cd336eda85f1453);
    lemma_factors_undo(x, 0xBF58_476D_1CE4_E5B9, 0x96DE_1B17_3F11_9089, 0x70c3bca78f27f46c);
}

} // verus!

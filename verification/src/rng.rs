//! The deterministic generator every seeded scene draws from.
use vstd::prelude::*;
use crate::bits::{f32_finite, f32_ge, f32_lt, F32_ONE, F32_SIGN};
use crate::singles::fraction;

verus! {

use crate::bits::{f32_ge_spec, f32_is_finite, f32_key, f32_lt_spec};
use crate::eval::{steady, value};
use crate::singles::{fraction_of, is_fraction};

/// The additive step of the generator's counter.
pub const GOLDEN_GAMMA: u64 = 0x9E37_79B9_7F4A_7C15;

/// SplitMix64's finalizer: the avalanche applied to each counter value.
pub open spec fn splitmix_mix_spec(z: u64) -> u64 {
    let a = ((z ^ (z >> 30)) as int * 0xBF58_476D_1CE4_E5B9int % 0x1_0000_0000_0000_0000int) as u64;
    let b = ((a ^ (a >> 27)) as int * 0x94D0_49BB_1331_11EBint % 0x1_0000_0000_0000_0000int) as u64;
    b ^ (b >> 31)
}

/// The avalanche used by the generator and by the map's lattice.
pub fn splitmix_mix(z: u64) -> (r: u64)
    ensures
        r == splitmix_mix_spec(z),
{
    let a: u64 = (z ^ (z >> 30)).wrapping_mul(0xBF58_476D_1CE4_E5B9);
    let b: u64 = (a ^ (a >> 27)).wrapping_mul(0x94D0_49BB_1331_11EB);
    b ^ (b >> 31)
}

/// The generator's counter after one more draw.
pub open spec fn advanced(state: u64) -> u64 {
    ((state + GOLDEN_GAMMA) % 0x1_0000_0000_0000_0000) as u64
}

/// The generator's counter after `n` draws.
pub open spec fn counter_after(state: u64, n: nat) -> u64
    decreases n,
{
    if n == 0 {
        state
    } else {
        advanced(counter_after(state, (n - 1) as nat))
    }
}

/// A small, fast, deterministic generator: a counter stepped by the
/// golden gamma and mixed. Adequate for scene generation; not
/// cryptographic.
#[derive(Debug, Clone)]
pub struct Rng {
    state: u64,
}

impl Rng {
    /// The counter.
    pub closed spec fn counter(&self) -> u64 {
        self.state
    }

    /// A generator for a seed.
    pub fn new(seed: u64) -> (r: Rng)
        ensures
            r.counter() == seed,
    {
        Rng { state: seed }
    }

    /// The next 64 bits.
    pub fn next_u64(&mut self) -> (r: u64)
        ensures
            final(self).counter() == advanced(old(self).counter()),
            r == splitmix_mix_spec(advanced(old(self).counter())),
    {
        self.state = self.state.wrapping_add(GOLDEN_GAMMA);
        splitmix_mix(self.state)
    }

    /// The next draw on a grid of 2^24 steps: `draw / 2^24` is uniform in
    /// `[0, 1)` and exact in single precision.
    pub fn next_unit(&mut self) -> (r: u32)
        ensures
            final(self).counter() == advanced(old(self).counter()),
            r == unit_draw(old(self).counter()),
            r < 0x100_0000,
    {
        let v: u64 = self.next_u64();
        assert(v >> 40 < 0x100_0000) by (bit_vector);
        (v >> 40) as u32
    }

    /// The next number, uniform in `[0, 1)`.
    pub fn next_f32(&mut self) -> (r: u32)
        ensures
            final(self).counter() == advanced(old(self).counter()),
            r == fraction_of(unit_draw(old(self).counter()) as int),
            is_fraction(r, unit_draw(old(self).counter()) as int),
            f32_ge_spec(r, 0),
            f32_lt_spec(r, F32_ONE),
    {
        let n: u32 = self.next_unit();
        fraction(n)
    }

    /// The next number in `[min, max)`: `span` places a number of
    /// `[0, 1)` between the two, and what rounding carries out of the
    /// range is held in it.
    pub fn range_f32<F: Fn((u32, u32, u32)) -> u32>(&mut self, min: u32, max: u32, span: &F) -> (r:
        u32)
        requires
            steady(*span),
        ensures
            final(self).counter() == advanced(old(self).counter()),
            r == ranged(*span, old(self).counter(), min, max),
            spans(min, max) ==> f32_ge_spec(r, min) && f32_lt_spec(r, max),
    {
        let u: u32 = self.next_f32();
        let placed: u32 = span((u, min, max));
        hold(placed, min, max)
    }
}

/// Two numbers with a range between them.
pub open spec fn spans(min: u32, max: u32) -> bool {
    f32_is_finite(min) && f32_is_finite(max) && f32_lt_spec(min, max)
}

/// The number just below a finite one.
pub open spec fn just_below(b: u32) -> u32 {
    if f32_key(b) == 0 {
        0x8000_0001
    } else if b < F32_SIGN {
        (b - 1) as u32
    } else {
        (b + 1) as u32
    }
}

/// A number held in `[min, max)`, where there is such a range: what lies
/// below it, and what is no number, becomes `min`; what lies above it
/// becomes the last number below `max`.
pub open spec fn held(v: u32, min: u32, max: u32) -> u32 {
    if !spans(min, max) || (f32_ge_spec(v, min) && f32_lt_spec(v, max)) {
        v
    } else if f32_ge_spec(v, max) {
        just_below(max)
    } else {
        min
    }
}

/// The draw of a range that a counter gives: the number of `[0, 1)` that
/// it gives, placed between the bounds and held there.
pub open spec fn ranged<F: Fn((u32, u32, u32)) -> u32>(
    span: F,
    state: u64,
    min: u32,
    max: u32,
) -> u32 {
    held(value(span, (fraction_of(unit_draw(state) as int), min, max)), min, max)
}

/// Hold a number in a range.
pub fn hold(v: u32, min: u32, max: u32) -> (r: u32)
    ensures
        r == held(v, min, max),
        spans(min, max) ==> f32_ge_spec(r, min) && f32_lt_spec(r, max),
{
    if !f32_finite(min) || !f32_finite(max) || !f32_lt(min, max) || (f32_ge(v, min) && f32_lt(
        v,
        max,
    )) {
        v
    } else if f32_ge(v, max) {
        if max == 0 || max == F32_SIGN {
            0x8000_0001
        } else if max < F32_SIGN {
            max - 1
        } else {
            max + 1
        }
    } else {
        min
    }
}

/// The grid draw that a counter gives.
pub open spec fn unit_draw(state: u64) -> u32 {
    (splitmix_mix_spec(advanced(state)) >> 40) as u32
}

/// The `i`-th of the words drawn from a counter.
pub open spec fn nth_word(seed: u64, i: nat) -> u64 {
    splitmix_mix_spec(counter_after(seed, i + 1))
}

proof fn lemma_shift_xor_injective(a: u64, b: u64)
    ensures
        a ^ (a >> 30) == b ^ (b >> 30) ==> a == b,
        a ^ (a >> 27) == b ^ (b >> 27) ==> a == b,
        a ^ (a >> 31) == b ^ (b >> 31) ==> a == b,
{
    assert(a ^ (a >> 30) == b ^ (b >> 30) ==> a == b) by (bit_vector);
    assert(a ^ (a >> 27) == b ^ (b >> 27) ==> a == b) by (bit_vector);
    assert(a ^ (a >> 31) == b ^ (b >> 31) ==> a == b) by (bit_vector);
}

/// Multiplying by a constant that has an inverse modulo 2^64 loses
/// nothing.
pub proof fn lemma_scaling_injective(a: int, b: int, m: int, inv: int)
    requires
        0 <= a < 0x1_0000_0000_0000_0000,
        0 <= b < 0x1_0000_0000_0000_0000,
        (m * inv) % 0x1_0000_0000_0000_0000 == 1,
        (a * m) % 0x1_0000_0000_0000_0000 == (b * m) % 0x1_0000_0000_0000_0000,
    ensures
        a == b,
{
    let n = 0x1_0000_0000_0000_0000int;
    vstd::arithmetic::div_mod::lemma_mul_mod_noop(a * m, inv, n);
    vstd::arithmetic::div_mod::lemma_mul_mod_noop(b * m, inv, n);
    assert(((a * m) * inv) % n == ((b * m) * inv) % n);
    assert((a * m) * inv == a * (m * inv)) by (nonlinear_arith);
    assert((b * m) * inv == b * (m * inv)) by (nonlinear_arith);
    vstd::arithmetic::div_mod::lemma_mul_mod_noop(a, m * inv, n);
    vstd::arithmetic::div_mod::lemma_mul_mod_noop(b, m * inv, n);
    assert(((a % n) * ((m * inv) % n)) % n == (a % n) % n) by (nonlinear_arith)
        requires
            (m * inv) % n == 1,
    ;
    assert(((b % n) * ((m * inv) % n)) % n == (b % n) % n) by (nonlinear_arith)
        requires
            (m * inv) % n == 1,
    ;
    vstd::arithmetic::div_mod::lemma_small_mod(a as nat, n as nat);
    vstd::arithmetic::div_mod::lemma_small_mod(b as nat, n as nat);
}

/// The avalanche is one to one.
pub proof fn lemma_mix_is_injective(x: u64, y: u64)
    requires
        splitmix_mix_spec(x) == splitmix_mix_spec(y),
    ensures
        x == y,
{
    let n = 0x1_0000_0000_0000_0000int;
    let m1 = 0xBF58_476D_1CE4_E5B9int;
    let m2 = 0x94D0_49BB_1331_11EBint;
    let px = x ^ (x >> 30);
    let py = y ^ (y >> 30);
    let ax = (px as int * m1 % n) as u64;
    let ay = (py as int * m1 % n) as u64;
    let qx = ax ^ (ax >> 27);
    let qy = ay ^ (ay >> 27);
    let bx = (qx as int * m2 % n) as u64;
    let by = (qy as int * m2 % n) as u64;
    lemma_shift_xor_injective(bx, by);
    assert((m2 * 0x319642b2d24d8ec3int) % n == 1);
    lemma_scaling_injective(qx as int, qy as int, m2, 0x319642b2d24d8ec3int);
    lemma_shift_xor_injective(ax, ay);
    lemma_scaling_injective(px as int, py as int, m1, 0x96de1b173f119089int);
    lemma_shift_xor_injective(x, y);
}

/// The seed of the `k`-th of several generators that share one seed.
pub open spec fn hop_seed(seed: u64, k: int) -> u64 {
    ((seed + k * GOLDEN_GAMMA) % 0x1_0000_0000_0000_0000) as u64
}

/// The seed of the `k`-th of several generators that share one seed.
pub fn nth_seed(seed: u64, k: usize) -> (r: u64)
    ensures
        r == hop_seed(seed, k as int),
{
    let hop: u64 = (k as u64).wrapping_mul(GOLDEN_GAMMA);
    proof {
        vstd::arithmetic::div_mod::lemma_add_mod_noop(
            seed as int,
            k * GOLDEN_GAMMA,
            0x1_0000_0000_0000_0000,
        );
        assert(k * GOLDEN_GAMMA >= 0) by (nonlinear_arith)
            requires
                k >= 0,
        ;
        vstd::arithmetic::div_mod::lemma_small_mod(
            seed as nat,
            0x1_0000_0000_0000_0000,
        );
    }
    seed.wrapping_add(hop)
}

/// Generators that share one seed never share the seed they start from.
pub proof fn lemma_hops_are_distinct(seed: u64, j: u64, k: u64)
    requires
        hop_seed(seed, j as int) == hop_seed(seed, k as int),
    ensures
        j == k,
{
    let n = 0x1_0000_0000_0000_0000int;
    let g = GOLDEN_GAMMA as int;
    let a = (j as int * g) % n;
    let b = (k as int * g) % n;
    assert(j * g >= 0 && k * g >= 0) by (nonlinear_arith)
        requires
            j >= 0,
            k >= 0,
            g >= 0,
    ;
    vstd::arithmetic::div_mod::lemma_add_mod_noop(seed as int, j * g, n);
    vstd::arithmetic::div_mod::lemma_add_mod_noop(seed as int, k * g, n);
    vstd::arithmetic::div_mod::lemma_small_mod(seed as nat, n as nat);
    assert((seed + a) % n == (seed + b) % n);
    assert(a == b);
    lemma_scaling_injective(j as int, k as int, g, 0xf1de83e19937733dint);
}

/// Two generators with one seed give one word at every draw; two seeds
/// give different words at every draw.
pub proof fn lemma_words_follow_the_seed(a: u64, b: u64, i: nat)
    ensures
        nth_word(a, i) == nth_word(b, i) <==> a == b,
{
    if nth_word(a, i) == nth_word(b, i) {
        lemma_mix_is_injective(counter_after(a, i + 1), counter_after(b, i + 1));
        lemma_counter_injective(a, b, i + 1);
    }
}

proof fn lemma_counter_injective(a: u64, b: u64, n: nat)
    requires
        counter_after(a, n) == counter_after(b, n),
    ensures
        a == b,
    decreases n,
{
    if n > 0 {
        let x = counter_after(a, (n - 1) as nat);
        let y = counter_after(b, (n - 1) as nat);
        assert(advanced(x) == advanced(y));
        assert(x == y);
        lemma_counter_injective(a, b, (n - 1) as nat);
    }
}

} // verus!

//! The numbers that single-precision patterns stand for: a finite
//! pattern is its signed significand times a power of two.
use vstd::prelude::*;
use crate::bits::{F32_ONE, F32_SIGN};

verus! {

use crate::bits::{f32_ge_spec, f32_in_unit, f32_lt_spec};
use vstd::arithmetic::div_mod::{
    lemma_fundamental_div_mod,
    lemma_fundamental_div_mod_converse,
    lemma_mod_bound,
};
use vstd::arithmetic::power2::{
    lemma2_to64,
    lemma_pow2_adds,
    lemma_pow2_pos,
    lemma_pow2_strictly_increases,
    lemma_pow2_unfold,
    pow2,
};

/// The least significand of a normal number.
pub const NORMAL: u32 = 0x0080_0000;

/// One more than the greatest significand.
pub const SIGNIFICANDS: u32 = 0x0100_0000;

/// The exponent field.
pub open spec fn exponent(b: u32) -> int {
    b as int / 0x80_0000 % 256
}

/// The exponent that counts: subnormal numbers share the least one.
pub open spec fn scale(b: u32) -> int {
    if exponent(b) == 0 {
        1
    } else {
        exponent(b)
    }
}

/// The significand, with the leading bit of a normal number and the sign.
pub open spec fn significand(b: u32) -> int {
    let leading: int = if exponent(b) == 0 {
        0
    } else {
        0x80_0000
    };
    let size = leading + b as int % 0x80_0000;
    if b >= F32_SIGN {
        -size
    } else {
        size
    }
}

/// Two to a small power.
pub fn power(k: u32) -> (r: u64)
    requires
        k <= 32,
    ensures
        r == pow2(k as nat),
{
    let mut r: u64 = 1;
    let mut i: u32 = 0;
    proof {
        lemma2_to64();
    }
    while i < k
        invariant
            i <= k <= 32,
            r == pow2(i as nat),
        decreases k - i,
    {
        proof {
            lemma_pow2_unfold((i + 1) as nat);
            lemma2_to64();
            if i < 32 {
                lemma_pow2_strictly_increases(i as nat, 32);
            }
        }
        r = r * 2;
        i = i + 1;
    }
    r
}

/// A number that is still below a significand was doubled only a few
/// times.
proof fn lemma_few(v: int, j: nat)
    requires
        0 < v,
        v * pow2(j) < 0x80_0000,
    ensures
        j < 23,
{
    lemma2_to64();
    if j >= 23 {
        if j > 23 {
            lemma_pow2_strictly_increases(23, j);
        }
        let p = pow2(j) as int;
        assert(v * p >= 0x80_0000) by (nonlinear_arith)
            requires
                v >= 1,
                p >= 0x80_0000,
        ;
    }
}

/// The normal pattern of a sign, an exponent, and a significand.
pub fn assemble(negative: bool, e: u32, s: u32) -> (r: u32)
    requires
        0 < e < 255,
        NORMAL <= s < SIGNIFICANDS,
    ensures
        exponent(r) == e,
        significand(r) == if negative {
            -(s as int)
        } else {
            s as int
        },
        !negative ==> r == e * 0x80_0000 + (s - NORMAL),
{
    let body: u32 = e * 0x80_0000 + (s - NORMAL);
    if negative {
        F32_SIGN + body
    } else {
        body
    }
}

/// A number doubled until it is a normal significand, and the exponent
/// that is left of `top`.
pub fn doubled_up(v: u32, top: u32) -> (r: (u32, u32))
    requires
        0 < v < SIGNIFICANDS,
        23 <= top,
    ensures
        NORMAL <= r.0 < SIGNIFICANDS,
        top - 23 <= r.1 <= top,
        r.0 == v * pow2((top - r.1) as nat),
{
    let mut s: u32 = v;
    let mut e: u32 = top;
    proof {
        lemma2_to64();
        assert(v * 1 == v);
    }
    while s < NORMAL
        invariant
            0 < v <= s < SIGNIFICANDS,
            23 <= top,
            top - 23 <= e <= top,
            s == v * pow2((top - e) as nat),
        decreases SIGNIFICANDS - s,
    {
        proof {
            let j = (top - e) as nat;
            lemma_pow2_unfold(j + 1);
            let p = pow2(j) as int;
            assert(v * (2 * p) == 2 * (v * p)) by (nonlinear_arith);
            lemma_few(v as int, j);
        }
        s = s * 2;
        e = e - 1;
    }
    (s, e)
}

/// Whether a pattern stands for exactly `n` steps on a grid of two to the
/// power 24.
pub open spec fn is_fraction(b: u32, n: int) -> bool {
    if n == 0 {
        b == 0
    } else {
        &&& 0 < exponent(b) <= 126
        &&& significand(b) == n * pow2((126 - exponent(b)) as nat)
    }
}

/// The pattern that stands for `n` steps of the grid.
pub open spec fn fraction_of(n: int) -> u32 {
    choose|b: u32| is_fraction(b, n)
}

/// The pattern of `n / 2^24`.
pub fn fraction(n: u32) -> (r: u32)
    requires
        n < SIGNIFICANDS,
    ensures
        r == fraction_of(n as int),
        is_fraction(r, n as int),
        f32_ge_spec(r, 0),
        f32_lt_spec(r, F32_ONE),
{
    if n == 0 {
        assert(is_fraction(0, 0));
        return 0;
    }
    let (s, e) = doubled_up(n, 126);
    let r: u32 = assemble(false, e, s);
    proof {
        assert(is_fraction(r, n as int));
        lemma_fractions_are_unique(r, fraction_of(n as int), n as int);
    }
    r
}

/// Of two patterns that stand for one fraction, neither has the lower
/// exponent.
proof fn lemma_exponents_agree(a: u32, b: u32, n: int)
    requires
        n != 0,
        is_fraction(a, n),
        is_fraction(b, n),
    ensures
        exponent(a) >= exponent(b),
{
    if exponent(a) < exponent(b) {
        let e = (126 - exponent(b)) as nat;
        let j = (exponent(b) - exponent(a)) as nat;
        lemma_pow2_adds(e, j);
        lemma_pow2_unfold(j);
        lemma_pow2_pos((j - 1) as nat);
        let (s, t) = (significand(a), significand(b));
        let (p, d) = (pow2(e) as int, pow2(j) as int);
        assert(n * (p * d) == n * p * d) by (nonlinear_arith);
        if t > 0 {
            assert(t * d >= 0x100_0000) by (nonlinear_arith)
                requires
                    t >= 0x80_0000,
                    d >= 2,
            ;
        } else {
            assert(t * d <= -0x100_0000) by (nonlinear_arith)
                requires
                    t <= -0x80_0000,
                    d >= 2,
            ;
        }
    }
}

/// One pattern stands for a fraction.
pub proof fn lemma_fractions_are_unique(a: u32, b: u32, n: int)
    requires
        is_fraction(a, n),
        is_fraction(b, n),
    ensures
        a == b,
{
    if n != 0 {
        lemma_exponents_agree(a, b, n);
        lemma_exponents_agree(b, a, n);
        assert(significand(a) == significand(b));
        assert(a as int == exponent(a) * 0x80_0000 + a as int % 0x80_0000 + if a >= F32_SIGN {
            0x8000_0000int
        } else {
            0
        });
        assert(b as int == exponent(b) * 0x80_0000 + b as int % 0x80_0000 + if b >= F32_SIGN {
            0x8000_0000int
        } else {
            0
        });
    }
}

// ---------------------------------------------------------------------------
// One minus a fraction
// ---------------------------------------------------------------------------

/// `n / d` to the nearest whole number; of two equally near, the even one.
pub open spec fn nearest(n: int, d: int) -> int {
    if 2 * (n % d) < d || (2 * (n % d) == d && n / d % 2 == 0) {
        n / d
    } else {
        n / d + 1
    }
}

/// One minus a number of the unit interval, on the grid of two to the
/// power 24, rounded to the nearest: the grid holds every single from one
/// half to one, and below that the difference is exact.
pub open spec fn rest_units(x: u32) -> int {
    if scale(x) >= 126 {
        0x100_0000 - significand(x) * pow2((scale(x) - 126) as nat)
    } else {
        let d = pow2((126 - scale(x)) as nat) as int;
        nearest(0x100_0000 * d - significand(x), d)
    }
}

/// Whether a pattern stands for so many units of the grid, up to all.
pub open spec fn is_units(b: u32, n: int) -> bool {
    if n >= 0x100_0000 {
        b == F32_ONE
    } else {
        is_fraction(b, n)
    }
}

/// The single nearest to one minus a number of the unit interval.
pub open spec fn complement(x: u32) -> u32 {
    choose|b: u32| is_units(b, rest_units(x))
}

/// A number of the unit interval is the negative zero, or a pattern up to
/// that of one.
proof fn lemma_unit_bits(x: u32)
    requires
        f32_in_unit(x),
    ensures
        x <= F32_ONE || x == F32_SIGN,
        x == F32_SIGN ==> scale(x) == 1 && significand(x) == 0 && rest_units(x) == rest_units(0),
{
}

/// A pattern for every number of units.
proof fn lemma_units_exist(n: int, j: nat) -> (b: u32)
    requires
        0 < n,
        n * pow2(j) < 0x100_0000,
    ensures
        is_fraction(b, n),
    decreases 0x100_0000 - n * pow2(j),
{
    let p = pow2(j) as int;
    lemma2_to64();
    if j >= 24 {
        if j > 24 {
            lemma_pow2_strictly_increases(24, j);
        }
        assert(n * p >= 0x100_0000) by (nonlinear_arith)
            requires
                n >= 1,
                p >= 0x100_0000,
        ;
    }
    let s = n * p;
    if s >= 0x80_0000 {
        let b = ((126 - j) * 0x80_0000 + (s - 0x80_0000)) as u32;
        assert(exponent(b) == 126 - j);
        assert(significand(b) == s);
        b
    } else {
        lemma_pow2_unfold(j + 1);
        lemma_pow2_pos(j);
        assert(n * (2 * p) == 2 * s) by (nonlinear_arith)
            requires
                s == n * p,
        ;
        assert(s > 0) by (nonlinear_arith)
            requires
                s == n * p,
                n > 0,
                p > 0,
        ;
        lemma_units_exist(n, j + 1)
    }
}

/// The units of a complement lie between none and all.
proof fn lemma_rest_range(x: u32)
    requires
        x <= F32_ONE,
    ensures
        0 <= rest_units(x) <= 0x100_0000,
{
    lemma2_to64();
    if scale(x) >= 126 {
        assert(significand(x) * 1 == significand(x));
        if scale(x) > 126 {
            assert(x == F32_ONE);
            assert(significand(x) * 2 == 0x100_0000);
        }
    } else {
        let k = (126 - scale(x)) as nat;
        let d = pow2(k) as int;
        lemma_pow2_unfold(k);
        lemma_pow2_pos((k - 1) as nat);
        let s = significand(x);
        let n = 0x100_0000 * d - s;
        assert(0 <= n) by (nonlinear_arith)
            requires
                n == 0x100_0000 * d - s,
                s <= 0x100_0000,
                d >= 1,
        ;
        lemma_fundamental_div_mod(n, d);
        lemma_mod_bound(n, d);
        let q = n / d;
        assert(q >= 0 && q <= 0x100_0000 && (q == 0x100_0000 ==> n % d == 0)) by (nonlinear_arith)
            requires
                n == d * q + n % d,
                0 <= n % d < d,
                0 <= n <= 0x100_0000 * d,
                d >= 1,
        ;
    }
}

/// What `complement` names stands for the units.
proof fn lemma_complement(x: u32)
    requires
        x <= F32_ONE,
    ensures
        is_units(complement(x), rest_units(x)),
{
    lemma_rest_range(x);
    let n = rest_units(x);
    lemma2_to64();
    if n >= 0x100_0000 {
        assert(is_units(F32_ONE, n));
    } else if n == 0 {
        assert(is_units(0, n));
    } else {
        assert(n * 1 == n);
        let b = lemma_units_exist(n, 0);
        assert(is_units(b, n));
    }
}

/// The single nearest to one minus a number of the unit interval.
pub fn one_minus(x: u32) -> (r: u32)
    requires
        f32_in_unit(x),
    ensures
        r == complement(x),
        is_units(r, rest_units(x)),
{
    proof {
        lemma_unit_bits(x);
        lemma2_to64();
    }
    if x == 0 || x == F32_SIGN {
        proof {
            lemma_whole(0);
            lemma_complement_is(x, F32_ONE);
        }
        return F32_ONE;
    }
    if x == F32_ONE {
        proof {
            assert(significand(x) * 2 == 0x100_0000);
            lemma_complement_is(x, 0);
        }
        return 0;
    }
    let e: u32 = x / 0x80_0000;
    let frac: u32 = x % 0x80_0000;
    let (s, k): (u32, u32) = if e == 0 {
        (frac, 125)
    } else {
        (frac + NORMAL, 126 - e)
    };
    if k > 25 {
        proof {
            lemma_whole(x);
            lemma_complement_is(x, F32_ONE);
        }
        return F32_ONE;
    }
    let d: u64 = power(k);
    proof {
        lemma_pow2_pos(k as nat);
        if k < 25 {
            lemma_pow2_strictly_increases(k as nat, 25);
        }
        if k == 0 {
            assert(significand(x) * 1 == significand(x));
        }
        lemma_rest_range(x);
    }
    let n: u64 = 0x100_0000 * d - s as u64;
    let q: u64 = n / d;
    let rest: u64 = n % d;
    proof {
        lemma_mod_bound(n as int, d as int);
        if k == 0 {
            lemma_fundamental_div_mod_converse(n as int, 1, n as int, 0);
        }
    }
    let units: u64 = if 2 * rest < d || (2 * rest == d && q % 2 == 0) {
        q
    } else {
        q + 1
    };
    assert(units == rest_units(x));
    let r: u32 = if units >= 0x100_0000 {
        F32_ONE
    } else {
        fraction(units as u32)
    };
    proof {
        lemma_complement_is(x, r);
    }
    r
}

/// Zero, and numbers too small to move one, leave all units.
proof fn lemma_whole(x: u32)
    requires
        x <= F32_ONE,
        x == 0 || scale(x) < 101,
    ensures
        rest_units(x) == 0x100_0000,
{
    let k = (126 - scale(x)) as nat;
    let d = pow2(k) as int;
    let s = significand(x);
    lemma2_to64();
    if k > 26 {
        lemma_pow2_strictly_increases(26, k);
    }
    let n = 0x100_0000 * d - s;
    if s == 0 {
        lemma_fundamental_div_mod_converse(n, d, 0x100_0000, 0);
    } else {
        assert(n == 0xFF_FFFF * d + (d - s)) by (nonlinear_arith)
            requires
                n == 0x100_0000 * d - s,
        ;
        lemma_fundamental_div_mod_converse(n, d, 0xFF_FFFF, d - s);
    }
}

/// The pattern that stands for the units is the complement.
proof fn lemma_complement_is(x: u32, r: u32)
    requires
        is_units(r, rest_units(x)),
    ensures
        complement(x) == r,
{
    let c = complement(x);
    assert(is_units(c, rest_units(x)));
    if rest_units(x) < 0x100_0000 {
        lemma_fractions_are_unique(c, r, rest_units(x));
    }
}

/// Nearest numbers do not fall as the numerator grows.
proof fn lemma_nearest_step(n: int, d: int)
    requires
        0 <= n,
        0 < d,
    ensures
        nearest(n, d) <= nearest(n + 1, d),
{
    lemma_fundamental_div_mod(n, d);
    lemma_mod_bound(n, d);
    let (q, r) = (n / d, n % d);
    if r + 1 < d {
        assert(n + 1 == q * d + (r + 1)) by (nonlinear_arith)
            requires
                n == d * q + r,
        ;
        lemma_fundamental_div_mod_converse(n + 1, d, q, r + 1);
    } else {
        assert(n + 1 == (q + 1) * d + 0) by (nonlinear_arith)
            requires
                n == d * q + r,
                r + 1 == d,
        ;
        lemma_fundamental_div_mod_converse(n + 1, d, q + 1, 0);
    }
}

/// Doubling numerator and denominator changes nothing.
proof fn lemma_nearest_doubled(n: int, d: int)
    requires
        0 < d,
    ensures
        nearest(2 * n, 2 * d) == nearest(n, d),
{
    lemma_fundamental_div_mod(n, d);
    lemma_mod_bound(n, d);
    let (q, r) = (n / d, n % d);
    assert(2 * n == q * (2 * d) + 2 * r) by (nonlinear_arith)
        requires
            n == d * q + r,
    ;
    lemma_fundamental_div_mod_converse(2 * n, 2 * d, q, 2 * r);
}

/// One pattern further, no more units are left.
proof fn lemma_rest_step(b: u32)
    requires
        b < F32_ONE,
    ensures
        rest_units((b + 1) as u32) <= rest_units(b),
{
    let c = (b + 1) as u32;
    lemma2_to64();
    lemma_rest_range(b);
    assert(significand(b) * 1 == significand(b));
    assert(significand(c) * 1 == significand(c));
    if c == F32_ONE {
        assert(significand(c) * 2 == 0x100_0000);
    } else if scale(b) == scale(c) {
        assert(significand(c) == significand(b) + 1);
        if scale(b) < 126 {
            let k = (126 - scale(b)) as nat;
            let d = pow2(k) as int;
            lemma_pow2_unfold(k);
            lemma_pow2_pos((k - 1) as nat);
            assert(0x100_0000 * d >= 0x200_0000) by (nonlinear_arith)
                requires
                    d >= 2,
            ;
            lemma_nearest_step(0x100_0000 * d - significand(c), d);
        }
    } else {
        assert(scale(c) == scale(b) + 1 && significand(b) == 0xFF_FFFF && significand(c)
            == 0x80_0000);
        let k = (126 - scale(b)) as nat;
        lemma_pow2_unfold(k);
        let d = pow2((k - 1) as nat) as int;
        lemma_pow2_pos((k - 1) as nat);
        let n = 0x100_0000 * d - 0x80_0000;
        assert(n >= 0) by (nonlinear_arith)
            requires
                n == 0x100_0000 * d - 0x80_0000,
                d >= 1,
        ;
        lemma_nearest_doubled(n, d);
        lemma_nearest_step(2 * n, 2 * d);
        if scale(c) == 126 {
            assert(n % 1 == 0 && n / 1 == n);
        }
    }
}

/// Further patterns leave no more units.
proof fn lemma_rest_falls(a: u32, b: u32)
    requires
        a <= b <= F32_ONE,
    ensures
        rest_units(b) <= rest_units(a),
    decreases b - a,
{
    if a < b {
        lemma_rest_falls(a, (b - 1) as u32);
        lemma_rest_step((b - 1) as u32);
    }
}

/// More units are a larger pattern.
proof fn lemma_units_ascend(a: u32, n: int, b: u32, m: int)
    requires
        0 <= n <= m <= 0x100_0000,
        is_units(a, n),
        is_units(b, m),
    ensures
        a <= b < F32_SIGN,
        b <= F32_ONE,
{
    if n > 0 {
        lemma_fraction_bits(a, n);
    }
    if m > 0 {
        lemma_fraction_bits(b, m);
    }
    if 0 < n && m < 0x100_0000 {
        let (s, t) = (significand(a), significand(b));
        if exponent(a) == exponent(b) {
            let p = pow2((126 - exponent(a)) as nat) as int;
            assert(s <= t) by (nonlinear_arith)
                requires
                    s == n * p,
                    t == m * p,
                    n <= m,
                    p >= 0,
            ;
        } else if exponent(a) > exponent(b) {
            let e = (126 - exponent(a)) as nat;
            let j = (exponent(a) - exponent(b)) as nat;
            lemma_pow2_adds(e, j);
            lemma_pow2_unfold(j);
            lemma_pow2_pos((j - 1) as nat);
            lemma_pow2_pos(e);
            let (p, d) = (pow2(e) as int, pow2(j) as int);
            assert(t >= 2 * s) by (nonlinear_arith)
                requires
                    s == n * p,
                    t == m * (p * d),
                    0 < n <= m,
                    p > 0,
                    d >= 2,
            ;
        }
    }
}

/// The pattern of some units is positive and at most that of one.
proof fn lemma_fraction_bits(b: u32, n: int)
    requires
        0 < n <= 0x100_0000,
        is_units(b, n),
    ensures
        b < F32_SIGN,
        b <= F32_ONE,
        n < 0x100_0000 ==> significand(b) >= 0x80_0000,
{
    if n < 0x100_0000 {
        lemma_pow2_pos((126 - exponent(b)) as nat);
        let p = pow2((126 - exponent(b)) as nat) as int;
        assert(n * p > 0) by (nonlinear_arith)
            requires
                n > 0,
                p > 0,
        ;
    }
}

/// One minus a number falls as the number grows, from one at zero to zero
/// at one.
pub proof fn lemma_complement_falls(a: u32, b: u32)
    requires
        f32_in_unit(a),
        f32_in_unit(b),
        f32_ge_spec(b, a),
    ensures
        f32_ge_spec(complement(a), complement(b)),
        complement(0) == F32_ONE,
        complement(F32_ONE) == 0,
{
    lemma_unit_bits(a);
    lemma_unit_bits(b);
    let x: u32 = if a == F32_SIGN {
        0
    } else {
        a
    };
    let y: u32 = if b == F32_SIGN {
        0
    } else {
        b
    };
    lemma_rest_falls(x, y);
    lemma_rest_range(x);
    lemma_rest_range(y);
    lemma_complement(x);
    lemma_complement(y);
    lemma_complement_is(a, complement(x));
    lemma_complement_is(b, complement(y));
    lemma_units_ascend(complement(y), rest_units(y), complement(x), rest_units(x));
    lemma_whole(0);
    lemma_complement_is(0, F32_ONE);
    lemma2_to64();
    assert(significand(F32_ONE) * 2 == 0x100_0000);
    lemma_complement_is(F32_ONE, 0);
}

} // verus!

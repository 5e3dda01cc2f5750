//! Positions and tiles: the tile that holds a position, and the center
//! of a tile.
use vstd::prelude::*;
use crate::bits::F32_SIGN;
use crate::character::Vec3;
use crate::map::Tile;
use crate::singles::{assemble, doubled_up, power, NORMAL, SIGNIFICANDS};

verus! {

use crate::bits::{f32_is_finite, f32_is_nan};
use crate::singles::{exponent, nearest, scale, significand};
use vstd::arithmetic::div_mod::{
    lemma_div_denominator,
    lemma_fundamental_div_mod,
    lemma_mod_bound,
};
use vstd::arithmetic::power2::{
    lemma2_to64,
    lemma_pow2_adds,
    lemma_pow2_pos,
    lemma_pow2_strictly_increases,
    lemma_pow2_unfold,
    pow2,
};

// ---------------------------------------------------------------------------
// What a coordinate stands for
// ---------------------------------------------------------------------------

/// The greatest whole number that is not above a finite pattern's number,
/// which is the significand times two to the power `scale - 150`.
pub open spec fn floor_of(b: u32) -> int {
    if scale(b) >= 150 {
        significand(b) * pow2((scale(b) - 150) as nat)
    } else {
        significand(b) / pow2((150 - scale(b)) as nat) as int
    }
}

/// Whether a normal pattern stands for exactly half of `h`.
pub open spec fn is_half(b: u32, h: int) -> bool {
    &&& 0 < exponent(b) < 255
    &&& if scale(b) >= 149 {
        significand(b) * pow2((scale(b) - 149) as nat) == h
    } else {
        significand(b) == h * pow2((149 - scale(b)) as nat)
    }
}

// ---------------------------------------------------------------------------
// The tile of a position
// ---------------------------------------------------------------------------

/// The tile coordinate of a position's coordinate: the floor, held to the
/// range of a coordinate. What is no number falls to zero.
pub open spec fn tile_index(b: u32) -> int {
    if f32_is_nan(b) {
        0
    } else if !f32_is_finite(b) {
        if b >= F32_SIGN {
            i32::MIN as int
        } else {
            i32::MAX as int
        }
    } else if floor_of(b) < i32::MIN {
        i32::MIN as int
    } else if floor_of(b) > i32::MAX {
        i32::MAX as int
    } else {
        floor_of(b)
    }
}

/// Far-off patterns floor beyond every tile coordinate.
proof fn lemma_far(b: u32)
    requires
        scale(b) >= 158,
    ensures
        b >= F32_SIGN ==> floor_of(b) <= i32::MIN,
        b < F32_SIGN ==> floor_of(b) > i32::MAX,
{
    let p = pow2((scale(b) - 150) as nat) as int;
    lemma2_to64();
    if scale(b) > 158 {
        lemma_pow2_strictly_increases(8, (scale(b) - 150) as nat);
    }
    let s = significand(b);
    if b >= F32_SIGN {
        assert(s * p <= -0x80_0000 * 256) by (nonlinear_arith)
            requires
                s <= -0x80_0000,
                p >= 256,
        ;
    } else {
        assert(s * p >= 0x80_0000 * 256) by (nonlinear_arith)
            requires
                s >= 0x80_0000,
                p >= 256,
        ;
    }
}

/// Patterns that stand for less than one floor to zero or one below it.
proof fn lemma_near(b: u32)
    requires
        scale(b) <= 126,
    ensures
        floor_of(b) == if significand(b) < 0 {
            -1int
        } else {
            0
        },
{
    let p = pow2((150 - scale(b)) as nat) as int;
    lemma2_to64();
    if scale(b) < 126 {
        lemma_pow2_strictly_increases(24, (150 - scale(b)) as nat);
    }
    let s = significand(b);
    assert(p >= 0x100_0000);
    assert(-0x100_0000 < s < 0x100_0000);
    if s < 0 {
        assert(s / p == -1) by (nonlinear_arith)
            requires
                -p < s < 0,
        ;
    } else {
        assert(s / p == 0) by (nonlinear_arith)
            requires
                0 <= s < p,
        ;
    }
}

/// The floor of a coordinate.
fn floored(b: u32) -> (r: i32)
    ensures
        r == tile_index(b),
{
    let e: u32 = b / 0x80_0000 % 256;
    let frac: u32 = b % 0x80_0000;
    let negative: bool = b >= F32_SIGN;
    if e == 255 && frac != 0 {
        return 0;
    }
    if e >= 158 {
        proof {
            lemma_far(b);
        }
        return if negative {
            i32::MIN
        } else {
            i32::MAX
        };
    }
    let size: u32 = if e == 0 {
        frac
    } else {
        frac + NORMAL
    };
    if e >= 150 {
        let p: u64 = power(e - 150);
        proof {
            lemma2_to64();
            if e < 157 {
                lemma_pow2_strictly_increases((e - 150) as nat, 7);
            }
            assert(size * p <= 0xFF_FFFF * 128) by (nonlinear_arith)
                requires
                    size <= 0xFF_FFFF,
                    p <= 128,
            ;
            assert((-size) * p == -(size * p)) by (nonlinear_arith);
        }
        let v: u64 = size as u64 * p;
        return if negative {
            -(v as i32)
        } else {
            v as i32
        };
    }
    if e <= 126 {
        proof {
            lemma_near(b);
        }
        return if negative && size > 0 {
            -1
        } else {
            0
        };
    }
    let p: u64 = power(150 - e);
    proof {
        lemma_pow2_pos((150 - e) as nat);
    }
    let q: u64 = size as u64 / p;
    proof {
        assert(q <= size) by (nonlinear_arith)
            requires
                q == size as u64 / p,
                p > 0,
        ;
    }
    if !negative {
        return q as i32;
    }
    let whole: bool = size as u64 % p == 0;
    proof {
        let n = size as int;
        let d = p as int;
        lemma_fundamental_div_mod(n, d);
        lemma_mod_bound(n, d);
        let m = n % d;
        assert((-n) / d == if m == 0 {
            -(n / d)
        } else {
            -(n / d) - 1
        }) by (nonlinear_arith)
            requires
                n == d * (n / d) + m,
                0 <= m < d,
        ;
    }
    if whole {
        -(q as i32)
    } else {
        -(q as i32) - 1
    }
}

/// The tile that holds a position.
pub open spec fn tile_at(pos: Vec3) -> Tile {
    Tile { x: tile_index(pos.x) as i32, z: tile_index(pos.z) as i32 }
}

/// The tile that holds a position. Coordinates are floored, never cut
/// toward zero: just below zero lies tile minus one.
pub fn tile_of(pos: Vec3) -> (r: Tile)
    ensures
        r == tile_at(pos),
        r.x == tile_index(pos.x),
        r.z == tile_index(pos.z),
{
    Tile { x: floored(pos.x), z: floored(pos.z) }
}

// ---------------------------------------------------------------------------
// The center of a tile
// ---------------------------------------------------------------------------

/// How many times a size must be halved to fit into a significand.
pub open spec fn excess(n: nat) -> nat
    decreases n,
{
    if n < SIGNIFICANDS {
        0
    } else {
        1 + excess(n / 2)
    }
}

/// The single-precision number nearest to a whole number.
pub open spec fn single(n: int) -> int {
    let size: nat = if n < 0 {
        (-n) as nat
    } else {
        n as nat
    };
    let d = pow2(excess(size)) as int;
    let near = nearest(size as int, d) * d;
    if n < 0 {
        -near
    } else {
        near
    }
}

/// A size halved as often as its excess says is a significand, and a
/// large one a normal significand.
proof fn lemma_excess(n: nat)
    ensures
        n as int / pow2(excess(n)) as int <= 0xFF_FFFF,
        excess(n) > 0 ==> n as int / pow2(excess(n)) as int >= 0x80_0000,
    decreases n,
{
    lemma2_to64();
    if n >= SIGNIFICANDS {
        let half = n / 2;
        lemma_excess(half);
        let e = excess(half);
        lemma_pow2_unfold(e + 1);
        lemma_pow2_pos(e);
        lemma_div_denominator(n as int, 2, pow2(e) as int);
    }
}

/// A size that is split into a significand and how often it was halved.
fn split(n: u64) -> (r: (u32, u32))
    requires
        n <= 0x2_0000_0000,
    ensures
        r.1 == excess(n as nat),
        r.1 <= 10,
        r.0 == nearest(n as int, pow2(r.1 as nat) as int),
        r.0 <= SIGNIFICANDS,
        r.1 > 0 ==> r.0 >= NORMAL,
{
    let mut cur: u64 = n;
    let mut k: u32 = 0;
    proof {
        lemma2_to64();
    }
    while cur >= SIGNIFICANDS as u64
        invariant
            k + excess(cur as nat) == excess(n as nat),
            cur * pow2(k as nat) <= n <= 0x2_0000_0000,
            k <= 10,
        decreases cur,
    {
        proof {
            let c = cur as int;
            let p = pow2(k as nat) as int;
            lemma2_to64();
            lemma_pow2_unfold((k + 1) as nat);
            assert(p <= 512) by (nonlinear_arith)
                requires
                    c * p <= 0x2_0000_0000,
                    c >= 0x100_0000,
            ;
            if k >= 10 {
                assert(false);
            }
            assert((c / 2) * (2 * p) <= c * p) by (nonlinear_arith)
                requires
                    p >= 0,
                    c >= 0,
            ;
        }
        cur = cur / 2;
        k = k + 1;
    }
    let d: u64 = power(k);
    proof {
        lemma_pow2_pos(k as nat);
        lemma_excess(n as nat);
        lemma2_to64();
        if k < 10 {
            lemma_pow2_strictly_increases(k as nat, 10);
        }
    }
    let q: u64 = n / d;
    let rest: u64 = n % d;
    proof {
        lemma_mod_bound(n as int, d as int);
    }
    if 2 * rest < d || (2 * rest == d && q % 2 == 0) {
        (q as u32, k)
    } else {
        (q as u32 + 1, k)
    }
}

/// The nearest single of a coordinate.
fn rounded(n: i32) -> (r: i64)
    ensures
        r == single(n as int),
        -0x8000_0000 <= r <= 0x8000_0000,
{
    let size: u64 = if n < 0 {
        (-(n as i64)) as u64
    } else {
        n as u64
    };
    let (q, k) = split(size);
    let d: u64 = power(k);
    proof {
        lemma2_to64();
        if k < 10 {
            lemma_pow2_strictly_increases(k as nat, 10);
        }
        lemma_within(size as int, q as int, k as nat);
        lemma_pow2_pos(k as nat);
        assert(0 <= q * d) by (nonlinear_arith)
            requires
                0 <= q,
                0 <= d,
        ;
    }
    let near: i64 = (q as u64 * d) as i64;
    if n < 0 {
        -near
    } else {
        near
    }
}

/// A size up to two to the power 31 stays within it when it is rounded.
proof fn lemma_within(n: int, q: int, k: nat)
    requires
        0 <= n <= 0x8000_0000,
        k == excess(n as nat),
        k <= 10,
        q == nearest(n, pow2(k) as int),
    ensures
        q * pow2(k) <= 0x8000_0000,
{
    let d = pow2(k) as int;
    lemma_excess(n as nat);
    lemma_pow2_pos(k);
    lemma_fundamental_div_mod(n, d);
    lemma_mod_bound(n, d);
    lemma2_to64();
    if k <= 7 {
        if k < 7 {
            lemma_pow2_strictly_increases(k, 7);
        }
        assert(q * d <= 0x100_0000 * 128) by (nonlinear_arith)
            requires
                q <= 0x100_0000,
                0 < d <= 128,
                q >= 0,
        ;
    } else {
        if k > 8 {
            lemma_pow2_strictly_increases(8, k);
        }
        let f = n / d;
        assert(f * d >= 0x80_0000 * 256 && (d > 256 ==> f * d > 0x80_0000 * 256)) by (nonlinear_arith)
            requires
                f >= 0x80_0000,
                d >= 256,
        ;
        assert(d * f == f * d) by (nonlinear_arith);
        assert(n % d == 0);
        assert(q == f);
    }
}

/// The pattern of half a nonzero number.
fn halved(h: i64) -> (r: u32)
    requires
        -0x2_0000_0000 <= h <= 0x2_0000_0000,
        h != 0,
    ensures
        is_half(r, single(h as int)),
{
    let negative: bool = h < 0;
    let size: u64 = if negative {
        (-h) as u64
    } else {
        h as u64
    };
    let (q, k) = split(size);
    let ghost p = pow2(k as nat) as int;
    proof {
        lemma2_to64();
        lemma_pow2_unfold((k + 1) as nat);
        assert((-q) * p == -(q * p)) by (nonlinear_arith);
        assert(single(h as int) == if negative {
            -(q * p)
        } else {
            q * p
        });
    }
    if q == SIGNIFICANDS {
        proof {
            assert(0x80_0000 * (2 * p) == 0x100_0000 * p) by (nonlinear_arith);
            assert((-0x80_0000) * (2 * p) == -(0x100_0000 * p)) by (nonlinear_arith);
        }
        return assemble(negative, 150 + k, NORMAL);
    }
    if q >= NORMAL {
        return assemble(negative, 149 + k, q);
    }
    proof {
        assert(k == 0 && p == 1);
        assert(nearest(size as int, 1) == size);
        assert(q * 1 == q);
    }
    let (s, e) = doubled_up(q, 149);
    proof {
        let d = pow2((149 - e) as nat) as int;
        assert((-q) * d == -(q * d)) by (nonlinear_arith);
        if e == 149 {
            assert(q * 1 == q && (-q) * 1 == -q);
        }
    }
    assemble(negative, e, s)
}

/// The position at the middle of a tile, on the ground: each coordinate
/// is the nearest single of the tile's, plus one half, rounded to the
/// nearest single again.
pub open spec fn centered(tile: Tile, r: Vec3) -> bool {
    &&& is_half(r.x, single(2 * single(tile.x as int) + 1))
    &&& r.y == 0
    &&& is_half(r.z, single(2 * single(tile.z as int) + 1))
}

/// The position at the middle of a tile.
pub fn tile_center(tile: Tile) -> (r: Vec3)
    ensures
        centered(tile, r),
{
    Vec3 { x: halved(2 * rounded(tile.x) + 1), y: 0, z: halved(2 * rounded(tile.z) + 1) }
}

// ---------------------------------------------------------------------------
// Laws
// ---------------------------------------------------------------------------

/// Halving an odd number and flooring gives the whole part back.
proof fn lemma_half_floors(b: u32, x: int)
    requires
        is_half(b, 2 * x + 1),
    ensures
        floor_of(b) == x,
{
    let s = significand(b);
    let h = 2 * x + 1;
    lemma2_to64();
    if scale(b) >= 149 {
        let j = (scale(b) - 149) as nat;
        if j > 0 {
            lemma_pow2_unfold(j);
            let p = pow2((j - 1) as nat) as int;
            assert(s * (2 * p) == 2 * (s * p)) by (nonlinear_arith);
            assert(false);
        }
        assert(s * 1 == s);
        assert(s / 2 == x);
    } else {
        let j = (149 - scale(b)) as nat;
        lemma_pow2_unfold(j + 1);
        lemma_pow2_pos(j);
        let p = pow2(j) as int;
        assert((h * p) / (2 * p) == x) by (nonlinear_arith)
            requires
                h == 2 * x + 1,
                p > 0,
        ;
    }
}

/// Small whole numbers are singles themselves.
proof fn lemma_small_is_single(n: int)
    requires
        -0x100_0000 < n < 0x100_0000,
    ensures
        single(n) == n,
{
    lemma2_to64();
    let size: nat = if n < 0 {
        (-n) as nat
    } else {
        n as nat
    };
    assert(excess(size) == 0);
    assert(nearest(size as int, 1) == size);
}

/// The middle of a tile lies in the tile, for every tile whose middle a
/// single can name.
pub proof fn lemma_centers_round_trip(tile: Tile, r: Vec3)
    requires
        centered(tile, r),
        -0x80_0000 <= tile.x < 0x80_0000,
        -0x80_0000 <= tile.z < 0x80_0000,
    ensures
        tile_at(r) == tile,
{
    lemma_small_is_single(tile.x as int);
    lemma_small_is_single(2 * tile.x + 1);
    lemma_half_floors(r.x, tile.x as int);
    lemma_small_is_single(tile.z as int);
    lemma_small_is_single(2 * tile.z + 1);
    lemma_half_floors(r.z, tile.z as int);
}

/// A position lies in its tile: the tile's coordinate is the greatest
/// whole number not above the position's, unless that is no coordinate.
pub proof fn lemma_tile_holds_position(b: u32)
    requires
        f32_is_finite(b),
        i32::MIN <= floor_of(b) <= i32::MAX,
    ensures
        scale(b) >= 150 ==> tile_index(b) == significand(b) * pow2((scale(b) - 150) as nat),
        scale(b) < 150 ==> tile_index(b) * pow2((150 - scale(b)) as nat) <= significand(b) < (
        tile_index(b) + 1) * pow2((150 - scale(b)) as nat),
{
    if scale(b) < 150 {
        let p = pow2((150 - scale(b)) as nat) as int;
        let s = significand(b);
        lemma_pow2_pos((150 - scale(b)) as nat);
        lemma_fundamental_div_mod(s, p);
        lemma_mod_bound(s, p);
        let q = s / p;
        assert(q * p == p * q && (q + 1) * p == p * q + p) by (nonlinear_arith);
    }
}

/// Positions too far off for a tile lie on the outermost one of their
/// side, the infinite ones too, and what is no number lies on tile zero.
pub proof fn lemma_far_positions_lie_on_the_last_tile(b: u32)
    ensures
        0x4F00_0000 <= b <= 0x7F80_0000 ==> tile_index(b) == 0x7FFF_FFFF,
        0xCF00_0000 <= b <= 0xFF80_0000 ==> tile_index(b) == -0x8000_0000,
        0x7F80_0000 < b < 0x8000_0000 || b > 0xFF80_0000 ==> tile_index(b) == 0,
{
    if 0x4F00_0000 <= b < 0x7F80_0000 || 0xCF00_0000 <= b < 0xFF80_0000 {
        lemma_far(b);
    }
}

/// One normal pattern stands for a number: two that stand for the same
/// are equal.
pub proof fn lemma_halves_are_unique(a: u32, b: u32, h: int)
    requires
        is_half(a, h),
        is_half(b, h),
    ensures
        a == b,
{
    lemma_scales_agree(a, b, h);
    lemma_scales_agree(b, a, h);
    let p = pow2((if scale(a) >= 149 {
        scale(a) - 149
    } else {
        149 - scale(a)
    }) as nat) as int;
    lemma_pow2_pos((if scale(a) >= 149 {
        scale(a) - 149
    } else {
        149 - scale(a)
    }) as nat);
    let (s, t) = (significand(a), significand(b));
    if scale(a) >= 149 {
        assert(s == t) by (nonlinear_arith)
            requires
                s * p == t * p,
                p > 0,
        ;
    }
    assert(a as int == exponent(a) * 0x80_0000 + a as int % 0x80_0000 + if a >= F32_SIGN {
        0x8000_0000int
    } else {
        0
    });
    assert(b as int == exponent(b) * 0x80_0000 + b as int % 0x80_0000 + if b >= F32_SIGN {
        0x8000_0000int
    } else {
        0
    });
}

/// Of two normal patterns that stand for one number, neither has the
/// lower exponent.
proof fn lemma_scales_agree(a: u32, b: u32, h: int)
    requires
        is_half(a, h),
        is_half(b, h),
    ensures
        exponent(a) >= exponent(b),
{
    if exponent(a) < exponent(b) {
        let (s, t) = (significand(a), significand(b));
        let j = (exponent(b) - exponent(a)) as nat;
        lemma_pow2_unfold(j);
        lemma_pow2_pos((j - 1) as nat);
        let d = pow2(j) as int;
        assert(d >= 2);
        // The size of `a` is the size of `b` times two to the power `j`.
        assert(s == t * d) by {
            if scale(a) >= 149 {
                let e = (scale(a) - 149) as nat;
                lemma_pow2_adds(j, e);
                lemma_pow2_pos(e);
                let p = pow2(e) as int;
                assert(s == t * d) by (nonlinear_arith)
                    requires
                        s * p == t * (d * p),
                        p > 0,
                ;
            } else if scale(b) >= 149 {
                let e = (scale(b) - 149) as nat;
                let f = (149 - scale(a)) as nat;
                lemma_pow2_adds(e, f);
                let (p, q) = (pow2(e) as int, pow2(f) as int);
                assert(t * p * q == t * (p * q)) by (nonlinear_arith);
            } else {
                let e = (149 - scale(b)) as nat;
                lemma_pow2_adds(e, j);
                let p = pow2(e) as int;
                assert(h * (p * d) == h * p * d) by (nonlinear_arith);
            }
        }
        if t > 0 {
            assert(t * d >= 0x100_0000) by (nonlinear_arith)
                requires
                    t >= 0x80_0000,
                    d >= 2,
            ;
        } else {
            assert(t * d <= -0x100_0000) by (nonlinear_arith)
                requires
                    t <= -0x80_0000,
                    d >= 2,
            ;
        }
    }
}

} // verus!

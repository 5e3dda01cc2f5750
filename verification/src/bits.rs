//! IEEE 754 values carried as their bit patterns. Scalars that the
//! simulation measures in floating point enter the library as raw bits;
//! the order, finiteness and range tests that its decisions rest on are
//! integer facts about those bits.
use vstd::prelude::*;

verus! {

/// The bits of 0.0 in single precision.
pub const F32_ZERO: u32 = 0;

/// The bits of 1.0 in single precision.
pub const F32_ONE: u32 = 0x3F80_0000;

/// The bits of the single-precision infinity.
pub const F32_INFINITY: u32 = 0x7F80_0000;

/// The sign bit of a single-precision pattern.
pub const F32_SIGN: u32 = 0x8000_0000;

/// The sign bit of a double-precision pattern.
pub const F64_SIGN: u64 = 0x8000_0000_0000_0000;

/// The pattern without its sign.
pub open spec fn f32_magnitude(b: u32) -> int {
    b as int % 0x8000_0000
}

/// Not a number.
pub open spec fn f32_is_nan(b: u32) -> bool {
    f32_magnitude(b) > F32_INFINITY
}

/// Neither infinite nor NaN.
pub open spec fn f32_is_finite(b: u32) -> bool {
    f32_magnitude(b) < F32_INFINITY
}

/// Position on the number line: patterns that are numbers compare as
/// their keys do, and the two zeros share a key.
pub open spec fn f32_key(b: u32) -> int {
    if b < F32_SIGN {
        b as int
    } else {
        -f32_magnitude(b)
    }
}

/// `a >= b` as floating point answers it: false when either is NaN.
pub open spec fn f32_ge_spec(a: u32, b: u32) -> bool {
    !f32_is_nan(a) && !f32_is_nan(b) && f32_key(a) >= f32_key(b)
}

/// `a < b` as floating point answers it: false when either is NaN.
pub open spec fn f32_lt_spec(a: u32, b: u32) -> bool {
    !f32_is_nan(a) && !f32_is_nan(b) && f32_key(a) < f32_key(b)
}

/// Inside the closed unit interval.
pub open spec fn f32_in_unit(b: u32) -> bool {
    f32_ge_spec(b, F32_ZERO) && f32_ge_spec(F32_ONE, b)
}

/// Whether a pattern is neither infinite nor NaN.
pub fn f32_finite(b: u32) -> (r: bool)
    ensures
        r == f32_is_finite(b),
{
    b % 0x8000_0000 < F32_INFINITY
}

/// `a >= b` on the numbers the patterns stand for.
pub fn f32_ge(a: u32, b: u32) -> (r: bool)
    ensures
        r == f32_ge_spec(a, b),
{
    let ma: u32 = a % 0x8000_0000;
    let mb: u32 = b % 0x8000_0000;
    if ma > F32_INFINITY || mb > F32_INFINITY {
        return false;
    }
    if a < F32_SIGN {
        if b < F32_SIGN {
            ma >= mb
        } else {
            true
        }
    } else if b < F32_SIGN {
        ma == 0 && mb == 0
    } else {
        mb >= ma
    }
}

/// `a < b` on the numbers the patterns stand for.
pub fn f32_lt(a: u32, b: u32) -> (r: bool)
    ensures
        r == f32_lt_spec(a, b),
{
    a % 0x8000_0000 <= F32_INFINITY && b % 0x8000_0000 <= F32_INFINITY && !f32_ge(a, b)
}

/// The pattern with its sign cleared.
pub fn f32_abs(b: u32) -> (r: u32)
    ensures
        r == f32_magnitude(b),
{
    b % 0x8000_0000
}

/// The pattern with its sign set.
pub fn f32_neg_abs(b: u32) -> (r: u32)
    ensures
        r == F32_SIGN + f32_magnitude(b),
{
    F32_SIGN + b % 0x8000_0000
}

/// Whether a pattern lies in the closed unit interval.
pub fn f32_unit(b: u32) -> (r: bool)
    ensures
        r == f32_in_unit(b),
{
    f32_ge(b, F32_ZERO) && f32_ge(F32_ONE, b)
}

/// Among numbers, `>=` is a total order up to the two zeros.
pub proof fn lemma_f32_order(a: u32, b: u32, c: u32)
    requires
        !f32_is_nan(a),
        !f32_is_nan(b),
        !f32_is_nan(c),
    ensures
        f32_ge_spec(a, a),
        f32_ge_spec(a, b) || f32_ge_spec(b, a),
        f32_ge_spec(a, b) && f32_ge_spec(b, c) ==> f32_ge_spec(a, c),
        f32_ge_spec(a, b) && f32_ge_spec(b, a) ==> f32_key(a) == f32_key(b),
{
}

} // verus!

//! Classification and ordering of IEEE 754 binary64 bit patterns.
//!
//! A pattern has a sign in bit 63, an exponent in bits 62..52 and a
//! fraction in bits 51..0. With the sign cleared, patterns of numbers are
//! ordered as unsigned integers exactly as their absolute values are, and
//! every pattern above that of infinity is a NaN.

use vstd::prelude::*;

verus! {

/// The pattern with only the sign bit set (negative zero).
pub const SIGN_BIT: u64 = 0x8000_0000_0000_0000;

/// The pattern of positive infinity.
pub const INFINITY: u64 = 0x7FF0_0000_0000_0000;

/// The pattern of positive zero.
pub const ZERO: u64 = 0;

/// The pattern of one half.
pub const HALF: u64 = 0x3FE0_0000_0000_0000;

/// The pattern of `x` with its sign cleared.
pub open spec fn spec_magnitude(x: u64) -> u64 {
    if x >= SIGN_BIT {
        (x - SIGN_BIT) as u64
    } else {
        x
    }
}

/// `x` is not a number.
pub open spec fn spec_is_nan(x: u64) -> bool {
    spec_magnitude(x) > INFINITY
}

/// `x` is a number other than the two infinities.
pub open spec fn spec_is_finite(x: u64) -> bool {
    spec_magnitude(x) < INFINITY
}

/// `x` is a positive real: a number above zero other than infinity.
pub open spec fn spec_is_positive(x: u64) -> bool {
    0 < x < INFINITY
}

/// The rank of `x` among all numbers: `a` is below `b` exactly when the
/// rank of `a` is below that of `b`, and the two zeros share rank 0. A NaN
/// has a rank too, beyond that of the infinity of its sign, so that every
/// pattern can be sorted; it says nothing of a NaN as a number.
pub open spec fn spec_order_key(x: u64) -> i64 {
    if x >= SIGN_BIT {
        (-(x - SIGN_BIT)) as i64
    } else {
        x as i64
    }
}

/// Clears the sign of `x`.
#[verifier::when_used_as_spec(spec_magnitude)]
pub fn magnitude(x: u64) -> (m: u64)
    ensures
        m == spec_magnitude(x),
{
    if x >= SIGN_BIT {
        x - SIGN_BIT
    } else {
        x
    }
}

/// Tells whether `x` is not a number.
#[verifier::when_used_as_spec(spec_is_nan)]
pub fn is_nan(x: u64) -> (r: bool)
    ensures
        r == spec_is_nan(x),
{
    magnitude(x) > INFINITY
}

/// Tells whether `x` is a number other than an infinity.
#[verifier::when_used_as_spec(spec_is_finite)]
pub fn is_finite(x: u64) -> (r: bool)
    ensures
        r == spec_is_finite(x),
{
    magnitude(x) < INFINITY
}

/// Tells whether `x` is a positive real.
#[verifier::when_used_as_spec(spec_is_positive)]
pub fn is_positive(x: u64) -> (r: bool)
    ensures
        r == spec_is_positive(x),
{
    0 < x && x < INFINITY
}

/// Computes the rank of `x`.
#[verifier::when_used_as_spec(spec_order_key)]
pub fn order_key(x: u64) -> (k: i64)
    ensures
        k == spec_order_key(x),
{
    if x >= SIGN_BIT {
        let m: u64 = x - SIGN_BIT;
        -(m as i64)
    } else {
        x as i64
    }
}

/// The arithmetic definitions above read the fields of the format: the
/// magnitude is the pattern without bit 63, and a NaN is a pattern whose
/// exponent field is all ones and whose fraction is not zero.
pub proof fn lemma_classes_by_fields(x: u64)
    ensures
        magnitude(x) == x & 0x7FFF_FFFF_FFFF_FFFF,
        is_nan(x) <==> ((x >> 52) & 0x7FF == 0x7FF && x & 0x000F_FFFF_FFFF_FFFF != 0),
        is_finite(x) <==> (x >> 52) & 0x7FF != 0x7FF,
{
    assert(x >= 0x8000_0000_0000_0000u64 ==> (x - 0x8000_0000_0000_0000u64) as u64 == x
        & 0x7FFF_FFFF_FFFF_FFFF) by (bit_vector);
    assert(x < 0x8000_0000_0000_0000u64 ==> x == x & 0x7FFF_FFFF_FFFF_FFFF) by (bit_vector);
    let m: u64 = x & 0x7FFF_FFFF_FFFF_FFFF;
    assert(m == x & 0x7FFF_FFFF_FFFF_FFFF ==> (m > 0x7FF0_0000_0000_0000u64 <==> ((x >> 52) & 0x7FF
        == 0x7FF && x & 0x000F_FFFF_FFFF_FFFF != 0))) by (bit_vector);
    assert(m == x & 0x7FFF_FFFF_FFFF_FFFF ==> (m < 0x7FF0_0000_0000_0000u64 <==> (x >> 52) & 0x7FF
        != 0x7FF)) by (bit_vector);
}

/// Two numbers have the same rank exactly when they are the same pattern
/// or are the two zeros.
pub proof fn lemma_equal_keys(a: u64, b: u64)
    ensures
        order_key(a) == order_key(b) <==> (a == b || (magnitude(a) == 0 && magnitude(b) == 0)),
{
}

/// The positive reals are the finite numbers that rank above zero.
pub proof fn lemma_positive_ranks_above_zero(x: u64)
    ensures
        is_positive(x) <==> (order_key(x) > 0 && is_finite(x)),
{
}

} // verus!

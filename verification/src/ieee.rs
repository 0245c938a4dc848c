//! The numeric model of the library.
//!
//! Every real number handled by the graphing engine is carried as the bit
//! pattern of an IEEE-754 binary64 value, stored in a `u64`.  All decisions
//! the engine makes about such values — sign tests against zero, ordering,
//! equality under the six comparison operators — are decidable from the bits
//! alone, and the functions here decide them with plain integer logic.  The
//! spec functions in this module are the ground truth the rest of the crate
//! is proved against: `lt_bits`, for example, *defines* what "less than"
//! means for two encoded values (sign-magnitude order, the two zeros
//! identified, and no order involving a NaN).
//!
//! Arithmetic on encoded values (addition, multiplication, the analytic
//! functions) is not decided here; callers that need it perform it outside
//! the verified core and hand the resulting bit patterns back in.

use vstd::prelude::*;

verus! {

/// Mask of the sign bit of a binary64 value.
pub const SIGN_MASK: u64 = 0x8000_0000_0000_0000;

/// Mask of the eleven exponent bits.
pub const EXP_MASK: u64 = 0x7FF0_0000_0000_0000;

/// Mask of the 52 mantissa bits.
pub const MANT_MASK: u64 = 0x000F_FFFF_FFFF_FFFF;

/// Bits of `0.0`.
pub const ZERO_BITS: u64 = 0x0;

/// Bits of `1.0`.
pub const ONE_BITS: u64 = 0x3FF0_0000_0000_0000;

/// Bits of `-1.0`.
pub const NEG_ONE_BITS: u64 = 0xBFF0_0000_0000_0000;

/// Bits of `2.0`.
pub const TWO_BITS: u64 = 0x4000_0000_0000_0000;

/// Bits of `-2.0`.
pub const NEG_TWO_BITS: u64 = 0xC000_0000_0000_0000;

/// Bits of `0.5`.
pub const HALF_BITS: u64 = 0x3FE0_0000_0000_0000;

/// Bits of the closest binary64 value to the circle constant.
pub const PI_BITS: u64 = 0x4009_21FB_5444_2D18;

/// Bits of the closest binary64 value to the base of the natural logarithm.
pub const E_BITS: u64 = 0x4005_BF0A_8B14_5769;

/// Bits of positive infinity.
pub const INF_BITS: u64 = 0x7FF0_0000_0000_0000;

/// The encoded value is a NaN: exponent all ones, mantissa non-zero.
pub open spec fn is_nan_bits(b: u64) -> bool {
    b & EXP_MASK == EXP_MASK && b & MANT_MASK != 0
}

/// The encoded value is one of the two zeros.
pub open spec fn is_zero_bits(b: u64) -> bool {
    b & 0x7FFF_FFFF_FFFF_FFFF == 0
}

/// The encoded value is finite: neither an infinity nor a NaN.
pub open spec fn is_finite_bits(b: u64) -> bool {
    b & EXP_MASK != EXP_MASK
}

/// The two zeros collapsed to `0.0`; any other value kept as it is.
pub open spec fn canon_bits(b: u64) -> u64 {
    if is_zero_bits(b) {
        ZERO_BITS
    } else {
        b
    }
}

/// Monotone key of a non-NaN value: sign-magnitude bits mapped so that the
/// IEEE order agrees with the unsigned integer order of the keys.
pub open spec fn order_key(b: u64) -> u64 {
    if b & SIGN_MASK != 0 {
        !b
    } else {
        b | SIGN_MASK
    }
}

/// The encoded value is strictly less than zero.  A NaN and both zeros are
/// not negative.
pub open spec fn is_neg_bits(b: u64) -> bool {
    b & SIGN_MASK != 0 && !is_zero_bits(b) && !is_nan_bits(b)
}

/// The encoded value compares `>= 0.0`: not a NaN, and either the sign bit
/// is clear or the value is a zero.
pub open spec fn is_ge_zero_bits(b: u64) -> bool {
    !is_nan_bits(b) && (b & SIGN_MASK == 0 || is_zero_bits(b))
}

/// IEEE equality of the two encoded values: never true for a NaN, and the
/// two zeros are equal to each other.
pub open spec fn eq_bits(a: u64, b: u64) -> bool {
    !is_nan_bits(a) && !is_nan_bits(b) && canon_bits(a) == canon_bits(b)
}

/// IEEE strict order of the two encoded values: false whenever either is a
/// NaN, and decided by the sign-magnitude order otherwise.
pub open spec fn lt_bits(a: u64, b: u64) -> bool {
    !is_nan_bits(a) && !is_nan_bits(b) && order_key(canon_bits(a)) < order_key(canon_bits(b))
}

/// IEEE non-strict order of the two encoded values.
pub open spec fn le_bits(a: u64, b: u64) -> bool {
    lt_bits(a, b) || eq_bits(a, b)
}

/// Whether the encoded value is a NaN.
pub fn nan_bits(b: u64) -> (r: bool)
    ensures
        r == is_nan_bits(b),
{
    b & EXP_MASK == EXP_MASK && b & MANT_MASK != 0
}

/// Whether the encoded value is one of the two zeros.
pub fn zero_bits(b: u64) -> (r: bool)
    ensures
        r == is_zero_bits(b),
{
    b & 0x7FFF_FFFF_FFFF_FFFF == 0
}

/// Whether the encoded value is finite.
pub fn finite_bits(b: u64) -> (r: bool)
    ensures
        r == is_finite_bits(b),
{
    b & EXP_MASK != EXP_MASK
}

/// Whether the encoded value is strictly negative.
pub fn neg_bits(b: u64) -> (r: bool)
    ensures
        r == is_neg_bits(b),
{
    b & SIGN_MASK != 0 && !zero_bits(b) && !nan_bits(b)
}

/// Whether the encoded value compares `>= 0.0`.
pub fn ge_zero_bits(b: u64) -> (r: bool)
    ensures
        r == is_ge_zero_bits(b),
{
    !nan_bits(b) && (b & SIGN_MASK == 0 || zero_bits(b))
}

/// IEEE equality of two encoded values.
pub fn bits_eq(a: u64, b: u64) -> (r: bool)
    ensures
        r == eq_bits(a, b),
{
    if nan_bits(a) || nan_bits(b) {
        false
    } else {
        let ca = if zero_bits(a) { ZERO_BITS } else { a };
        let cb = if zero_bits(b) { ZERO_BITS } else { b };
        ca == cb
    }
}

/// IEEE strict order of two encoded values.
pub fn bits_lt(a: u64, b: u64) -> (r: bool)
    ensures
        r == lt_bits(a, b),
{
    if nan_bits(a) || nan_bits(b) {
        false
    } else {
        let ca = if zero_bits(a) { ZERO_BITS } else { a };
        let cb = if zero_bits(b) { ZERO_BITS } else { b };
        let ka = if ca & SIGN_MASK != 0 { !ca } else { ca | SIGN_MASK };
        let kb = if cb & SIGN_MASK != 0 { !cb } else { cb | SIGN_MASK };
        ka < kb
    }
}

/// IEEE non-strict order of two encoded values.
pub fn bits_le(a: u64, b: u64) -> (r: bool)
    ensures
        r == le_bits(a, b),
{
    bits_lt(a, b) || bits_eq(a, b)
}

/// IEEE negation of the encoded value: the sign bit flipped.  Exact for
/// every input, including NaNs and infinities.
pub fn negate_bits(b: u64) -> (r: u64)
    ensures
        r == (b ^ SIGN_MASK),
{
    b ^ SIGN_MASK
}

/// IEEE absolute value of the encoded value: the sign bit cleared.
pub fn abs_bits(b: u64) -> (r: u64)
    ensures
        r == (b & 0x7FFF_FFFF_FFFF_FFFF),
{
    b & 0x7FFF_FFFF_FFFF_FFFF
}

/// The encoded value is mathematically an integer: a zero, or a finite
/// value whose mantissa has no bits below the binary point.
pub open spec fn is_int_bits(b: u64) -> bool {
    let e = (b >> 52) & 0x7FF;
    if b & 0x7FFF_FFFF_FFFF_FFFF == 0 {
        true
    } else if e == 0x7FF {
        false
    } else if e >= 1075 {
        true
    } else if e >= 1023 {
        let k = (1075 - e) as u64;
        (b & MANT_MASK) & (((1u64 << k) - 1) as u64) == 0
    } else {
        false
    }
}

/// Whether the encoded value is an integer.  A finite non-integer value is
/// exactly a dyadic rational with an even denominator, which is what the
/// real-domain analysis of `Power` needs to know.
pub fn int_bits(b: u64) -> (r: bool)
    ensures
        r == is_int_bits(b),
{
    let e = (b >> 52) & 0x7FF;
    if b & 0x7FFF_FFFF_FFFF_FFFF == 0 {
        true
    } else if e == 0x7FF {
        false
    } else if e >= 1075 {
        true
    } else if e >= 1023 {
        let k = 1075 - e;
        proof {
            assert(1u64 << k >= 1) by (bit_vector)
                requires
                    1 <= k <= 52,
            ;
        }
        (b & MANT_MASK) & ((1u64 << k) - 1) == 0
    } else {
        false
    }
}

} // verus!

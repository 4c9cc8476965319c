//! Order keys for real-valued scores.
//!
//! Scores and thresholds are IEEE-754 single-precision values. The library
//! never does arithmetic on them: it takes their bit patterns and compares
//! them through an unsigned key whose order is the IEEE total order.

use vstd::prelude::*;

verus! {

/// The key of a single-precision bit pattern: negative values have all bits
/// flipped, non-negative values get the sign bit set.
pub open spec fn key_of(bits: u32) -> u32 {
    if bits & 0x8000_0000u32 != 0 {
        !bits
    } else {
        bits | 0x8000_0000u32
    }
}

/// Bit pattern of the single-precision value 1.0.
pub const ONE_BITS: u32 = 0x3F80_0000;

/// Bit pattern of the single-precision value -0.0.
pub const NEG_ZERO_BITS: u32 = 0x8000_0000;

/// A bit pattern holds a value in the closed interval from 0 to 1: a
/// non-negative value up to 1.0, or -0.0.
pub open spec fn is_unit_interval(bits: u32) -> bool {
    bits <= ONE_BITS || bits == NEG_ZERO_BITS
}

/// The bit pattern is a NaN.
pub open spec fn is_nan_bits(bits: u32) -> bool {
    bits & 0x7FFF_FFFFu32 > 0x7F80_0000u32
}

/// The bit pattern is +0.0 or -0.0.
pub open spec fn is_zero_bits(bits: u32) -> bool {
    bits & 0x7FFF_FFFFu32 == 0
}

/// `a >= b` on the single-precision values of two bit patterns: false when
/// either is a NaN, true for two zeros, and otherwise the order of the keys.
pub open spec fn ge_bits(a: u32, b: u32) -> bool {
    !is_nan_bits(a) && !is_nan_bits(b) && ((is_zero_bits(a) && is_zero_bits(b)) || key_of(a)
        >= key_of(b))
}

/// Maps the bit pattern of a score to a key that orders as the IEEE total
/// order does.
pub fn order_key(bits: u32) -> (r: u32)
    ensures
        r == key_of(bits),
{
    if bits & 0x8000_0000u32 != 0 {
        !bits
    } else {
        bits | 0x8000_0000u32
    }
}

/// Whether the value of the bit pattern lies in the unit interval.
pub fn unit_interval(bits: u32) -> (r: bool)
    ensures
        r == is_unit_interval(bits),
{
    bits <= ONE_BITS || bits == NEG_ZERO_BITS
}

/// `a >= b` on the single-precision values of two bit patterns.
pub fn float_ge(a: u32, b: u32) -> (r: bool)
    ensures
        r == ge_bits(a, b),
{
    if a & 0x7FFF_FFFFu32 > 0x7F80_0000u32 || b & 0x7FFF_FFFFu32 > 0x7F80_0000u32 {
        return false;
    }
    if a & 0x7FFF_FFFFu32 == 0 && b & 0x7FFF_FFFFu32 == 0 {
        return true;
    }
    order_key(a) >= order_key(b)
}

} // verus!

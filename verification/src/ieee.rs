//! The ordering of IEEE-754 binary64 values, read off their bit patterns.
//!
//! A non-NaN value is ordered by its signed magnitude: the sign bit says
//! whether it is negative, and the remaining 63 bits, read as an unsigned
//! integer, grow with the magnitude of the value. Both zeros get the key 0,
//! so they compare equal. A NaN compares with nothing.
use vstd::prelude::*;

verus! {

/// The sign bit of a binary64 bit pattern.
pub const SIGN_BIT: u64 = 0x8000_0000_0000_0000u64;

/// The bit pattern of positive infinity: the largest magnitude that is not a NaN.
pub const INFINITY_BITS: u64 = 0x7ff0_0000_0000_0000u64;

/// The 63 bits of a pattern below the sign bit.
pub open spec fn magnitude(bits: u64) -> int {
    if bits >= SIGN_BIT { bits - SIGN_BIT } else { bits as int }
}

/// Whether the pattern is a NaN: all exponent bits set and a nonzero fraction.
pub open spec fn spec_is_nan(bits: u64) -> bool {
    magnitude(bits) > INFINITY_BITS
}

/// The signed magnitude by which non-NaN values are ordered.
pub open spec fn order_key(bits: u64) -> int {
    if bits >= SIGN_BIT { -magnitude(bits) } else { magnitude(bits) }
}

/// `a < b` on the values the patterns stand for.
pub open spec fn float_lt(a: u64, b: u64) -> bool {
    !spec_is_nan(a) && !spec_is_nan(b) && order_key(a) < order_key(b)
}

/// `a <= b` on the values the patterns stand for.
pub open spec fn float_le(a: u64, b: u64) -> bool {
    !spec_is_nan(a) && !spec_is_nan(b) && order_key(a) <= order_key(b)
}

/// `a == b` on the values the patterns stand for.
pub open spec fn float_eq(a: u64, b: u64) -> bool {
    !spec_is_nan(a) && !spec_is_nan(b) && order_key(a) == order_key(b)
}

/// `a >= b` on the values the patterns stand for.
pub open spec fn float_ge(a: u64, b: u64) -> bool {
    float_le(b, a)
}

/// Whether `bits` is the pattern of a NaN.
pub fn is_nan(bits: u64) -> (r: bool)
    ensures
        r == spec_is_nan(bits),
{
    let mag: u64 = if bits >= SIGN_BIT { bits - SIGN_BIT } else { bits };
    mag > INFINITY_BITS
}

/// The ordering key of a pattern: minus its magnitude when the sign bit is set.
pub fn key(bits: u64) -> (r: i64)
    ensures
        r == order_key(bits),
{
    if bits >= SIGN_BIT {
        let mag: u64 = bits - SIGN_BIT;
        -(mag as i64)
    } else {
        bits as i64
    }
}

/// `a <= b` on binary64 values given by their bit patterns.
pub fn less_equal(a: u64, b: u64) -> (r: bool)
    ensures
        r == float_le(a, b),
{
    !is_nan(a) && !is_nan(b) && key(a) <= key(b)
}

/// `a >= b` on binary64 values given by their bit patterns.
pub fn greater_equal(a: u64, b: u64) -> (r: bool)
    ensures
        r == float_ge(a, b),
{
    less_equal(b, a)
}

/// The outcome of comparing two values that are not NaN.
#[derive(Clone, Copy, Debug, PartialEq, Eq, Structural)]
pub enum FloatOrder {
    Less,
    Equal,
    Greater,
}

/// Three-way comparison of binary64 values given by their bit patterns:
/// `None` when either is a NaN, as with `partial_cmp` on floats.
pub fn partial_compare(a: u64, b: u64) -> (r: Option<FloatOrder>)
    ensures
        r == (if spec_is_nan(a) || spec_is_nan(b) {
            None
        } else if order_key(a) < order_key(b) {
            Some(FloatOrder::Less)
        } else if order_key(a) == order_key(b) {
            Some(FloatOrder::Equal)
        } else {
            Some(FloatOrder::Greater)
        }),
{
    if is_nan(a) || is_nan(b) {
        None
    } else {
        let ka = key(a);
        let kb = key(b);
        if ka < kb {
            Some(FloatOrder::Less)
        } else if ka == kb {
            Some(FloatOrder::Equal)
        } else {
            Some(FloatOrder::Greater)
        }
    }
}

/// The binary64 order read off the bit patterns, for every pair of patterns.
/// A pattern is a NaN exactly when its 63 low bits exceed those of infinity.
/// Below the sign bit a pattern's key is the pattern itself, above it minus
/// its 63 low bits; so two positive values compare as their patterns do, two
/// negative values in reverse, a negative value is below a positive one, and
/// two values are equal only when their patterns are, or both are zeros.
pub proof fn law_order_by_bits(a: u64, b: u64)
    ensures
        spec_is_nan(a) <==> a % 0x8000_0000_0000_0000 > 0x7ff0_0000_0000_0000,
        a < 0x8000_0000_0000_0000 ==> order_key(a) == a,
        a >= 0x8000_0000_0000_0000 ==> order_key(a) == 0x8000_0000_0000_0000 - a,
        !spec_is_nan(a) && !spec_is_nan(b) ==> {
            &&& (a < 0x8000_0000_0000_0000 && b < 0x8000_0000_0000_0000) ==> (float_lt(a, b)
                <==> a < b)
            &&& (a >= 0x8000_0000_0000_0000 && b >= 0x8000_0000_0000_0000) ==> (float_lt(a, b)
                <==> a > b)
            &&& (a >= 0x8000_0000_0000_0000 && b < 0x8000_0000_0000_0000) ==> (float_lt(a, b)
                <==> !(a == 0x8000_0000_0000_0000 && b == 0))
            &&& (a < 0x8000_0000_0000_0000 && b >= 0x8000_0000_0000_0000) ==> !float_lt(a, b)
            &&& float_eq(a, b) <==> (a == b || (a % 0x8000_0000_0000_0000 == 0 && b
                % 0x8000_0000_0000_0000 == 0))
            &&& float_le(a, b) <==> (float_lt(a, b) || float_eq(a, b))
            &&& float_ge(a, b) <==> float_le(b, a)
        },
{
}

} // verus!

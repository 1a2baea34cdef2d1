//! Double-precision numbers by their bits.
//!
//! A double is carried as the `u64` of its IEEE 754 binary64 encoding: sign bit, eleven exponent
//! bits, fifty-two fraction bits. Comparing two doubles needs nothing but those bits. Arithmetic on
//! them is left to the caller.

use vstd::prelude::*;

verus! {

/// The bits of `0.0`.
pub const ZERO: u64 = 0;

/// The bits of positive infinity.
pub const INFINITY: u64 = 0x7ff0_0000_0000_0000;

/// The bits of negative infinity.
pub const NEG_INFINITY: u64 = 0xfff0_0000_0000_0000;

/// The sign bit.
pub const SIGN: u64 = 0x8000_0000_0000_0000;

/// Not a number: all exponent bits set, and some fraction bit.
pub open spec fn is_nan(bits: u64) -> bool {
    bits % SIGN > INFINITY
}

/// The place of a number on the line of doubles; both zeros share place zero.
pub open spec fn place(bits: u64) -> int {
    if bits < SIGN {
        bits as int
    } else {
        SIGN - bits
    }
}

/// `a <= b` on doubles: false if either is not a number.
pub open spec fn le(a: u64, b: u64) -> bool {
    !is_nan(a) && !is_nan(b) && place(a) <= place(b)
}

/// `a < b` on doubles: false if either is not a number.
pub open spec fn lt(a: u64, b: u64) -> bool {
    !is_nan(a) && !is_nan(b) && place(a) < place(b)
}

/// Whether a double is not a number.
pub fn double_is_nan(bits: u64) -> (result: bool)
    ensures
        result == is_nan(bits),
{
    bits % SIGN > INFINITY
}

/// The place of a number on the line of doubles.
fn double_place(bits: u64) -> (result: i64)
    ensures
        result == place(bits),
{
    if bits < SIGN {
        bits as i64
    } else {
        -((bits - SIGN) as i64)
    }
}

/// `a <= b` on doubles.
pub fn double_le(a: u64, b: u64) -> (result: bool)
    ensures
        result == le(a, b),
{
    !double_is_nan(a) && !double_is_nan(b) && double_place(a) <= double_place(b)
}

/// `a < b` on doubles.
pub fn double_lt(a: u64, b: u64) -> (result: bool)
    ensures
        result == lt(a, b),
{
    !double_is_nan(a) && !double_is_nan(b) && double_place(a) < double_place(b)
}

/// Every number lies between the infinities.
pub proof fn law_infinities_bound(bits: u64)
    requires
        !is_nan(bits),
    ensures
        le(NEG_INFINITY, bits),
        le(bits, INFINITY),
{
}

/// Nothing is in order with what is not a number.
pub proof fn law_nan_unordered(a: u64, b: u64)
    requires
        is_nan(a) || is_nan(b),
    ensures
        !le(a, b),
        !lt(a, b),
{
}

/// How doubles stand to each other: of two without a sign the one with the greater bits is greater,
/// of two with a sign the one with the lesser, and one with a sign is below one without, but for
/// the two zeros, which are equal. What is not a number stands to nothing.
pub proof fn law_double_order(a: u64, b: u64)
    requires
        !is_nan(a),
        !is_nan(b),
    ensures
        a < 0x8000_0000_0000_0000 && b < 0x8000_0000_0000_0000 ==> (lt(a, b) <==> a < b),
        a >= 0x8000_0000_0000_0000 && b >= 0x8000_0000_0000_0000 ==> (lt(a, b) <==> a > b),
        a >= 0x8000_0000_0000_0000 && b < 0x8000_0000_0000_0000 ==> (lt(a, b) <==> !(a
            == 0x8000_0000_0000_0000 && b == 0)),
        a < 0x8000_0000_0000_0000 && b >= 0x8000_0000_0000_0000 ==> !lt(a, b),
        le(a, b) <==> !lt(b, a),
{
}

/// What is not a number: all bits of the exponent set, and some bit of the fraction.
pub proof fn law_not_a_number(bits: u64)
    ensures
        is_nan(bits) <==> 0x7ff0_0000_0000_0000 < bits < 0x8000_0000_0000_0000 || bits
            > 0xfff0_0000_0000_0000,
        ZERO == 0,
        INFINITY == 0x7ff0_0000_0000_0000,
        NEG_INFINITY == 0xfff0_0000_0000_0000,
{
}

} // verus!

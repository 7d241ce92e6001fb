//! The fields of a double-precision number, read from its 64-bit pattern.
//!
//! A pattern holds, from the top, one sign bit, eleven exponent bits and
//! fifty-two fraction bits. With an exponent field `e` between 1 and 2046 it
//! stands for `(2^52 + fraction) * 2^(e - 1075)`, negated where the sign bit
//! is set. The exponent field 2047 marks the infinities (fraction zero) and
//! the values that are not a number (any other fraction).

use vstd::prelude::*;

verus! {

/// Two to the power of 52: the bit that a normal number has in front of its fraction.
pub const HIDDEN_BIT: u64 = 0x10_0000_0000_0000;

/// The exponent field of 1.0.
pub const EXPONENT_OF_ONE: u64 = 1023;

/// The exponent field of the infinities and of the values that are not a number.
pub const EXPONENT_TOP: u64 = 0x7ff;

/// The sign bit: 1 for a negative number, for the negative zero too.
pub open spec fn sign(bits: u64) -> nat {
    bits as nat / 0x8000_0000_0000_0000
}

/// The exponent field.
pub open spec fn exponent(bits: u64) -> nat {
    (bits as nat / 0x10_0000_0000_0000) % 0x800
}

/// The fraction field.
pub open spec fn fraction(bits: u64) -> nat {
    bits as nat % 0x10_0000_0000_0000
}

/// The pattern stands for no number.
pub open spec fn is_nan(bits: u64) -> bool {
    exponent(bits) == EXPONENT_TOP && fraction(bits) != 0
}

/// The whole number `m` of a finite pattern that stands for `m * 2^scale`,
/// but for the sign.
pub open spec fn significand(bits: u64) -> nat {
    if exponent(bits) == 0 {
        fraction(bits)
    } else {
        HIDDEN_BIT as nat + fraction(bits)
    }
}

/// The exponent `scale` of a finite pattern that stands for
/// `significand * 2^scale`, but for the sign.
pub open spec fn scale(bits: u64) -> int {
    if exponent(bits) == 0 {
        -1074
    } else {
        exponent(bits) as int - 1075
    }
}

/// The pattern without its sign bit. Among the patterns of numbers of one
/// sign, a larger one stands for a number further from zero.
pub open spec fn magnitude(bits: u64) -> nat {
    bits as nat % 0x8000_0000_0000_0000
}

/// The number of the pattern `low` is not above the number of the pattern
/// `high`, for patterns that stand for numbers. The two zeros are equal.
pub open spec fn not_above(low: u64, high: u64) -> bool {
    if sign(low) == 1 {
        sign(high) == 0 || magnitude(low) >= magnitude(high)
    } else if sign(high) == 1 {
        magnitude(low) == 0 && magnitude(high) == 0
    } else {
        magnitude(low) <= magnitude(high)
    }
}

/// Whether the sign bit is set.
pub fn sign_of(bits: u64) -> (negative: bool)
    ensures
        negative == (sign(bits) == 1),
        sign(bits) <= 1,
{
    assert(bits >> 63 == bits / 0x8000_0000_0000_0000) by (bit_vector);
    assert(bits >> 63 <= 1) by (bit_vector);
    (bits >> 63) == 1
}

/// The exponent field.
pub fn exponent_of(bits: u64) -> (e: u64)
    ensures
        e == exponent(bits),
        e <= EXPONENT_TOP,
{
    assert((bits >> 52) & 0x7ff == (bits / 0x10_0000_0000_0000) % 0x800) by (bit_vector);
    (bits >> 52) & 0x7ff
}

/// The fraction field.
pub fn fraction_of(bits: u64) -> (f: u64)
    ensures
        f == fraction(bits),
        f < HIDDEN_BIT,
{
    assert(bits & 0xf_ffff_ffff_ffff == bits % 0x10_0000_0000_0000) by (bit_vector);
    bits & 0xf_ffff_ffff_ffff
}

/// A pattern is its three fields put together.
pub proof fn lemma_fields_make_pattern(bits: u64)
    ensures
        bits == sign(bits) * 0x8000_0000_0000_0000 + exponent(bits) * 0x10_0000_0000_0000
            + fraction(bits),
{
    let n = bits as nat;
    let upper = n / 0x10_0000_0000_0000;
    assert(n == upper * 0x10_0000_0000_0000 + fraction(bits));
    assert(upper == (upper / 0x800) * 0x800 + upper % 0x800);
    assert(upper / 0x800 == n / 0x8000_0000_0000_0000);
}

} // verus!

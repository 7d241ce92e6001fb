//! Single-precision numbers by their 32-bit pattern, and the three
//! operations that temperatures need: a whole number as a single, the
//! product of two singles, and a single as a double. Each gives what the
//! arithmetic of binary floating point gives, computed on whole numbers.
//!
//! A pattern holds, from the top, one sign bit, eight exponent bits and
//! twenty-three fraction bits. With an exponent field `e` between 1 and 254 it
//! stands for `(2^23 + fraction) * 2^(e - 150)`, with the exponent field 0
//! for `fraction * 2^-149`, either negated where the sign bit is set. The
//! exponent field 255 marks the infinities (fraction zero) and the values
//! that are not a number (any other fraction).

use crate::rounding::{
    bit_length, bit_length_of, lemma_bit_length_at_most, lemma_bit_length_bounds,
    lemma_rounded_shift, rounded_shift, shift_rounded,
};
use vstd::arithmetic::div_mod::lemma_multiply_divide_lt;
use vstd::arithmetic::mul::{lemma_mul_strict_inequality, lemma_mul_upper_bound};
use vstd::arithmetic::power2::{
    lemma2_to64, lemma2_to64_rest, lemma_pow2_adds, lemma_pow2_pos,
    lemma_pow2_strictly_increases, pow2,
};
use vstd::bits::lemma_u64_shl_is_mul;
use vstd::prelude::*;

verus! {

/// Two to the power of 23: the bit that a normal number has in front of its fraction.
pub const HIDDEN_BIT: u32 = 0x80_0000;

/// The exponent field of the infinities and of the values that are not a number.
pub const EXPONENT_TOP: u32 = 0xff;

/// The sign bit.
pub const SIGN_BIT: u32 = 0x8000_0000;

/// Positive infinity.
pub const INFINITY: u32 = 0x7f80_0000;

/// The value that is not a number, as operations give it here.
pub const QUIET_NAN: u32 = 0x7fc0_0000;

/// The value that is not a number, as a double.
pub const QUIET_NAN_DOUBLE: u64 = 0x7ff8_0000_0000_0000;

/// Positive infinity as a double.
pub const INFINITY_DOUBLE: u64 = 0x7ff0_0000_0000_0000;

/// The sign bit: 1 for a negative number, for the negative zero too.
pub open spec fn sign(bits: u32) -> nat {
    bits as nat / 0x8000_0000
}

/// The exponent field.
pub open spec fn exponent(bits: u32) -> nat {
    (bits as nat / 0x80_0000) % 0x100
}

/// The fraction field.
pub open spec fn fraction(bits: u32) -> nat {
    bits as nat % 0x80_0000
}

/// The pattern stands for no number.
pub open spec fn is_nan(bits: u32) -> bool {
    exponent(bits) == EXPONENT_TOP && fraction(bits) != 0
}

/// The pattern stands for an infinity.
pub open spec fn is_infinite(bits: u32) -> bool {
    exponent(bits) == EXPONENT_TOP && fraction(bits) == 0
}

/// The whole number `m` of a finite pattern that stands for `m * 2^scale`,
/// but for the sign.
pub open spec fn significand(bits: u32) -> nat {
    if exponent(bits) == 0 {
        fraction(bits)
    } else {
        HIDDEN_BIT as nat + fraction(bits)
    }
}

/// The exponent `scale` of a finite pattern that stands for
/// `significand * 2^scale`, but for the sign.
pub open spec fn scale(bits: u32) -> int {
    if exponent(bits) == 0 {
        -149
    } else {
        exponent(bits) as int - 150
    }
}

/// The exponent of the last binary digit that a single keeps of `m * 2^e`:
/// a single keeps twenty-four digits, and none below `2^-149`.
pub open spec fn last_place(m: nat, e: int) -> int {
    let place = bit_length(m) as int + e - 24;
    if place >= -149 {
        place
    } else {
        -149
    }
}

/// `m * 2^e` in units of its last kept digit, rounded to the nearest unit,
/// and to the even one of two that are equally near.
pub open spec fn kept(m: nat, e: int) -> nat {
    let place = last_place(m, e);
    if place <= e {
        m * pow2((e - place) as nat)
    } else {
        rounded_shift(m, (place - e) as nat)
    }
}

/// The single nearest to `m * 2^e`, positive infinity where the nearest
/// would lie past the largest single. The exponent field is one more than
/// the distance of the last place from `2^-149`, less the hidden bit that
/// `kept` brings along, so the two add up to the pattern.
pub open spec fn nearest(m: nat, e: int) -> u32 {
    if m == 0 {
        0
    } else {
        let code = (last_place(m, e) + 149) * 0x80_0000 + kept(m, e);
        if code >= INFINITY {
            INFINITY
        } else {
            code as u32
        }
    }
}

/// The product of two singles: not a number where either is none or where
/// zero meets infinity, else the single nearest to the exact product, with
/// the sign that the two signs give.
pub open spec fn product(a: u32, b: u32) -> u32 {
    if is_nan(a) || is_nan(b) {
        QUIET_NAN
    } else if (is_infinite(a) && significand(b) == 0) || (significand(a) == 0 && is_infinite(b)) {
        QUIET_NAN
    } else {
        let magnitude = if is_infinite(a) || is_infinite(b) {
            INFINITY
        } else {
            nearest(significand(a) * significand(b), scale(a) + scale(b))
        };
        if sign(a) != sign(b) {
            (SIGN_BIT + magnitude) as u32
        } else {
            magnitude
        }
    }
}

/// The double that stands for the same number as a single. Every single
/// has one. What is not a number stays so.
pub open spec fn widened(bits: u32) -> u64 {
    if is_nan(bits) {
        QUIET_NAN_DOUBLE
    } else {
        let magnitude: nat = if is_infinite(bits) {
            INFINITY_DOUBLE as nat
        } else if significand(bits) == 0 {
            0
        } else {
            let m = significand(bits);
            let len = bit_length(m);
            ((len + scale(bits) + 1022) * 0x10_0000_0000_0000 + (m * pow2((53 - len) as nat)
                - 0x10_0000_0000_0000)) as nat
        };
        (sign(bits) * 0x8000_0000_0000_0000 + magnitude) as u64
    }
}

/// Whether the sign bit is set.
pub fn sign_of(bits: u32) -> (negative: bool)
    ensures
        negative == (sign(bits) == 1),
        sign(bits) <= 1,
{
    assert(bits >> 31 == bits / 0x8000_0000) by (bit_vector);
    assert(bits >> 31 <= 1) by (bit_vector);
    (bits >> 31) == 1
}

/// The exponent field.
pub fn exponent_of(bits: u32) -> (e: u32)
    ensures
        e == exponent(bits),
        e <= EXPONENT_TOP,
{
    assert((bits >> 23) & 0xff == (bits / 0x80_0000) % 0x100) by (bit_vector);
    (bits >> 23) & 0xff
}

/// The fraction field.
pub fn fraction_of(bits: u32) -> (f: u32)
    ensures
        f == fraction(bits),
        f < HIDDEN_BIT,
{
    assert(bits & 0x7f_ffff == bits % 0x80_0000) by (bit_vector);
    bits & 0x7f_ffff
}

/// Powers of two grow with their exponents.
pub proof fn lemma_pow2_grows(low: nat, high: nat)
    requires
        low <= high,
    ensures
        pow2(low) <= pow2(high),
{
    if low < high {
        lemma_pow2_strictly_increases(low, high);
    }
}

/// What a single keeps of a number has twenty-four binary digits at most,
/// or is the power of two just past them.
pub proof fn lemma_kept_bound(m: nat, e: int)
    ensures
        kept(m, e) <= 0x100_0000,
        last_place(m, e) <= e ==> bit_length(m) + (e - last_place(m, e)) <= 24,
{
    let len = bit_length(m);
    let place = last_place(m, e);
    lemma_bit_length_bounds(m);
    lemma2_to64();
    if place <= e {
        let up = (e - place) as nat;
        lemma_pow2_adds(len, up);
        lemma_pow2_grows(len + up, 24);
        lemma_pow2_pos(up);
        if m > 0 {
            lemma_mul_strict_inequality(m as int, pow2(len) as int, pow2(up) as int);
        } else {
            assert(m * pow2(up) == 0);
        }
    } else {
        let down = (place - e) as nat;
        lemma_rounded_shift(m, down);
        lemma_pow2_pos(down);
        lemma_pow2_grows(len, down + 24);
        lemma_pow2_adds(down, 24);
        lemma_multiply_divide_lt(m as int, pow2(down) as int, pow2(24) as int);
    }
}

/// Above the smallest place, what a single keeps of a number starts with
/// its first binary digit: it has all twenty-four digits.
pub proof fn lemma_kept_at_least(m: nat, e: int)
    requires
        m > 0,
        last_place(m, e) > -149,
    ensures
        kept(m, e) >= HIDDEN_BIT,
{
    let len = bit_length(m);
    let place = last_place(m, e);
    lemma_bit_length_bounds(m);
    lemma2_to64();
    if place <= e {
        let up = (e - place) as nat;
        lemma_pow2_adds((len - 1) as nat, up);
        vstd::arithmetic::mul::lemma_mul_inequality(
            pow2((len - 1) as nat) as int,
            m as int,
            pow2(up) as int,
        );
    } else {
        let down = (place - e) as nat;
        lemma_rounded_shift(m, down);
        lemma_pow2_pos(down);
        lemma_pow2_adds(23, down);
        vstd::arithmetic::div_mod::lemma_div_by_multiple(pow2(23) as int, pow2(down) as int);
        vstd::arithmetic::div_mod::lemma_div_is_ordered(
            pow2((len - 1) as nat) as int,
            m as int,
            pow2(down) as int,
        );
    }
}

/// The pattern that `nearest` gives stands for the rounded number: read
/// back, it has the kept digits as its significand and the last place as
/// its scale. Where rounding carried into a twenty-fifth digit, it has the
/// hidden bit alone, one place higher.
pub proof fn lemma_nearest_decodes(m: nat, e: int)
    requires
        m > 0,
        nearest(m, e) != INFINITY,
    ensures
        sign(nearest(m, e)) == 0,
        !is_nan(nearest(m, e)),
        kept(m, e) < 0x100_0000 ==> significand(nearest(m, e)) == kept(m, e) && scale(
            nearest(m, e),
        ) == last_place(m, e),
        kept(m, e) == 0x100_0000 ==> significand(nearest(m, e)) == HIDDEN_BIT && scale(
            nearest(m, e),
        ) == last_place(m, e) + 1,
{
    let k = kept(m, e);
    let place = last_place(m, e);
    let code = (place + 149) * 0x80_0000 + k;
    lemma_kept_bound(m, e);
    assert(code < INFINITY);
    if place > -149 {
        lemma_kept_at_least(m, e);
    }
    if k < 0x80_0000 {
        assert(place == -149);
        vstd::arithmetic::div_mod::lemma_fundamental_div_mod_converse(
            code,
            0x80_0000,
            0,
            k as int,
        );
    } else if k < 0x100_0000 {
        assert(place + 150 <= 254) by (nonlinear_arith)
            requires
                (place + 149) * 0x80_0000 + k < 0x7f80_0000,
                k >= 0x80_0000,
        ;
        vstd::arithmetic::div_mod::lemma_fundamental_div_mod_converse(
            code,
            0x80_0000,
            place + 150,
            k - 0x80_0000,
        );
    } else {
        assert(place + 151 <= 254) by (nonlinear_arith)
            requires
                (place + 149) * 0x80_0000 + k < 0x7f80_0000,
                k == 0x100_0000,
        ;
        vstd::arithmetic::div_mod::lemma_fundamental_div_mod_converse(
            code,
            0x80_0000,
            place + 151,
            0,
        );
    }
}

/// A number of at most twenty-four binary digits, scaled no lower than the
/// smallest place, is kept whole: nothing of it is rounded away.
pub proof fn lemma_short_numbers_are_kept_whole(m: nat, e: int)
    requires
        bit_length(m) <= 24,
        e >= -149,
    ensures
        last_place(m, e) <= e,
        kept(m, e) == m * pow2((e - last_place(m, e)) as nat),
{
}

/// Every finite single is the single nearest to the number it stands for.
pub proof fn lemma_single_is_its_own_nearest(bits: u32)
    requires
        !is_nan(bits),
        !is_infinite(bits),
        sign(bits) == 0,
    ensures
        nearest(significand(bits), scale(bits)) == bits,
{
    let m = significand(bits);
    let e = scale(bits);
    let field = exponent(bits);
    lemma2_to64();
    vstd::arithmetic::div_mod::lemma_fundamental_div_mod(bits as int, 0x80_0000);
    assert(bits as nat / 0x80_0000 < 0x100);
    if m > 0 {
        if field == 0 {
            lemma_bit_length_at_most(m, 23);
        } else {
            crate::rounding::lemma_bit_length_from_bounds(m, 24);
        }
        assert(last_place(m, e) == e);
        assert(kept(m, e) == m * pow2(0));
    }
}

/// The double of a finite single other than zero stands for the same
/// number: it has the sign of the single, and its significand is that of
/// the single moved up by as many places as its scale is lower.
pub proof fn lemma_widened_keeps_value(bits: u32)
    requires
        exponent(bits) != EXPONENT_TOP,
        significand(bits) != 0,
    ensures
        crate::binary64::sign(widened(bits)) == sign(bits),
        !crate::binary64::is_nan(widened(bits)),
        crate::binary64::scale(widened(bits)) == scale(bits) - (53 - bit_length(significand(bits))),
        crate::binary64::significand(widened(bits)) == significand(bits) * pow2(
            (53 - bit_length(significand(bits))) as nat,
        ),
{
    let m = significand(bits);
    let len = bit_length(m);
    let up = (53 - len) as nat;
    lemma2_to64();
    lemma2_to64_rest();
    vstd::arithmetic::div_mod::lemma_fundamental_div_mod(bits as int, 0x80_0000);
    assert(bits as nat / 0x80_0000 < 0x200);
    assert(sign(bits) <= 1);
    lemma_bit_length_bounds(m);
    lemma_bit_length_at_most(m, 24);
    lemma_pow2_adds(len, up);
    lemma_pow2_adds((len - 1) as nat, up);
    lemma_pow2_pos(up);
    lemma_mul_strict_inequality(m as int, pow2(len) as int, pow2(up) as int);
    vstd::arithmetic::mul::lemma_mul_inequality(
        pow2((len - 1) as nat) as int,
        m as int,
        pow2(up) as int,
    );
    let field = len + scale(bits) + 1022;
    let rest = m * pow2(up) - 0x10_0000_0000_0000;
    let wide = widened(bits);
    assert(874 <= field <= 1150);
    assert(0 <= rest < 0x10_0000_0000_0000);
    assert(wide == sign(bits) * 0x8000_0000_0000_0000 + field * 0x10_0000_0000_0000 + rest);
    vstd::arithmetic::div_mod::lemma_fundamental_div_mod_converse(
        wide as int,
        0x10_0000_0000_0000,
        sign(bits) * 0x800 + field,
        rest,
    );
    vstd::arithmetic::div_mod::lemma_fundamental_div_mod_converse(
        sign(bits) * 0x800 + field,
        0x800,
        sign(bits) as int,
        field,
    );
    vstd::arithmetic::div_mod::lemma_fundamental_div_mod_converse(
        wide as int,
        0x8000_0000_0000_0000,
        sign(bits) as int,
        field * 0x10_0000_0000_0000 + rest,
    );
}

/// The single nearest to `m * 2^e`.
pub fn nearest_single(m: u64, e: i32) -> (bits: u32)
    ensures
        bits == nearest(m as nat, e as int),
{
    if m == 0 {
        return 0;
    }
    let len = bit_length_of(m);
    let place: i64 = len as i64 + e as i64 - 24;
    let place: i64 = if place >= -149 {
        place
    } else {
        -149
    };
    proof {
        lemma_kept_bound(m as nat, e as int);
        lemma2_to64();
    }
    let significand: u64 = if place <= e as i64 {
        let up = (e as i64 - place) as u64;
        proof {
            lemma_u64_shl_is_mul(m, up);
        }
        m << up
    } else {
        shift_rounded(m, (place - e as i64) as u64)
    };
    assert(significand == kept(m as nat, e as int));
    if place + 149 >= 255 {
        assert((place + 149) * 0x80_0000 + significand >= INFINITY) by (nonlinear_arith)
            requires
                place + 149 >= 255,
                significand >= 0,
        ;
        return INFINITY;
    }
    let code: u64 = (place + 149) as u64 * 0x80_0000 + significand;
    if code >= INFINITY as u64 {
        INFINITY
    } else {
        code as u32
    }
}

/// The single nearest to a whole number.
pub fn from_integer(n: u32) -> (bits: u32)
    ensures
        bits == nearest(n as nat, 0),
{
    nearest_single(n as u64, 0)
}

/// The product of two singles.
pub fn multiply(a: u32, b: u32) -> (bits: u32)
    ensures
        bits == product(a, b),
{
    let exponent_a = exponent_of(a);
    let exponent_b = exponent_of(b);
    let fraction_a = fraction_of(a);
    let fraction_b = fraction_of(b);
    if (exponent_a == EXPONENT_TOP && fraction_a != 0) || (exponent_b == EXPONENT_TOP
        && fraction_b != 0) {
        return QUIET_NAN;
    }
    let infinite_a = exponent_a == EXPONENT_TOP;
    let infinite_b = exponent_b == EXPONENT_TOP;
    let zero_a = exponent_a == 0 && fraction_a == 0;
    let zero_b = exponent_b == 0 && fraction_b == 0;
    if (infinite_a && zero_b) || (zero_a && infinite_b) {
        return QUIET_NAN;
    }
    let magnitude: u32 = if infinite_a || infinite_b {
        INFINITY
    } else {
        let m_a: u64 = if exponent_a == 0 {
            fraction_a as u64
        } else {
            HIDDEN_BIT as u64 + fraction_a as u64
        };
        let m_b: u64 = if exponent_b == 0 {
            fraction_b as u64
        } else {
            HIDDEN_BIT as u64 + fraction_b as u64
        };
        let scale_a: i32 = if exponent_a == 0 {
            -149
        } else {
            exponent_a as i32 - 150
        };
        let scale_b: i32 = if exponent_b == 0 {
            -149
        } else {
            exponent_b as i32 - 150
        };
        proof {
            lemma_mul_upper_bound(m_a as int, 0xff_ffff, m_b as int, 0xff_ffff);
        }
        nearest_single(m_a * m_b, scale_a + scale_b)
    };
    if sign_of(a) != sign_of(b) {
        SIGN_BIT + magnitude
    } else {
        magnitude
    }
}

/// The double that stands for the same number as a single.
pub fn to_double(bits: u32) -> (double: u64)
    ensures
        double == widened(bits),
{
    let e = exponent_of(bits);
    let f = fraction_of(bits);
    if e == EXPONENT_TOP && f != 0 {
        return QUIET_NAN_DOUBLE;
    }
    let magnitude: u64 = if e == EXPONENT_TOP {
        INFINITY_DOUBLE
    } else if e == 0 && f == 0 {
        0
    } else {
        let m: u64 = if e == 0 {
            f as u64
        } else {
            HIDDEN_BIT as u64 + f as u64
        };
        let scale: i64 = if e == 0 {
            -149
        } else {
            e as i64 - 150
        };
        let len = bit_length_of(m);
        proof {
            lemma2_to64();
            lemma2_to64_rest();
            lemma_bit_length_bounds(m as nat);
            lemma_bit_length_at_most(m as nat, 24);
            let up = (53 - len) as nat;
            lemma_pow2_adds(len as nat, up);
            lemma_pow2_adds((len - 1) as nat, up);
            lemma_pow2_pos(up);
            lemma_mul_strict_inequality(m as int, pow2(len as nat) as int, pow2(up) as int);
            vstd::arithmetic::mul::lemma_mul_inequality(
                pow2((len - 1) as nat) as int,
                m as int,
                pow2(up) as int,
            );
            lemma_u64_shl_is_mul(m, (53 - len) as u64);
        }
        let shifted: u64 = m << ((53 - len) as u64);
        let field: u64 = (len as i64 + scale + 1022) as u64;
        field * 0x10_0000_0000_0000 + (shifted - 0x10_0000_0000_0000)
    };
    if sign_of(bits) {
        0x8000_0000_0000_0000 + magnitude
    } else {
        magnitude
    }
}

} // verus!

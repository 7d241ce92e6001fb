//! Rounding a whole number to a multiple of a power of two, as binary
//! floating-point arithmetic rounds: to the nearest multiple, and to the even
//! one of two that are equally near.

use vstd::arithmetic::div_mod::{
    lemma_basic_div, lemma_div_by_multiple, lemma_fundamental_div_mod, lemma_small_mod,
};
use vstd::arithmetic::power2::{
    lemma2_to64, lemma2_to64_rest, lemma_pow2_pos, lemma_pow2_strictly_increases,
    lemma_pow2_unfold, pow2,
};
use vstd::bits::lemma_u64_shl_is_mul;
use vstd::prelude::*;

verus! {

/// The multiple of `unit` nearest to `n`; halfway between two, the even one.
pub open spec fn round_half_even(n: nat, unit: nat) -> nat {
    let below = n / unit;
    let rest = n % unit;
    if 2 * rest < unit || (2 * rest == unit && below % 2 == 0) {
        below * unit
    } else {
        (below + 1) * unit
    }
}

/// `n` in units of `2^down`, rounded to the nearest unit.
pub open spec fn rounded_shift(n: nat, down: nat) -> nat {
    round_half_even(n, pow2(down)) / pow2(down)
}

/// Number of binary digits of `n`: none for zero.
pub open spec fn bit_length(n: nat) -> nat
    decreases n,
{
    if n == 0 {
        0
    } else {
        1 + bit_length(n / 2)
    }
}

/// A number lies below the power of two of its length, and not below the
/// one before.
pub proof fn lemma_bit_length_bounds(n: nat)
    ensures
        n < pow2(bit_length(n)),
        n > 0 ==> pow2((bit_length(n) - 1) as nat) <= n,
    decreases n,
{
    if n == 0 {
        lemma2_to64();
    } else {
        lemma_bit_length_bounds(n / 2);
        lemma_pow2_unfold(bit_length(n));
        if n / 2 > 0 {
            lemma_pow2_unfold((bit_length(n) - 1) as nat);
        } else {
            lemma2_to64();
        }
    }
}

/// The length of a number is settled by the powers of two around it.
pub proof fn lemma_bit_length_from_bounds(n: nat, len: nat)
    requires
        len > 0,
        pow2((len - 1) as nat) <= n < pow2(len),
    ensures
        bit_length(n) == len,
{
    lemma_pow2_pos((len - 1) as nat);
    lemma_bit_length_bounds(n);
    let found = bit_length(n);
    if found < len {
        if found < len - 1 {
            lemma_pow2_strictly_increases(found, (len - 1) as nat);
        }
    } else if found > len {
        if len < found - 1 {
            lemma_pow2_strictly_increases(len, (found - 1) as nat);
        }
    }
}

/// A number below a power of two is no longer than the exponent.
pub proof fn lemma_bit_length_at_most(n: nat, len: nat)
    requires
        n < pow2(len),
    ensures
        bit_length(n) <= len,
{
    lemma_bit_length_bounds(n);
    if n > 0 && bit_length(n) > len {
        if len < bit_length(n) - 1 {
            lemma_pow2_strictly_increases(len, (bit_length(n) - 1) as nat);
        }
    }
}

/// Rounding to a unit leaves a whole number of units: the units below, or
/// one more.
pub proof fn lemma_rounded_shift(n: nat, down: nat)
    ensures
        rounded_shift(n, down) == n / pow2(down) || rounded_shift(n, down) == n / pow2(down) + 1,
        rounded_shift(n, down) == (if 2 * (n % pow2(down)) < pow2(down) || (2 * (n % pow2(down))
            == pow2(down) && (n / pow2(down)) % 2 == 0) {
            n / pow2(down)
        } else {
            n / pow2(down) + 1
        }),
{
    lemma_pow2_pos(down);
    let unit = pow2(down);
    lemma_div_by_multiple((n / unit) as int, unit as int);
    lemma_div_by_multiple((n / unit + 1) as int, unit as int);
}

/// What rounding gives is a multiple of the unit, and no further from the
/// number than half a unit.
pub proof fn lemma_round_half_even_is_nearest(n: nat, unit: nat)
    requires
        unit > 0,
    ensures
        round_half_even(n, unit) % unit == 0,
        2 * (round_half_even(n, unit) - n) <= unit,
        2 * (n - round_half_even(n, unit)) <= unit,
{
    let below = n / unit;
    let rest = n % unit;
    lemma_fundamental_div_mod(n as int, unit as int);
    vstd::arithmetic::div_mod::lemma_mod_multiples_basic(below as int, unit as int);
    vstd::arithmetic::div_mod::lemma_mod_multiples_basic((below + 1) as int, unit as int);
    assert((below + 1) * unit == below * unit + unit) by (nonlinear_arith);
    assert(unit * below == below * unit) by (nonlinear_arith);
}

/// Rounding keeps the order of numbers: of two numbers, the larger is not
/// rounded to less than the smaller.
pub proof fn lemma_round_half_even_monotone(a: nat, b: nat, unit: nat)
    requires
        unit > 0,
        a <= b,
    ensures
        round_half_even(a, unit) <= round_half_even(b, unit),
{
    let below_a = a / unit;
    let below_b = b / unit;
    lemma_fundamental_div_mod(a as int, unit as int);
    lemma_fundamental_div_mod(b as int, unit as int);
    vstd::arithmetic::div_mod::lemma_div_is_ordered(a as int, b as int, unit as int);
    if below_a < below_b {
        assert((below_a + 1) * unit <= below_b * unit) by (nonlinear_arith)
            requires
                below_a + 1 <= below_b,
                unit > 0,
        ;
        assert(below_a * unit <= (below_a + 1) * unit) by (nonlinear_arith)
            requires
                unit > 0,
        ;
        assert(below_b * unit <= (below_b + 1) * unit) by (nonlinear_arith)
            requires
                unit > 0,
        ;
    } else {
        assert(below_a * unit <= (below_a + 1) * unit) by (nonlinear_arith)
            requires
                unit > 0,
        ;
        assert(unit * below_a == unit * below_b);
    }
}

/// Number of binary digits of `n`.
pub fn bit_length_of(n: u64) -> (len: u32)
    ensures
        len == bit_length(n as nat),
        len <= 64,
{
    let mut len: u32 = 0;
    let mut rest = n;
    proof {
        lemma2_to64();
        lemma_bit_length_at_most(n as nat, 64);
    }
    while rest > 0
        invariant
            len + bit_length(rest as nat) == bit_length(n as nat),
            bit_length(n as nat) <= 64,
        decreases rest,
    {
        rest = rest / 2;
        len = len + 1;
    }
    len
}

/// `n` in units of `2^down`, rounded to the nearest unit, and to the even
/// one of two that are equally near.
pub fn shift_rounded(n: u64, down: u64) -> (units: u64)
    ensures
        units == rounded_shift(n as nat, down as nat),
{
    proof {
        lemma_rounded_shift(n as nat, down as nat);
        lemma_pow2_pos(down as nat);
        lemma2_to64();
        lemma2_to64_rest();
    }
    if down == 0 {
        assert(pow2(0) == 1);
        assert(n as nat / 1 == n && n as nat % 1 == 0);
        n
    } else if down >= 65 {
        proof {
            lemma_pow2_unfold(65);
            if down > 65 {
                lemma_pow2_strictly_increases(65, down as nat);
            }
            lemma_basic_div(n as int, pow2(down as nat) as int);
            lemma_small_mod(n as nat, pow2(down as nat));
        }
        0
    } else if down == 64 {
        proof {
            lemma_basic_div(n as int, pow2(64) as int);
            lemma_small_mod(n as nat, pow2(64));
        }
        if n > 0x8000_0000_0000_0000 {
            1
        } else {
            0
        }
    } else {
        proof {
            if down < 63 {
                lemma_pow2_strictly_increases(down as nat, 63);
            }
            lemma_u64_shl_is_mul(1, down);
        }
        let unit: u64 = 1u64 << down;
        let below = n / unit;
        let rest = n % unit;
        proof {
            lemma_pow2_unfold(down as nat);
            lemma_fundamental_div_mod(n as int, unit as int);
            assert(below <= n / 2) by (nonlinear_arith)
                requires
                    n == unit * below + rest,
                    unit >= 2,
                    rest >= 0,
            ;
        }
        if 2 * rest < unit || (2 * rest == unit && below % 2 == 0) {
            below
        } else {
            below + 1
        }
    }
}

} // verus!

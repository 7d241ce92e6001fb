//! Unsigned numbers as ASCII decimal text, the format of the scalar files
//! that sensors are read from and duty levels are written to.

use vstd::prelude::*;

verus! {

/// The byte is one of `0` to `9`.
pub open spec fn is_digit(b: u8) -> bool {
    48 <= b <= 57
}

/// Every byte of the text is a decimal digit.
pub open spec fn all_digits(s: Seq<u8>) -> bool {
    forall|i: int| 0 <= i < s.len() ==> is_digit(#[trigger] s[i])
}

/// The decimal digits of `n`, most significant first, without leading zeros.
pub open spec fn digits(n: nat) -> Seq<u8>
    decreases n,
{
    if n < 10 {
        seq![(48 + n) as u8]
    } else {
        digits(n / 10).push((48 + n % 10) as u8)
    }
}

/// The number that a text of decimal digits denotes.
pub open spec fn number(s: Seq<u8>) -> nat
    decreases s.len(),
{
    if s.len() == 0 {
        0
    } else {
        number(s.drop_last()) * 10 + (s.last() - 48) as nat
    }
}

/// Exactly `width` decimal digits: the last `width` digits of `n`, with
/// zeros in front where `n` has fewer.
pub open spec fn fixed_digits(n: nat, width: nat) -> Seq<u8>
    decreases width,
{
    if width == 0 {
        Seq::empty()
    } else {
        fixed_digits(n / 10, (width - 1) as nat).push((48 + n % 10) as u8)
    }
}

/// The digits of a number are digits, at least one, and denote the number.
pub proof fn lemma_digits_denote(n: nat)
    ensures
        digits(n).len() >= 1,
        all_digits(digits(n)),
        number(digits(n)) == n,
    decreases n,
{
    if n < 10 {
        let s = digits(n);
        assert(s.drop_last() =~= Seq::<u8>::empty());
        assert(number(s.drop_last()) == 0);
    } else {
        lemma_digits_denote(n / 10);
        let s = digits(n);
        assert(s.drop_last() =~= digits(n / 10));
        assert(s.last() == (48 + n % 10) as u8);
    }
}

/// A text denotes at least what any of its prefixes denotes.
pub proof fn lemma_number_grows(s: Seq<u8>, len: int)
    requires
        0 <= len <= s.len(),
        all_digits(s),
    ensures
        number(s.take(len)) <= number(s),
    decreases s.len() - len,
{
    if len < s.len() {
        let next = s.take(len + 1);
        assert(next.drop_last() =~= s.take(len));
        assert(is_digit(s[len]));
        assert(next.last() == s[len]);
        lemma_number_grows(s, len + 1);
    } else {
        assert(s.take(len) =~= s);
    }
}

/// Writes `n` in decimal.
pub fn to_digits(n: u64) -> (text: Vec<u8>)
    ensures
        text@ == digits(n as nat),
    decreases n,
{
    if n < 10 {
        let mut text: Vec<u8> = Vec::new();
        text.push(48 + n as u8);
        assert(text@ =~= digits(n as nat));
        text
    } else {
        let mut text = to_digits(n / 10);
        text.push(48 + (n % 10) as u8);
        text
    }
}

/// Writes the last `width` decimal digits of `n`, zeros included.
pub fn to_fixed_digits(n: u64, width: usize) -> (text: Vec<u8>)
    ensures
        text@ == fixed_digits(n as nat, width as nat),
    decreases width,
{
    if width == 0 {
        Vec::new()
    } else {
        let mut text = to_fixed_digits(n / 10, width - 1);
        text.push(48 + (n % 10) as u8);
        text
    }
}

/// Reads a number written in decimal. The text must hold one digit at least
/// and digits only, and the number must fit in 32 bits.
pub fn parse_digits(s: &[u8]) -> (r: Option<u32>)
    ensures
        r == (if s@.len() > 0 && all_digits(s@) && number(s@) <= u32::MAX {
            Some(number(s@) as u32)
        } else {
            None
        }),
{
    if s.len() == 0 {
        return None;
    }
    let mut acc: u64 = 0;
    let mut at: usize = 0;
    assert(s@.take(0) =~= Seq::<u8>::empty());
    while at < s.len()
        invariant
            at <= s.len(),
            all_digits(s@.take(at as int)),
            acc == number(s@.take(at as int)),
            acc <= u32::MAX,
        decreases s.len() - at,
    {
        let b = s[at];
        if b < 48 || b > 57 {
            assert(!is_digit(s@[at as int]));
            return None;
        }
        let ghost next = s@.take(at + 1);
        assert(next.drop_last() =~= s@.take(at as int));
        assert(next.last() == b);
        assert forall|i: int| 0 <= i < next.len() implies is_digit(#[trigger] next[i]) by {
            if i < at {
                assert(next[i] == s@.take(at as int)[i]);
            }
        }
        let grown: u64 = acc * 10 + (b - 48) as u64;
        if grown > 0xffff_ffff {
            proof {
                if all_digits(s@) {
                    lemma_number_grows(s@, at + 1);
                }
            }
            return None;
        }
        acc = grown;
        at = at + 1;
    }
    assert(s@.take(at as int) =~= s@);
    Some(acc as u32)
}

} // verus!

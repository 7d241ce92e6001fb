//! Fan actuators and the duty level they are driven with.

use crate::decimal::{digits, fixed_digits, to_digits, to_fixed_digits};
use crate::text::{as_chars, pad, padded, push_ascii, push_char, FormatSpec};
use vstd::prelude::*;
use vstd::string::*;

pub mod pwm;

verus! {

/// Duty level of a fan, from 0 (stopped) to 255 (full speed).
#[derive(Clone, Copy, Debug)]
pub struct FanPower(u8);

/// Why an actuator could not take a duty level.
#[derive(Debug)]
pub enum FanError {
    /// The device file could not be opened or written; the text is the
    /// operating system's message.
    Io(String),
}

/// Something that can drive a fan at a given duty level.
pub trait Fan {
    fn try_set_power(&mut self, power: FanPower) -> Result<(), FanError>;
}

/// Most digits after the decimal point that a percentage is computed to.
/// Digits asked for beyond these are zeros.
pub const PERCENT_PLACES: usize = 14;

/// Ten to the power of `e`.
pub open spec fn pow10(e: nat) -> nat
    decreases e,
{
    if e == 0 {
        1
    } else {
        10 * pow10((e - 1) as nat)
    }
}

/// The share `level / 255` as a percentage, in units of `10^-places`,
/// rounded to the nearest unit. No level lies halfway between two units.
pub open spec fn percent_scaled(level: nat, places: nat) -> nat {
    (200 * level * pow10(places) + 255) / 510
}

/// The percentage of full speed with `precision` digits after the point,
/// followed by a percent sign: `49.8%`. Without digits after the point, the
/// point is left out.
pub open spec fn percent_text(level: nat, precision: nat) -> Seq<char> {
    let places = if precision <= PERCENT_PLACES { precision } else { PERCENT_PLACES as nat };
    let scaled = percent_scaled(level, places);
    let whole = as_chars(digits(scaled / pow10(places)));
    if precision == 0 {
        whole.push('%')
    } else {
        (whole.push('.') + as_chars(fixed_digits(scaled, places))
            + crate::text::filler('0', (precision - places) as nat)).push('%')
    }
}

/// The diagnostic form: the type's name and the raw level, `FanPower(127)`.
pub open spec fn label_text(level: nat) -> Seq<char> {
    ("FanPower("@ + as_chars(digits(level))).push(')')
}

/// Ten to the power of `e`, for an `e` whose power fits easily.
fn power_of_ten(e: usize) -> (p: u64)
    requires
        e <= PERCENT_PLACES,
    ensures
        p == pow10(e as nat),
        1 <= p <= 100_000_000_000_000,
{
    let mut p: u64 = 1;
    let mut done: usize = 0;
    assert(pow10(14) == 100_000_000_000_000) by {
        reveal_with_fuel(pow10, 15);
    }
    while done < e
        invariant
            done <= e <= PERCENT_PLACES,
            p == pow10(done as nat),
            p * pow10((PERCENT_PLACES - done) as nat) == 100_000_000_000_000,
        decreases e - done,
    {
        proof {
            reveal_with_fuel(pow10, 2);
            assert(p * (10 * pow10((PERCENT_PLACES - done - 1) as nat)) == (p * 10) * pow10(
                (PERCENT_PLACES - done - 1) as nat,
            )) by (nonlinear_arith);
            assert(pow10((PERCENT_PLACES - done - 1) as nat) >= 1) by {
                lemma_pow10_positive((PERCENT_PLACES - done - 1) as nat);
            }
            assert(p * 10 <= (p * 10) * pow10((PERCENT_PLACES - done - 1) as nat))
                by (nonlinear_arith)
                requires
                    pow10((PERCENT_PLACES - done - 1) as nat) >= 1,
            ;
        }
        p = p * 10;
        done = done + 1;
    }
    proof {
        lemma_pow10_positive(done as nat);
        lemma_pow10_positive((PERCENT_PLACES - done) as nat);
        assert(p <= p * pow10((PERCENT_PLACES - done) as nat)) by (nonlinear_arith)
            requires
                pow10((PERCENT_PLACES - done) as nat) >= 1,
        ;
    }
    p
}

/// A power of ten is at least one.
pub proof fn lemma_pow10_positive(e: nat)
    ensures
        pow10(e) >= 1,
    decreases e,
{
    if e > 0 {
        lemma_pow10_positive((e - 1) as nat);
    }
}

impl FanPower {
    /// The duty level as a number.
    pub closed spec fn level(self) -> nat {
        self.0 as nat
    }

    /// The level that is applied whenever the intended one cannot be
    /// determined: the fan runs at full speed.
    pub fn full_speed() -> (power: Self)
        ensures
            power.level() == 255,
    {
        FanPower(255u8)
    }

    /// The duty level as a number.
    pub fn value(&self) -> (level: u8)
        ensures
            level == self.level(),
    {
        self.0
    }

    /// The decimal text that a duty-cycle file takes: `114` for level 114.
    pub fn decimal(&self) -> (text: Vec<u8>)
        ensures
            text@ == digits(self.level()),
    {
        to_digits(self.0 as u64)
    }

    /// The text that `spec` asks for, before it is laid out in its field.
    pub open spec fn body(self, spec: FormatSpec) -> Seq<char> {
        if spec.alternate {
            label_text(self.level())
        } else {
            percent_text(
                self.level(),
                match spec.precision {
                    Some(p) => p as nat,
                    None => 1,
                },
            )
        }
    }

    /// The diagnostic form of the level.
    fn label(&self) -> (text: String)
        ensures
            text@ == label_text(self.level()),
    {
        let mut text = String::from_str("FanPower(");
        let number = to_digits(self.0 as u64);
        push_ascii(&mut text, &number);
        push_char(&mut text, ')');
        text
    }

    /// The level as a percentage of full speed.
    fn percent(&self, precision: usize) -> (text: String)
        ensures
            text@ == percent_text(self.level(), precision as nat),
    {
        let places: usize = if precision <= PERCENT_PLACES {
            precision
        } else {
            PERCENT_PLACES
        };
        let unit = power_of_ten(places);
        assert(200 * self.0 as nat * unit as nat <= 200 * 255 * 100_000_000_000_000)
            by (nonlinear_arith)
            requires
                self.0 <= 255,
                unit <= 100_000_000_000_000,
        ;
        let scaled: u64 = (200 * (self.0 as u64) * unit + 255) / 510;
        let mut text = String::new();
        let whole = to_digits(scaled / unit);
        push_ascii(&mut text, &whole);
        if precision > 0 {
            push_char(&mut text, '.');
            let fraction = to_fixed_digits(scaled, places);
            push_ascii(&mut text, &fraction);
            crate::text::push_filler(&mut text, '0', precision - places);
        }
        push_char(&mut text, '%');
        assert(text@ =~= percent_text(self.level(), precision as nat));
        text
    }

    /// The textual form of the level. In the ordinary form it is the
    /// percentage of full speed, with one digit after the point unless
    /// `spec.precision` says otherwise; in the alternate form it is the raw
    /// level. Either is then laid out in a field of `spec.width` characters.
    pub fn format(&self, spec: &FormatSpec) -> (text: String)
        ensures
            text@ == padded(self.body(*spec), *spec),
    {
        let body = if spec.alternate {
            self.label()
        } else {
            let precision: usize = match spec.precision {
                Some(p) => p,
                None => 1,
            };
            self.percent(precision)
        };
        pad(body.as_str(), spec)
    }

    /// The percentage of full speed with one digit after the point: `49.8%`.
    pub fn to_string(&self) -> (text: String)
        ensures
            text@ == percent_text(self.level(), 1),
    {
        self.percent(1)
    }
}

impl From<u8> for FanPower {
    fn from(value: u8) -> (power: Self) {
        FanPower(value)
    }
}

impl vstd::std_specs::convert::FromSpecImpl<u8> for FanPower {
    open spec fn obeys_from_spec() -> bool {
        true
    }

    closed spec fn from_spec(value: u8) -> Self {
        FanPower(value)
    }
}

/// Every level has a power, and the conversion keeps the level.
pub proof fn lemma_from_level(value: u8)
    ensures
        <FanPower as vstd::std_specs::convert::FromSpec<u8>>::from_spec(value).level() == value,
{
}

/// The percentage runs from nothing at level 0 to a hundred at full speed.
pub proof fn lemma_percent_ends(places: nat)
    ensures
        percent_scaled(0, places) == 0,
        percent_scaled(255, places) == 100 * pow10(places),
{
    lemma_pow10_positive(places);
    let p = pow10(places);
    assert(200 * 255 * p + 255 == 510 * (100 * p) + 255) by (nonlinear_arith);
    assert((510 * (100 * p) + 255) / 510 == 100 * p) by (nonlinear_arith);
    assert(200 * 0 * p == 0) by (nonlinear_arith);
}

} // verus!

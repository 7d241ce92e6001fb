//! Temperature sensors.

use crate::binary32::{from_integer, multiply, nearest, product, to_double, widened};
use crate::source::nvidia::NvidiaError;
use crate::text::{pad, padded, push_char, FormatSpec};
use vstd::prelude::*;
use vstd::string::*;

pub mod file;
pub mod nvidia;

verus! {

/// A temperature in degrees Celsius, kept as the 32-bit pattern of a
/// single-precision number. Two temperatures are the same reading exactly
/// when their patterns are equal.
#[derive(Clone, Copy, Debug, PartialEq, Eq, Structural)]
pub struct Temperature(u32);

impl Temperature {
    /// The 32-bit pattern of the Celsius value.
    pub closed spec fn bits(self) -> u32 {
        self.0
    }

    /// The temperature whose Celsius value has the pattern `bits`.
    pub fn from_celsius(bits: u32) -> (t: Self)
        ensures
            t.bits() == bits,
    {
        Temperature(bits)
    }

    /// The 32-bit pattern of the Celsius value.
    pub fn celsius(self) -> (bits: u32)
        ensures
            bits == self.bits(),
    {
        self.0
    }

    /// The temperature of a whole number of degrees: the single nearest to
    /// the number, which is the number itself up to 16777216.
    pub fn from_degrees(degrees: u32) -> (t: Self)
        ensures
            t.bits() == nearest(degrees as nat, 0),
    {
        Temperature(from_integer(degrees))
    }

    /// The temperature that a raw reading stands for under a scale: the
    /// reading as a single, multiplied by the single with the pattern
    /// `factor`.
    pub fn scaled(raw: u32, factor: u32) -> (t: Self)
        ensures
            t.bits() == product(nearest(raw as nat, 0), factor),
    {
        Temperature(multiply(from_integer(raw), factor))
    }

    /// The 64-bit pattern of the Celsius value as a double, which is what a
    /// formula computes with.
    pub fn celsius_double(self) -> (double: u64)
        ensures
            double == widened(self.bits()),
    {
        to_double(self.0)
    }

    /// Number of digits after the decimal point in the textual form of a
    /// temperature: two, unless `spec` says otherwise.
    pub fn precision(spec: &FormatSpec) -> (digits: usize)
        ensures
            digits == match spec.precision {
                Some(p) => p,
                None => 2,
            },
    {
        match spec.precision {
            Some(p) => p,
            None => 2,
        }
    }

    /// The text for a temperature whose Celsius value is written `number`,
    /// before it is laid out in its field: the number with its unit, or, in
    /// the alternate form, the number under the type's name.
    pub open spec fn body(number: Seq<char>, spec: FormatSpec) -> Seq<char> {
        if spec.alternate {
            ("Temperature("@ + number).push(')')
        } else {
            number + "\u{b0}C"@
        }
    }

    /// The textual form of a temperature whose Celsius value is written
    /// `number`: the number, the degree sign and `C`, or `Temperature(45)`
    /// in the alternate form, laid out in a field of `spec.width` characters.
    pub fn format(number: &str, spec: &FormatSpec) -> (text: String)
        ensures
            text@ == padded(Self::body(number@, *spec), *spec),
    {
        let body = if spec.alternate {
            let mut body = String::from_str("Temperature(");
            body.append(number);
            push_char(&mut body, ')');
            body
        } else {
            let mut body = String::from_str(number);
            body.append("\u{b0}C");
            body
        };
        pad(body.as_str(), spec)
    }
}

/// Why a sensor gave no temperature.
#[derive(Debug)]
pub enum SourceError {
    /// The sensor could not be opened or read; the text is the operating
    /// system's message.
    Io(String),
    /// What was read is not a number in the expected form.
    Parse,
    /// The vendor's driver answered with a failure status; the text is the
    /// driver's own message for that status.
    Driver(NvidiaError, String),
    /// The device that the sensor belongs to is not there.
    DeviceNotFound,
}

/// Something that a temperature can be read from.
pub trait Source {
    fn try_get_temperature(&self) -> Result<Temperature, SourceError>;
}

impl SourceError {
    /// The failure in words.
    pub open spec fn message_text(self) -> Seq<char> {
        match self {
            SourceError::Io(message) => message@,
            SourceError::Parse => "the reading is not a number"@,
            SourceError::Driver(_, message) => message@,
            SourceError::DeviceNotFound => "device not found"@,
        }
    }

    /// The failure in words: the operating system's message, the driver's
    /// message, or what went wrong with the reading.
    pub fn message(&self) -> (text: String)
        ensures
            text@ == self.message_text(),
    {
        match self {
            SourceError::Io(message) => message.clone(),
            SourceError::Parse => String::from_str("the reading is not a number"),
            SourceError::Driver(_, message) => message.clone(),
            SourceError::DeviceNotFound => String::from_str("device not found"),
        }
    }
}

} // verus!

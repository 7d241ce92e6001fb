//! A scalar file as a temperature sensor: a file that holds one number in
//! decimal, such as the sensor files that the kernel offers.

use crate::binary32::{nearest, product};
use crate::decimal::{all_digits, number, parse_digits};
use crate::source::{SourceError, Temperature};
use vstd::prelude::*;
use vstd::slice::slice_subrange;
use vstd::string::*;

verus! {

/// Number of bytes that are read from the start of the file for one reading.
pub const READ_LEN: usize = 10;

/// The scale of a file that counts thousandths of a degree: the 32-bit
/// pattern of the single-precision number 0.001.
pub const DEFAULT_FACTOR_BITS: u32 = 0x3a83_126f;

/// The text without the line feed that may end it.
pub open spec fn without_newline(text: Seq<u8>) -> Seq<u8> {
    if text.len() > 0 && text.last() == 10 {
        text.drop_last()
    } else {
        text
    }
}

/// The text without the plus sign that may start it.
pub open spec fn without_plus(text: Seq<u8>) -> Seq<u8> {
    if text.len() > 0 && text[0] == 43 {
        text.drop_first()
    } else {
        text
    }
}

/// The number that the text of a sensor file stands for: decimal digits,
/// one at least, with at most one plus sign before them and at most one line
/// feed after them, that denote a number of 32 bits. Any other text stands
/// for nothing.
pub open spec fn reading_of(text: Seq<u8>) -> Option<u32> {
    let body = without_plus(without_newline(text));
    if body.len() > 0 && all_digits(body) && number(body) <= u32::MAX {
        Some(number(body) as u32)
    } else {
        None
    }
}

/// Reads the number that the text of a sensor file stands for.
pub fn parse_reading(text: &[u8]) -> (reading: Option<u32>)
    ensures
        reading == reading_of(text@),
{
    let mut end = text.len();
    if end > 0 && text[end - 1] == 10 {
        end = end - 1;
    }
    let mut start: usize = 0;
    if end > 0 && text[0] == 43 {
        start = 1;
    }
    let body = slice_subrange(text, start, end);
    assert(body@ =~= without_plus(without_newline(text@)));
    parse_digits(body)
}

/// How the attempt to read the file went.
#[derive(Debug)]
pub enum FileOutcome {
    /// The file had to be opened and could not be; the text is the
    /// operating system's message.
    OpenFailed(String),
    /// The file is open, but moving to its start or reading failed.
    ReadFailed(String),
    /// What was read from the start of the file.
    Read(Vec<u8>),
}

/// What an attempt to read the file gives, and whether the file stays open
/// after it. The file stays open after a reading, and only then; the result
/// does not depend on what happened at earlier attempts.
pub open spec fn attempt(outcome: FileOutcome) -> (Result<u32, SourceError>, bool) {
    match outcome {
        FileOutcome::OpenFailed(message) => (Err(SourceError::Io(message)), false),
        FileOutcome::ReadFailed(message) => (Err(SourceError::Io(message)), false),
        FileOutcome::Read(text) => match reading_of(text@) {
            Some(raw) => (Ok(raw), true),
            None => (Err(SourceError::Parse), false),
        },
    }
}

/// A sensor that is read from a scalar file. The file is kept open between
/// readings. After any failure it counts as closed, and the next reading
/// starts by opening it again: a file that was taken away and has come back
/// is read again.
#[derive(Debug)]
pub struct SourceFile {
    file_path: String,
    open: bool,
    factor: u32,
}

impl SourceFile {
    /// The path of the file.
    pub closed spec fn path(&self) -> Seq<char> {
        self.file_path@
    }

    /// Whether the file counts as open.
    pub closed spec fn is_open(&self) -> bool {
        self.open
    }

    /// The 32-bit pattern of the number that a raw reading is multiplied by
    /// to give degrees Celsius.
    pub closed spec fn factor(&self) -> u32 {
        self.factor
    }

    /// The sensor for a file that has just been opened. Without a factor of
    /// its own the file counts thousandths of a degree.
    pub fn new(path: &str, factor: Option<u32>) -> (source: Self)
        ensures
            source.path() == path@,
            source.is_open(),
            source.factor() == match factor {
                Some(bits) => bits,
                None => DEFAULT_FACTOR_BITS,
            },
    {
        SourceFile {
            file_path: String::from_str(path),
            open: true,
            factor: match factor {
                Some(bits) => bits,
                None => DEFAULT_FACTOR_BITS,
            },
        }
    }

    /// The path of the file.
    pub fn file_path(&self) -> (path: &str)
        ensures
            path@ == self.path(),
    {
        self.file_path.as_str()
    }

    /// The 32-bit pattern of the scale.
    pub fn factor_bits(&self) -> (bits: u32)
        ensures
            bits == self.factor(),
    {
        self.factor
    }

    /// Whether the file has to be opened before it can be read.
    pub fn needs_open(&self) -> (needed: bool)
        ensures
            needed == !self.is_open(),
    {
        !self.open
    }

    /// The raw reading, from how the attempt to read the file went. The
    /// file counts as open afterwards exactly when the attempt gave a
    /// reading.
    pub fn file_read(&mut self, outcome: FileOutcome) -> (result: Result<u32, SourceError>)
        ensures
            result == attempt(outcome).0,
            final(self).is_open() == attempt(outcome).1,
            final(self).path() == old(self).path(),
            final(self).factor() == old(self).factor(),
    {
        let result = match outcome {
            FileOutcome::OpenFailed(message) => Err(SourceError::Io(message)),
            FileOutcome::ReadFailed(message) => Err(SourceError::Io(message)),
            FileOutcome::Read(text) => match parse_reading(text.as_slice()) {
                Some(raw) => Ok(raw),
                None => Err(SourceError::Parse),
            },
        };
        self.open = result.is_ok();
        result
    }

    /// The temperature, from how the attempt to read the file went: the raw
    /// reading multiplied by the scale of the file. The file counts as open
    /// afterwards exactly when the attempt gave a reading.
    pub fn try_get_temperature(&mut self, outcome: FileOutcome) -> (result: Result<
        Temperature,
        SourceError,
    >)
        ensures
            match attempt(outcome).0 {
                Ok(raw) => result matches Ok(t) && t.bits() == product(
                    nearest(raw as nat, 0),
                    old(self).factor(),
                ),
                Err(e) => result == Err::<Temperature, SourceError>(e),
            },
            final(self).is_open() == attempt(outcome).1,
            final(self).path() == old(self).path(),
            final(self).factor() == old(self).factor(),
    {
        match self.file_read(outcome) {
            Ok(raw) => Ok(Temperature::scaled(raw, self.factor)),
            Err(e) => Err(e),
        }
    }
}

/// A failure is never permanent: after a failed attempt the file counts as
/// closed, so the next attempt opens it again, and an attempt that reads a
/// well-formed text gives its number whatever happened before.
pub proof fn lemma_failure_is_not_permanent(failed: FileOutcome, text: Vec<u8>, raw: u32)
    requires
        attempt(failed).0 is Err,
        reading_of(text@) == Some(raw),
    ensures
        !attempt(failed).1,
        attempt(FileOutcome::Read(text)) == (Ok::<u32, SourceError>(raw), true),
{
}

/// A text of digits with a line feed after it stands for the number that
/// the digits denote.
pub proof fn lemma_line_of_digits(body: Seq<u8>)
    requires
        body.len() > 0,
        all_digits(body),
        number(body) <= u32::MAX,
    ensures
        reading_of(body.push(10)) == Some(number(body) as u32),
        reading_of(body) == Some(number(body) as u32),
{
    let line = body.push(10);
    assert(line.drop_last() =~= body);
    assert(body[0] != 43);
    assert(body.last() != 10);
}

} // verus!

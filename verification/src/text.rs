//! Laying out a rendered value inside a field of a given width.

use vstd::prelude::*;
use vstd::string::*;

verus! {

/// Where a text stands inside a field that is wider than the text.
#[derive(Clone, Copy, Debug, PartialEq, Eq, Structural)]
pub enum Alignment {
    Left,
    Center,
    Right,
}

/// The options that shape the textual form of a value.
#[derive(Clone, Copy, Debug)]
pub struct FormatSpec {
    /// Ask for the diagnostic form, which names the type and shows the raw value.
    pub alternate: bool,
    /// Number of digits after the decimal point.
    pub precision: Option<usize>,
    /// Least number of characters of the result.
    pub width: Option<usize>,
    /// Side on which the text stands; to the right where none is given.
    pub align: Option<Alignment>,
    /// Character that fills the rest of the field.
    pub fill: char,
}

impl FormatSpec {
    /// No width, no precision, the ordinary form, blanks as filler.
    pub fn plain() -> (spec: Self)
        ensures
            spec == (FormatSpec {
                alternate: false,
                precision: None,
                width: None,
                align: None,
                fill: ' ',
            }),
    {
        FormatSpec { alternate: false, precision: None, width: None, align: None, fill: ' ' }
    }
}

/// Characters still missing to reach `width`, for a text of `len` characters.
pub open spec fn shortfall(width: Option<usize>, len: nat) -> nat {
    match width {
        Some(w) if w as nat >= len => (w as nat - len) as nat,
        _ => 0,
    }
}

/// Number of fill characters before and after a text of `len` characters.
/// A centred text with an odd shortfall gets the extra character in front.
pub open spec fn margins(width: Option<usize>, len: nat, align: Option<Alignment>) -> (nat, nat) {
    let missing = shortfall(width, len);
    match align {
        Some(Alignment::Left) => (0, missing),
        Some(Alignment::Center) => ((missing - missing / 2) as nat, missing / 2),
        _ => (missing, 0),
    }
}

/// `count` copies of `fill`.
pub open spec fn filler(fill: char, count: nat) -> Seq<char> {
    Seq::new(count, |i: int| fill)
}

/// The text `body` laid out as `spec` asks.
pub open spec fn padded(body: Seq<char>, spec: FormatSpec) -> Seq<char> {
    let (left, right) = margins(spec.width, body.len(), spec.align);
    filler(spec.fill, left) + body + filler(spec.fill, right)
}

/// `String::push`: the character is appended at the end of the text.
#[verifier::external_body]
pub(crate) fn push_char(text: &mut String, c: char)
    ensures
        final(text)@ == old(text)@.push(c),
{
    text.push(c);
}

/// ASCII bytes read as characters.
pub open spec fn as_chars(bytes: Seq<u8>) -> Seq<char> {
    Seq::new(bytes.len(), |i: int| bytes[i] as char)
}

/// Appends ASCII bytes to a text, each as one character.
pub(crate) fn push_ascii(text: &mut String, bytes: &Vec<u8>)
    ensures
        final(text)@ == old(text)@ + as_chars(bytes@),
{
    let mut at: usize = 0;
    while at < bytes.len()
        invariant
            at <= bytes.len(),
            text@ == old(text)@ + as_chars(bytes@.take(at as int)),
        decreases bytes.len() - at,
    {
        push_char(text, bytes[at] as char);
        at = at + 1;
        assert(text@ =~= old(text)@ + as_chars(bytes@.take(at as int)));
    }
    assert(bytes@.take(at as int) =~= bytes@);
}

/// Appends `count` copies of `fill` to `text`.
pub(crate) fn push_filler(text: &mut String, fill: char, count: usize)
    ensures
        final(text)@ == old(text)@ + filler(fill, count as nat),
{
    let mut done: usize = 0;
    while done < count
        invariant
            done <= count,
            text@ == old(text)@ + filler(fill, done as nat),
        decreases count - done,
    {
        push_char(text, fill);
        done = done + 1;
        assert(text@ =~= old(text)@ + filler(fill, done as nat));
    }
}

/// Lays `body` out in a field of `spec.width` characters: the missing
/// characters are made up with `spec.fill`, on the side that `spec.align`
/// leaves free. A text that is already as long as the field is kept as it is.
pub fn pad(body: &str, spec: &FormatSpec) -> (text: String)
    ensures
        text@ == padded(body@, *spec),
{
    let len = body.unicode_len();
    let missing: usize = match spec.width {
        Some(w) if w >= len => w - len,
        _ => 0,
    };
    let (left, right): (usize, usize) = match spec.align {
        Some(Alignment::Left) => (0, missing),
        Some(Alignment::Center) => (missing - missing / 2, missing / 2),
        _ => (missing, 0),
    };
    let mut text = String::new();
    push_filler(&mut text, spec.fill, left);
    text.append(body);
    push_filler(&mut text, spec.fill, right);
    assert(text@ =~= padded(body@, *spec));
    text
}

/// The result is never shorter than the field, and never shorter than the text.
pub proof fn lemma_padded_len(body: Seq<char>, spec: FormatSpec)
    ensures
        padded(body, spec).len() == body.len() + shortfall(spec.width, body.len()),
        spec.width is Some ==> padded(body, spec).len() >= spec.width->0,
        spec.width is None ==> padded(body, spec) == body,
{
    let (left, right) = margins(spec.width, body.len(), spec.align);
    assert(left + right == shortfall(spec.width, body.len()));
    if spec.width is None {
        assert(padded(body, spec) =~= body);
    }
}

} // verus!

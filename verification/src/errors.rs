//! Error types.
use crate::text::{decode_utf8, from_utf8, valid_utf8};
use vstd::prelude::*;
use vstd::slice::slice_to_vec;

verus! {

/// The stage of the tokenizer that gave up.
///
/// The variants carry the names of the `nom::error::ErrorKind` codes that a
/// parser built from nom's combinators reports in the same places, so that a
/// caller can map one to the other.
#[derive(Clone, Copy, Debug, PartialEq, Eq, Structural)]
pub enum ErrorKind {
    /// A delimiter was expected and not found: the `[` or `]` of a header, or
    /// the `=` of an attribute line.
    Tag,
    /// A header with nothing between `[` and `]`.
    TakeTill1,
    /// An attribute line was expected where a section header begins.
    Complete,
}

/// A failure of the tokenizer: the input that was left when it gave up, and
/// the stage that gave up.
#[derive(Clone, Copy, Debug, PartialEq, Eq)]
pub struct SyntaxError<'a> {
    /// The input from the point of failure on.
    pub input: &'a [u8],
    /// The stage that failed.
    pub code: ErrorKind,
}

/// What a [`SyntaxError`] says, without the borrow.
pub struct SpecError {
    pub input: Seq<u8>,
    pub code: ErrorKind,
}

impl<'a> View for SyntaxError<'a> {
    type V = SpecError;

    open spec fn view(&self) -> SpecError {
        SpecError { input: self.input@, code: self.code }
    }
}

/// The remaining input from the parser. Useful for debugging to see where the
/// parser failed. It is `Valid` if the remaining input was valid UTF-8 and
/// `Invalid` if it was not.
#[derive(Debug, PartialEq, Eq)]
pub enum ErrorBytes {
    /// Input was a valid string
    Valid(String),
    /// Input was not a valid string
    Invalid(Vec<u8>),
}

impl ErrorBytes {
    /// `self` renders `input`: as text where `input` is UTF-8, as the bytes
    /// themselves where it is not.
    pub open spec fn renders(&self, input: Seq<u8>) -> bool {
        match self {
            ErrorBytes::Valid(s) => valid_utf8(input) && s@ == decode_utf8(input),
            ErrorBytes::Invalid(v) => !valid_utf8(input) && v@ == input,
        }
    }

    /// Renders `input` for an error report.
    pub fn new(input: &[u8]) -> (r: ErrorBytes)
        ensures
            r.renders(input@),
    {
        match from_utf8(input) {
            Ok(s) => ErrorBytes::Valid(s.to_owned()),
            Err(_) => ErrorBytes::Invalid(slice_to_vec(input)),
        }
    }
}

/// An error that occurred while parsing. This is the general error type for
/// this library.
#[derive(Debug, PartialEq, Eq)]
pub enum ParseError {
    /// The input does not follow the grammar of entry files.
    Other {
        /// Remaining input when the error occurred
        at: ErrorBytes,
        /// Stage of the tokenizer that failed
        kind: ErrorKind,
    },
    /// The input ended where more was needed. The tokenizer works on whole
    /// buffers and reports a missing delimiter as [`ParseError::Other`], so no
    /// function of this crate returns this variant.
    Incomplete,
    /// A title, name, value or parameter is not UTF-8.
    Utf8Error {
        /// The bytes that are not UTF-8
        bytes: Vec<u8>,
        /// What the decoder said of them
        source: core::str::Utf8Error,
    },
}

impl ParseError {
    /// `self` reports the tokenizer failure `e`.
    pub open spec fn reports(&self, e: SpecError) -> bool {
        self matches ParseError::Other { at, kind } && *kind == e.code && at.renders(e.input)
    }

    /// `self` reports that `bytes` are not UTF-8.
    pub open spec fn rejects(&self, bytes: Seq<u8>) -> bool {
        self matches ParseError::Utf8Error { bytes: b, .. } && b@ == bytes
    }
}

impl<'a> From<SyntaxError<'a>> for ParseError {
    /// Turns a failure of the tokenizer into the library's error, rendering the
    /// input that was left.
    fn from(e: SyntaxError<'a>) -> (r: ParseError)
        ensures
            r.reports(e@),
    {
        ParseError::Other { at: ErrorBytes::new(e.input), kind: e.code }
    }
}

/// The conversion is specified by the `ensures` of `from`, as a relation: an
/// error holds a `String` and a `Vec`, of which contracts know the contents
/// only, so that no spec function can name the one error that `from` returns.
impl<'a> vstd::std_specs::convert::FromSpecImpl<SyntaxError<'a>> for ParseError {
    open spec fn obeys_from_spec() -> bool {
        false
    }

    open spec fn from_spec(e: SyntaxError<'a>) -> ParseError {
        arbitrary()
    }
}

} // verus!

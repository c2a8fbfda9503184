//! Tokens, header fields, and the outcome and error model shared by every
//! grammar of the parser.

use vstd::prelude::*;

verus! {

/// Why a parse attempt failed: one kind per grammar position, so a caller can
/// report precise diagnostics. An error is permanent: no further bytes can
/// turn the buffer into a well-formed preamble.
#[derive(Clone, Copy, Debug, PartialEq, Eq, Structural)]
pub enum ParseError {
    InvalidMethod,
    InvalidPath,
    InvalidVersion,
    InvalidStatusCode,
    InvalidReasonPhrase,
    InvalidFieldName,
    InvalidFieldValue,
    InvalidNewLine,
}

/// A half-open index range `[start, end)` of the caller's buffer. The parser
/// copies no text: every piece of a parsed message is handed back as such a
/// range into the very buffer that was parsed.
#[derive(Clone, Copy, Debug, PartialEq, Eq, Structural)]
pub struct Token {
    pub start: usize,
    pub end: usize,
}

/// The bytes a token denotes within the buffer it was parsed from.
pub open spec fn token_bytes(s: Seq<u8>, t: Token) -> Seq<u8> {
    s.subrange(t.start as int, t.end as int)
}

/// One `name:value` header line, in buffer order. Repeated names are kept as
/// separate fields, never merged.
#[derive(Clone, Copy, Debug, PartialEq, Eq, Structural)]
pub struct HeaderField {
    pub name: Token,
    pub value: Token,
}

/// The success-shaped half of a parse result. `Incomplete` is not a failure:
/// the bytes seen so far form a valid prefix and the caller should retry with
/// a longer buffer. A hard error is reported separately, as an `Err`.
#[derive(Clone, Copy, Debug, PartialEq, Eq)]
pub enum Outcome<M> {
    Complete(M),
    Incomplete,
}

impl<M> Outcome<M> {
    /// True when the buffer was a valid prefix that needs more bytes.
    pub fn is_incomplete(&self) -> (b: bool)
        ensures
            b == (*self is Incomplete),
    {
        match self {
            Outcome::Incomplete => true,
            Outcome::Complete(_) => false,
        }
    }

    /// True when a full preamble was parsed.
    pub fn is_complete(&self) -> (b: bool)
        ensures
            b == (*self is Complete),
    {
        match self {
            Outcome::Incomplete => false,
            Outcome::Complete(_) => true,
        }
    }
}

} // verus!

//! The status-line grammar and response parsing:
//! `"HTTP/" DIGIT "." DIGIT SP 3DIGIT SP reason eol`, then the header section.

use vstd::prelude::*;
use vstd::slice::slice_index_get;
use crate::chars::SP;
use crate::headers::{headers_at, spec_headers, SpecHeaders};
use crate::line::{parse_eol, parse_http_literal, parse_http_version, parse_status, spec_eol,
    spec_http_literal, spec_status, spec_status_code, spec_version, status_value, SpecStep, Step};
use crate::scan::{read_until, scan_res, ScanKind, ScanStep, SpecScan};
use crate::types::{HeaderField, Outcome, ParseError, Token};

verus! {

/// A parsed response preamble: the version token (the `DIGIT "." DIGIT` pair
/// after `HTTP/`), the numeric status code as scanned from its three digits,
/// and the reason-phrase token, which may be empty. The header fields stand,
/// in buffer order, in the list the caller handed to `parse`.
#[derive(Clone, Copy, Debug, PartialEq, Eq, Structural)]
pub struct Response {
    pub version: Token,
    pub status: u16,
    pub reason: Token,
}

/// What a buffer parses to as a response preamble. `Done(resp, fields, end)`:
/// the tokens, the header fields in buffer order, and the index just past the
/// blank line; bytes from `end` on are the message body and are never read.
pub enum SpecResponse {
    Done(Response, Seq<HeaderField>, int),
    More,
    Fail(ParseError),
}

/// The status-line grammar: the literal `HTTP/`, the version pair, a single
/// space, exactly three digits and a single space, a possibly empty
/// `field_char` reason phrase, a line terminator, then the header section.
pub open spec fn spec_response(s: Seq<u8>) -> SpecResponse {
    match spec_http_literal(s, 0) {
        SpecStep::More => SpecResponse::More,
        SpecStep::Fail => SpecResponse::Fail(ParseError::InvalidVersion),
        SpecStep::Done(v) => match spec_version(s, v) {
            SpecStep::More => SpecResponse::More,
            SpecStep::Fail => SpecResponse::Fail(ParseError::InvalidVersion),
            SpecStep::Done(w) => if w >= s.len() {
                SpecResponse::More
            } else if s[w] != SP {
                SpecResponse::Fail(ParseError::InvalidVersion)
            } else {
                match spec_status(s, w + 1) {
                    SpecStep::More => SpecResponse::More,
                    SpecStep::Fail => SpecResponse::Fail(ParseError::InvalidStatusCode),
                    SpecStep::Done(t) => match scan_res(s, t, ScanKind::Text) {
                        SpecScan::End => SpecResponse::More,
                        SpecScan::Bad => SpecResponse::Fail(ParseError::InvalidReasonPhrase),
                        SpecScan::Found(q) => match spec_eol(s, q) {
                            SpecStep::More => SpecResponse::More,
                            SpecStep::Fail => SpecResponse::Fail(ParseError::InvalidNewLine),
                            SpecStep::Done(h) => match spec_headers(s, h) {
                                SpecHeaders::More => SpecResponse::More,
                                SpecHeaders::Fail(x) => SpecResponse::Fail(x),
                                SpecHeaders::Done(hs, e) => SpecResponse::Done(
                                    Response {
                                        version: Token { start: v as usize, end: w as usize },
                                        status: spec_status_code(s, w + 1),
                                        reason: Token { start: t as usize, end: q as usize },
                                    },
                                    hs,
                                    e,
                                ),
                            },
                        },
                    },
                }
            },
        },
    }
}

impl Response {
    /// Parse a response preamble standing at the start of `buf`, appending
    /// each header field to `headers`. Complete carries the tokens and the
    /// status code; Incomplete asks the caller to retry with a longer buffer;
    /// an error names the token that can never become valid. On anything but
    /// Complete, `headers` is left exactly as it was handed in.
    pub fn parse(buf: &[u8], headers: &mut Vec<HeaderField>) -> (r: Result<
        Outcome<Response>,
        ParseError,
    >)
        ensures
            match spec_response(buf@) {
                SpecResponse::Done(resp, hs, e) => r == Ok::<Outcome<Response>, ParseError>(
                    Outcome::Complete(resp),
                ) && final(headers)@ == old(headers)@ + hs,
                SpecResponse::More => r == Ok::<Outcome<Response>, ParseError>(Outcome::Incomplete)
                    && final(headers)@ == old(headers)@,
                SpecResponse::Fail(x) => r == Err::<Outcome<Response>, ParseError>(x) && final(headers)@ == old(headers)@,
            },
    {
        proof {
            vstd::slice::axiom_spec_len(buf);
        }
        let v = match parse_http_literal(buf, 0) {
            Step::More => {
                return Ok(Outcome::Incomplete);
            },
            Step::Fail => {
                return Err(ParseError::InvalidVersion);
            },
            Step::Done(v) => v,
        };
        let w = match parse_http_version(buf, v) {
            Step::More => {
                return Ok(Outcome::Incomplete);
            },
            Step::Fail => {
                return Err(ParseError::InvalidVersion);
            },
            Step::Done(w) => w,
        };
        if w == buf.len() {
            return Ok(Outcome::Incomplete);
        }
        if *slice_index_get(buf, w) != SP {
            return Err(ParseError::InvalidVersion);
        }
        let t = match parse_status(buf, w + 1) {
            Step::More => {
                return Ok(Outcome::Incomplete);
            },
            Step::Fail => {
                return Err(ParseError::InvalidStatusCode);
            },
            Step::Done(t) => t,
        };
        let status = status_value(buf, w + 1);
        let q = match read_until(buf, t, ScanKind::Text) {
            ScanStep::End => {
                return Ok(Outcome::Incomplete);
            },
            ScanStep::Bad => {
                return Err(ParseError::InvalidReasonPhrase);
            },
            ScanStep::Found(q) => q,
        };
        let h = match parse_eol(buf, q) {
            Step::More => {
                return Ok(Outcome::Incomplete);
            },
            Step::Fail => {
                return Err(ParseError::InvalidNewLine);
            },
            Step::Done(h) => h,
        };
        match headers_at(buf, h, headers) {
            Ok(Outcome::Complete(_)) => Ok(Outcome::Complete(Response {
                version: Token { start: v, end: w },
                status,
                reason: Token { start: t, end: q },
            })),
            Ok(Outcome::Incomplete) => Ok(Outcome::Incomplete),
            Err(x) => Err(x),
        }
    }
}

} // verus!

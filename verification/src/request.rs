//! The request-line grammar and request parsing:
//! `method SP target SP "HTTP/" DIGIT "." DIGIT eol`, then the header section.

use vstd::prelude::*;
use crate::headers::{headers_at, spec_headers, SpecHeaders};
use crate::line::{parse_eol, parse_http_literal, parse_http_version, spec_eol, spec_http_literal,
    spec_version, SpecStep, Step};
use crate::scan::{parse_token, scan_res, ScanKind, ScanStep, SpecScan};
use crate::types::{HeaderField, Outcome, ParseError, Token};

verus! {

/// A parsed request preamble: the method, target and version tokens, each an
/// index range of the buffer that was parsed. The version token covers the
/// `DIGIT "." DIGIT` pair after `HTTP/`. The header fields stand, in buffer
/// order, in the list the caller handed to `parse`.
#[derive(Clone, Copy, Debug, PartialEq, Eq, Structural)]
pub struct Request {
    pub method: Token,
    pub target: Token,
    pub version: Token,
}

/// What a buffer parses to as a request preamble. `Done(req, fields, end)`:
/// the tokens, the header fields in buffer order, and the index just past the
/// blank line; bytes from `end` on are the message body and are never read.
pub enum SpecRequest {
    Done(Request, Seq<HeaderField>, int),
    More,
    Fail(ParseError),
}

/// The request grammar: a nonempty `tchar` method ended by a space, a
/// nonempty `tchar` target ended by a space, the literal `HTTP/`, the version
/// pair, a line terminator, then the header section. The first offending byte
/// decides the error; a buffer that ends while still matching is a prefix.
pub open spec fn spec_request(s: Seq<u8>) -> SpecRequest {
    match scan_res(s, 0, ScanKind::Token) {
        SpecScan::End => SpecRequest::More,
        SpecScan::Bad => SpecRequest::Fail(ParseError::InvalidMethod),
        SpecScan::Found(j) => if j == 0 {
            SpecRequest::Fail(ParseError::InvalidMethod)
        } else {
            match scan_res(s, j + 1, ScanKind::Token) {
                SpecScan::End => SpecRequest::More,
                SpecScan::Bad => SpecRequest::Fail(ParseError::InvalidPath),
                SpecScan::Found(k) => if k == j + 1 {
                    SpecRequest::Fail(ParseError::InvalidPath)
                } else {
                    match spec_http_literal(s, k + 1) {
                        SpecStep::More => SpecRequest::More,
                        SpecStep::Fail => SpecRequest::Fail(ParseError::InvalidVersion),
                        SpecStep::Done(v) => match spec_version(s, v) {
                            SpecStep::More => SpecRequest::More,
                            SpecStep::Fail => SpecRequest::Fail(ParseError::InvalidVersion),
                            SpecStep::Done(w) => match spec_eol(s, w) {
                                SpecStep::More => SpecRequest::More,
                                SpecStep::Fail => SpecRequest::Fail(ParseError::InvalidNewLine),
                                SpecStep::Done(h) => match spec_headers(s, h) {
                                    SpecHeaders::More => SpecRequest::More,
                                    SpecHeaders::Fail(x) => SpecRequest::Fail(x),
                                    SpecHeaders::Done(hs, e) => SpecRequest::Done(
                                        Request {
                                            method: Token { start: 0, end: j as usize },
                                            target: Token {
                                                start: (j + 1) as usize,
                                                end: k as usize,
                                            },
                                            version: Token { start: v as usize, end: w as usize },
                                        },
                                        hs,
                                        e,
                                    ),
                                },
                            },
                        },
                    }
                },
            }
        },
    }
}

impl Request {
    /// Parse a request preamble standing at the start of `buf`, appending
    /// each header field to `headers`. Complete carries the tokens;
    /// Incomplete asks the caller to retry with a longer buffer; an error
    /// names the token that can never become valid. On anything but
    /// Complete, `headers` is left exactly as it was handed in.
    pub fn parse(buf: &[u8], headers: &mut Vec<HeaderField>) -> (r: Result<
        Outcome<Request>,
        ParseError,
    >)
        ensures
            match spec_request(buf@) {
                SpecRequest::Done(req, hs, e) => r == Ok::<Outcome<Request>, ParseError>(
                    Outcome::Complete(req),
                ) && final(headers)@ == old(headers)@ + hs,
                SpecRequest::More => r == Ok::<Outcome<Request>, ParseError>(Outcome::Incomplete)
                    && final(headers)@ == old(headers)@,
                SpecRequest::Fail(x) => r == Err::<Outcome<Request>, ParseError>(x) && final(headers)@ == old(headers)@,
            },
    {
        proof {
            vstd::slice::axiom_spec_len(buf);
        }
        let j = match parse_token(buf, 0) {
            ScanStep::End => {
                return Ok(Outcome::Incomplete);
            },
            ScanStep::Bad => {
                return Err(ParseError::InvalidMethod);
            },
            ScanStep::Found(j) => j,
        };
        if j == 0 {
            return Err(ParseError::InvalidMethod);
        }
        let k = match parse_token(buf, j + 1) {
            ScanStep::End => {
                return Ok(Outcome::Incomplete);
            },
            ScanStep::Bad => {
                return Err(ParseError::InvalidPath);
            },
            ScanStep::Found(k) => k,
        };
        if k == j + 1 {
            return Err(ParseError::InvalidPath);
        }
        let v = match parse_http_literal(buf, k + 1) {
            Step::More => {
                return Ok(Outcome::Incomplete);
            },
            Step::Fail => {
                return Err(ParseError::InvalidVersion);
            },
            Step::Done(v) => v,
        };
        let w = match parse_http_version(buf, v) {
            Step::More => {
                return Ok(Outcome::Incomplete);
            },
            Step::Fail => {
                return Err(ParseError::InvalidVersion);
            },
            Step::Done(w) => w,
        };
        let h = match parse_eol(buf, w) {
            Step::More => {
                return Ok(Outcome::Incomplete);
            },
            Step::Fail => {
                return Err(ParseError::InvalidNewLine);
            },
            Step::Done(h) => h,
        };
        match headers_at(buf, h, headers) {
            Ok(Outcome::Complete(_)) => Ok(Outcome::Complete(Request {
                method: Token { start: 0, end: j },
                target: Token { start: j + 1, end: k },
                version: Token { start: v, end: w },
            })),
            Ok(Outcome::Incomplete) => Ok(Outcome::Incomplete),
            Err(x) => Err(x),
        }
    }
}

} // verus!

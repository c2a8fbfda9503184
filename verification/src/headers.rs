//! The header-list grammar: zero or more `name:value` lines, each ended by
//! CRLF or bare LF, closed by a blank line.

use vstd::prelude::*;
use vstd::slice::slice_index_get;
use crate::chars::{CR, LF};
use crate::line::{parse_eol, spec_eol, SpecStep, Step};
use crate::scan::{read_until, scan_res, ScanKind, ScanStep, SpecScan};
use crate::types::{HeaderField, Outcome, ParseError, Token};

verus! {

/// What a header section parses to. `Done(fields, end)`: the fields in buffer
/// order, and the index just past the blank line that closed the section.
/// `More`: the bytes so far are a valid prefix of a header section. `Fail`:
/// the first offending byte decided the error kind.
pub enum SpecHeaders {
    Done(Seq<HeaderField>, int),
    More,
    Fail(ParseError),
}

/// The header-list grammar, from position `i`: a blank line ends the section;
/// otherwise a field name runs to a colon, a field value runs to a line
/// terminator, and the list continues after that terminator.
pub open spec fn spec_headers(s: Seq<u8>, i: int) -> SpecHeaders
    decreases s.len() - i,
{
    if i >= s.len() {
        SpecHeaders::More
    } else if s[i] == LF {
        SpecHeaders::Done(Seq::<HeaderField>::empty(), i + 1)
    } else if s[i] == CR {
        if i + 1 >= s.len() {
            SpecHeaders::More
        } else if s[i + 1] == LF {
            SpecHeaders::Done(Seq::<HeaderField>::empty(), i + 2)
        } else {
            SpecHeaders::Fail(ParseError::InvalidNewLine)
        }
    } else {
        match scan_res(s, i, ScanKind::Name) {
            SpecScan::End => SpecHeaders::More,
            SpecScan::Bad => SpecHeaders::Fail(ParseError::InvalidFieldName),
            SpecScan::Found(j) => if j == i {
                SpecHeaders::Fail(ParseError::InvalidFieldName)
            } else {
                match scan_res(s, j + 1, ScanKind::Text) {
                    SpecScan::End => SpecHeaders::More,
                    SpecScan::Bad => SpecHeaders::Fail(ParseError::InvalidFieldValue),
                    SpecScan::Found(m) => match spec_eol(s, m) {
                        SpecStep::More => SpecHeaders::More,
                        SpecStep::Fail => SpecHeaders::Fail(ParseError::InvalidNewLine),
                        SpecStep::Done(n) => match spec_headers(s, n) {
                            SpecHeaders::More => SpecHeaders::More,
                            SpecHeaders::Fail(x) => SpecHeaders::Fail(x),
                            SpecHeaders::Done(rest, e) => SpecHeaders::Done(
                                seq![
                                    HeaderField {
                                        name: Token { start: i as usize, end: j as usize },
                                        value: Token { start: (j + 1) as usize, end: m as usize },
                                    },
                                ] + rest,
                                e,
                            ),
                        },
                    },
                }
            },
        }
    }
}

/// Parse a header section that starts at `start`, appending each parsed field
/// to `result`. On anything but a completed section, `result` is left exactly
/// as it was handed in.
pub(crate) fn headers_at(buf: &[u8], start: usize, result: &mut Vec<HeaderField>) -> (r: Result<
    Outcome<usize>,
    ParseError,
>)
    requires
        start <= buf@.len(),
    ensures
        match spec_headers(buf@, start as int) {
            SpecHeaders::Done(hs, e) => r == Ok::<Outcome<usize>, ParseError>(
                Outcome::Complete(e as usize),
            ) && final(result)@ == old(result)@ + hs,
            SpecHeaders::More => r == Ok::<Outcome<usize>, ParseError>(Outcome::Incomplete)
                && final(result)@ == old(result)@,
            SpecHeaders::Fail(x) => r == Err::<Outcome<usize>, ParseError>(x) && final(result)@ == old(result)@,
        },
{
    let ghost s = buf@;
    let ghost orig = result@;
    let n0 = result.len();
    let mut i = start;
    loop
        invariant
            i <= buf@.len(),
            s == buf@,
            orig == old(result)@,
            n0 == orig.len(),
            result@.len() >= n0,
            result@.subrange(0, n0 as int) == orig,
            match spec_headers(s, i as int) {
                SpecHeaders::Done(rest, e) => spec_headers(s, start as int) == SpecHeaders::Done(
                    result@.skip(n0 as int) + rest,
                    e,
                ),
                SpecHeaders::More => spec_headers(s, start as int) is More,
                SpecHeaders::Fail(x) => spec_headers(s, start as int) == SpecHeaders::Fail(x),
            },
        decreases s.len() - i,
    {
        if i == buf.len() {
            result.truncate(n0);
            return Ok(Outcome::Incomplete);
        }
        let c = *slice_index_get(buf, i);
        if c == LF {
            proof {
                assert(result@.skip(n0 as int) + Seq::<HeaderField>::empty() =~= result@.skip(
                    n0 as int,
                ));
                assert(orig + result@.skip(n0 as int) =~= result@);
            }
            return Ok(Outcome::Complete(i + 1));
        }
        if c == CR {
            if i + 1 == buf.len() {
                result.truncate(n0);
                return Ok(Outcome::Incomplete);
            }
            if *slice_index_get(buf, i + 1) == LF {
                proof {
                    assert(result@.skip(n0 as int) + Seq::<HeaderField>::empty() =~= result@.skip(
                        n0 as int,
                    ));
                    assert(orig + result@.skip(n0 as int) =~= result@);
                }
                return Ok(Outcome::Complete(i + 2));
            }
            result.truncate(n0);
            return Err(ParseError::InvalidNewLine);
        }
        let j = match read_until(buf, i, ScanKind::Name) {
            ScanStep::End => {
                result.truncate(n0);
                return Ok(Outcome::Incomplete);
            },
            ScanStep::Bad => {
                result.truncate(n0);
                return Err(ParseError::InvalidFieldName);
            },
            ScanStep::Found(j) => j,
        };
        if j == i {
            result.truncate(n0);
            return Err(ParseError::InvalidFieldName);
        }
        let m = match read_until(buf, j + 1, ScanKind::Text) {
            ScanStep::End => {
                result.truncate(n0);
                return Ok(Outcome::Incomplete);
            },
            ScanStep::Bad => {
                result.truncate(n0);
                return Err(ParseError::InvalidFieldValue);
            },
            ScanStep::Found(m) => m,
        };
        let n = match parse_eol(buf, m) {
            Step::More => {
                result.truncate(n0);
                return Ok(Outcome::Incomplete);
            },
            Step::Fail => {
                result.truncate(n0);
                return Err(ParseError::InvalidNewLine);
            },
            Step::Done(n) => n,
        };
        let field = HeaderField {
            name: Token { start: i, end: j },
            value: Token { start: j + 1, end: m },
        };
        let ghost pushed = result@.skip(n0 as int);
        result.push(field);
        proof {
            assert(result@.skip(n0 as int) =~= pushed + seq![field]);
            if let SpecHeaders::Done(rest, e) = spec_headers(s, n as int) {
                assert(spec_headers(s, i as int) == SpecHeaders::Done(seq![field] + rest, e));
                assert((pushed + seq![field]) + rest =~= pushed + (seq![field] + rest));
            }
        }
        i = n;
    }
}

/// Parse a header section standing at the start of `buf`, appending each
/// field to `result`. Complete carries the index just past the blank line
/// that closed the section; on anything but Complete, `result` is left
/// exactly as it was handed in.
pub fn parse_headers(buf: &[u8], result: &mut Vec<HeaderField>) -> (r: Result<
    Outcome<usize>,
    ParseError,
>)
    ensures
        match spec_headers(buf@, 0) {
            SpecHeaders::Done(hs, e) => r == Ok::<Outcome<usize>, ParseError>(
                Outcome::Complete(e as usize),
            ) && final(result)@ == old(result)@ + hs,
            SpecHeaders::More => r == Ok::<Outcome<usize>, ParseError>(Outcome::Incomplete)
                && final(result)@ == old(result)@,
            SpecHeaders::Fail(x) => r == Err::<Outcome<usize>, ParseError>(x) && final(result)@ == old(result)@,
        },
{
    headers_at(buf, 0, result)
}

} // verus!

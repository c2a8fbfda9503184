//! Fixed-shape elements of a start line: the line terminator, the `HTTP/`
//! mark, the one-digit version pair, and the three-digit status code.

use vstd::prelude::*;
use vstd::slice::slice_index_get;
use crate::chars::{digit, CR, DOT, LF, SP};

verus! {

/// What matching a fixed-shape element reports. `Done(n)`: the element is
/// present and the next byte of the grammar stands at `n`. `More`: the buffer
/// ended inside the element while everything seen matched. `Fail`: a byte
/// contradicts the element; no further bytes can mend that.
pub enum SpecStep {
    Done(int),
    More,
    Fail,
}

/// Executable counterpart of `SpecStep`.
#[derive(Clone, Copy, Debug)]
pub enum Step {
    Done(usize),
    More,
    Fail,
}

impl View for Step {
    type V = SpecStep;

    open spec fn view(&self) -> SpecStep {
        match self {
            Step::Done(n) => SpecStep::Done(*n as int),
            Step::More => SpecStep::More,
            Step::Fail => SpecStep::Fail,
        }
    }
}

/// A line terminator at `i`: CRLF or bare LF.
pub open spec fn spec_eol(s: Seq<u8>, i: int) -> SpecStep {
    if i >= s.len() {
        SpecStep::More
    } else if s[i] == LF {
        SpecStep::Done(i + 1)
    } else if s[i] == CR {
        if i + 1 >= s.len() {
            SpecStep::More
        } else if s[i + 1] == LF {
            SpecStep::Done(i + 2)
        } else {
            SpecStep::Fail
        }
    } else {
        SpecStep::Fail
    }
}

/// Match a line terminator, CRLF or bare LF, at `i`.
pub fn parse_eol(buf: &[u8], i: usize) -> (r: Step)
    requires
        i <= buf@.len(),
    ensures
        r@ == spec_eol(buf@, i as int),
{
    if i == buf.len() {
        return Step::More;
    }
    let c = *slice_index_get(buf, i);
    if c == LF {
        return Step::Done(i + 1);
    }
    if c == CR {
        if i + 1 == buf.len() {
            return Step::More;
        }
        if *slice_index_get(buf, i + 1) == LF {
            return Step::Done(i + 2);
        }
        return Step::Fail;
    }
    Step::Fail
}

/// The literal `HTTP/` at `i`. A mismatch anywhere is permanent; running out
/// of bytes while every byte so far matched is not.
pub open spec fn spec_http_literal(s: Seq<u8>, i: int) -> SpecStep {
    if i >= s.len() {
        SpecStep::More
    } else if s[i] != 0x48 {  // 'H'
        SpecStep::Fail
    } else if i + 1 >= s.len() {
        SpecStep::More
    } else if s[i + 1] != 0x54 {  // 'T'
        SpecStep::Fail
    } else if i + 2 >= s.len() {
        SpecStep::More
    } else if s[i + 2] != 0x54 {  // 'T'
        SpecStep::Fail
    } else if i + 3 >= s.len() {
        SpecStep::More
    } else if s[i + 3] != 0x50 {  // 'P'
        SpecStep::Fail
    } else if i + 4 >= s.len() {
        SpecStep::More
    } else if s[i + 4] != 0x2f {  // '/'
        SpecStep::Fail
    } else {
        SpecStep::Done(i + 5)
    }
}

/// Match the literal `HTTP/` at `i`.
pub fn parse_http_literal(buf: &[u8], i: usize) -> (r: Step)
    requires
        i <= buf@.len(),
    ensures
        r@ == spec_http_literal(buf@, i as int),
{
    if i == buf.len() {
        return Step::More;
    }
    if *slice_index_get(buf, i) != 0x48 {
        return Step::Fail;
    }
    if i + 1 == buf.len() {
        return Step::More;
    }
    if *slice_index_get(buf, i + 1) != 0x54 {
        return Step::Fail;
    }
    if i + 2 == buf.len() {
        return Step::More;
    }
    if *slice_index_get(buf, i + 2) != 0x54 {
        return Step::Fail;
    }
    if i + 3 == buf.len() {
        return Step::More;
    }
    if *slice_index_get(buf, i + 3) != 0x50 {
        return Step::Fail;
    }
    if i + 4 == buf.len() {
        return Step::More;
    }
    if *slice_index_get(buf, i + 4) != 0x2f {
        return Step::Fail;
    }
    Step::Done(i + 5)
}

/// The one-digit major version, a dot, and the one-digit minor version at `i`.
pub open spec fn spec_version(s: Seq<u8>, i: int) -> SpecStep {
    if i >= s.len() {
        SpecStep::More
    } else if !digit(s[i]) {
        SpecStep::Fail
    } else if i + 1 >= s.len() {
        SpecStep::More
    } else if s[i + 1] != DOT {
        SpecStep::Fail
    } else if i + 2 >= s.len() {
        SpecStep::More
    } else if !digit(s[i + 2]) {
        SpecStep::Fail
    } else {
        SpecStep::Done(i + 3)
    }
}

/// Match `DIGIT "." DIGIT` at `i`: the version pair of both start lines.
pub fn parse_http_version(buf: &[u8], i: usize) -> (r: Step)
    requires
        i <= buf@.len(),
    ensures
        r@ == spec_version(buf@, i as int),
{
    if i == buf.len() {
        return Step::More;
    }
    if !crate::chars::is_digit(*slice_index_get(buf, i)) {
        return Step::Fail;
    }
    if i + 1 == buf.len() {
        return Step::More;
    }
    if *slice_index_get(buf, i + 1) != DOT {
        return Step::Fail;
    }
    if i + 2 == buf.len() {
        return Step::More;
    }
    if !crate::chars::is_digit(*slice_index_get(buf, i + 2)) {
        return Step::Fail;
    }
    Step::Done(i + 3)
}

/// Exactly three digits and the single space after them, at `i`. A fourth
/// digit where the space belongs is as permanent a mismatch as a letter
/// among the three.
pub open spec fn spec_status(s: Seq<u8>, i: int) -> SpecStep {
    if i >= s.len() {
        SpecStep::More
    } else if !digit(s[i]) {
        SpecStep::Fail
    } else if i + 1 >= s.len() {
        SpecStep::More
    } else if !digit(s[i + 1]) {
        SpecStep::Fail
    } else if i + 2 >= s.len() {
        SpecStep::More
    } else if !digit(s[i + 2]) {
        SpecStep::Fail
    } else if i + 3 >= s.len() {
        SpecStep::More
    } else if s[i + 3] != SP {
        SpecStep::Fail
    } else {
        SpecStep::Done(i + 4)
    }
}

/// The numeric value of the three status digits at `i`.
pub open spec fn spec_status_code(s: Seq<u8>, i: int) -> u16 {
    ((s[i] - 0x30) * 100 + (s[i + 1] - 0x30) * 10 + (s[i + 2] - 0x30)) as u16
}

/// Match `3DIGIT SP` at `i`: the status code and the space after it.
pub fn parse_status(buf: &[u8], i: usize) -> (r: Step)
    requires
        i <= buf@.len(),
    ensures
        r@ == spec_status(buf@, i as int),
{
    if i == buf.len() {
        return Step::More;
    }
    if !crate::chars::is_digit(*slice_index_get(buf, i)) {
        return Step::Fail;
    }
    if i + 1 == buf.len() {
        return Step::More;
    }
    if !crate::chars::is_digit(*slice_index_get(buf, i + 1)) {
        return Step::Fail;
    }
    if i + 2 == buf.len() {
        return Step::More;
    }
    if !crate::chars::is_digit(*slice_index_get(buf, i + 2)) {
        return Step::Fail;
    }
    if i + 3 == buf.len() {
        return Step::More;
    }
    if *slice_index_get(buf, i + 3) != SP {
        return Step::Fail;
    }
    Step::Done(i + 4)
}

/// Read the numeric value of a status code whose three digits were matched.
pub fn status_value(buf: &[u8], i: usize) -> (v: u16)
    requires
        spec_status(buf@, i as int) is Done,
    ensures
        v == spec_status_code(buf@, i as int),
{
    proof {
        vstd::slice::axiom_spec_len(buf);
    }
    let d0 = *slice_index_get(buf, i);
    let d1 = *slice_index_get(buf, i + 1);
    let d2 = *slice_index_get(buf, i + 2);
    (d0 - 0x30) as u16 * 100 + (d1 - 0x30) as u16 * 10 + (d2 - 0x30) as u16
}

} // verus!

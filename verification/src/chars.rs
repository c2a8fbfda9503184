//! Character classes of the preamble grammar.

use vstd::prelude::*;

verus! {

pub const HT: u8 = 0x09;
pub const LF: u8 = 0x0a;
pub const CR: u8 = 0x0d;
pub const SP: u8 = 0x20;
pub const DOT: u8 = 0x2e;
pub const COLON: u8 = 0x3a;

/// Token character, used for methods, targets and header field names:
/// visible ASCII, excluding space and all control characters.
pub open spec fn tchar(c: u8) -> bool {
    0x21 <= c && c <= 0x7e
}

/// ASCII decimal digit.
pub open spec fn digit(c: u8) -> bool {
    0x30 <= c && c <= 0x39
}

/// Header field value and reason phrase character: horizontal tab, space,
/// visible ASCII, or a byte above ASCII; excludes CR, LF, the remaining
/// control characters and DEL.
pub open spec fn field_char(c: u8) -> bool {
    c == HT || (SP <= c && c != 0x7f)
}

pub fn is_tchar(c: u8) -> (r: bool)
    ensures
        r == tchar(c),
{
    0x21 <= c && c <= 0x7e
}

pub fn is_digit(c: u8) -> (r: bool)
    ensures
        r == digit(c),
{
    0x30 <= c && c <= 0x39
}

pub fn is_field_char(c: u8) -> (r: bool)
    ensures
        r == field_char(c),
{
    c == HT || (SP <= c && c != 0x7f)
}

} // verus!

//! The scanning primitive: consume a run of acceptable bytes up to a
//! delimiter, telling "delimiter found" apart from "bad byte seen" (permanent)
//! and from "buffer ended first" (more bytes may still help).

use vstd::prelude::*;
use vstd::slice::slice_index_get;
use crate::chars::{field_char, tchar, COLON, CR, LF, SP};

verus! {

/// Which character class a scan consumes, and which delimiter ends it.
#[derive(Clone, Copy, Debug, PartialEq, Eq, Structural)]
pub enum ScanKind {
    /// Method or target: a `tchar` run ended by a single space.
    Token,
    /// Header field name: a `tchar` run ended by a colon.
    Name,
    /// Header field value or reason phrase: a `field_char` run ended by CR or LF.
    Text,
}

pub open spec fn delim_byte(k: ScanKind, c: u8) -> bool {
    match k {
        ScanKind::Token => c == SP,
        ScanKind::Name => c == COLON,
        ScanKind::Text => c == CR || c == LF,
    }
}

pub open spec fn accept_byte(k: ScanKind, c: u8) -> bool {
    match k {
        ScanKind::Token => tchar(c),
        ScanKind::Name => tchar(c),
        ScanKind::Text => field_char(c),
    }
}

/// A byte that ends a class-`k` run: the delimiter, or a byte the class
/// rejects. The delimiter wins where both hold.
pub open spec fn stop_byte(k: ScanKind, c: u8) -> bool {
    delim_byte(k, c) || !accept_byte(k, c)
}

/// How many consecutive bytes from `i` the class accepts before the first
/// stop byte, or before the buffer ends.
pub open spec fn run_len(s: Seq<u8>, i: int, k: ScanKind) -> nat
    decreases s.len() - i,
{
    if i < 0 || i >= s.len() {
        0
    } else if stop_byte(k, s[i]) {
        0
    } else {
        (1 + run_len(s, i + 1, k)) as nat
    }
}

/// The position where a class-`k` scan from `i` stops: the first stop byte at
/// or after `i`, or the buffer's length when no stop byte exists.
pub open spec fn stop_pos(s: Seq<u8>, i: int, k: ScanKind) -> int {
    i + run_len(s, i, k)
}

/// What a scan reports. `Found(j)`: the delimiter stands at `j` and every byte
/// before it, from the scan's start, is acceptable. `Bad`: a byte that is
/// neither acceptable nor the delimiter was seen first; no further bytes can
/// mend that. `End`: the buffer ended while every byte seen was acceptable.
pub enum SpecScan {
    Found(int),
    Bad,
    End,
}

pub open spec fn scan_res(s: Seq<u8>, i: int, k: ScanKind) -> SpecScan {
    let j = stop_pos(s, i, k);
    if j >= s.len() {
        SpecScan::End
    } else if delim_byte(k, s[j]) {
        SpecScan::Found(j)
    } else {
        SpecScan::Bad
    }
}

/// Executable counterpart of `SpecScan`.
#[derive(Clone, Copy, Debug)]
pub enum ScanStep {
    Found(usize),
    Bad,
    End,
}

impl View for ScanStep {
    type V = SpecScan;

    open spec fn view(&self) -> SpecScan {
        match self {
            ScanStep::Found(j) => SpecScan::Found(*j as int),
            ScanStep::Bad => SpecScan::Bad,
            ScanStep::End => SpecScan::End,
        }
    }
}

fn is_delim(k: ScanKind, c: u8) -> (r: bool)
    ensures
        r == delim_byte(k, c),
{
    match k {
        ScanKind::Token => c == SP,
        ScanKind::Name => c == COLON,
        ScanKind::Text => c == CR || c == LF,
    }
}

fn is_accept(k: ScanKind, c: u8) -> (r: bool)
    ensures
        r == accept_byte(k, c),
{
    match k {
        ScanKind::Token => crate::chars::is_tchar(c),
        ScanKind::Name => crate::chars::is_tchar(c),
        ScanKind::Text => crate::chars::is_field_char(c),
    }
}

/// Scan a class-`k` run that starts at `i`.
pub fn read_until(buf: &[u8], i: usize, k: ScanKind) -> (r: ScanStep)
    requires
        i <= buf@.len(),
    ensures
        r@ == scan_res(buf@, i as int, k),
{
    let mut j = i;
    loop
        invariant
            i <= j <= buf@.len(),
            run_len(buf@, i as int, k) == j - i + run_len(buf@, j as int, k),
        decreases buf@.len() - j,
    {
        if j == buf.len() {
            assert(run_len(buf@, j as int, k) == 0);
            return ScanStep::End;
        }
        let c = *slice_index_get(buf, j);
        if is_delim(k, c) {
            assert(run_len(buf@, j as int, k) == 0);
            return ScanStep::Found(j);
        }
        if !is_accept(k, c) {
            assert(run_len(buf@, j as int, k) == 0);
            return ScanStep::Bad;
        }
        assert(run_len(buf@, j as int, k) == 1 + run_len(buf@, j + 1, k));
        j = j + 1;
    }
}

/// Find the next occurrence of the delimiter byte at or after `i`. `None`
/// means the buffer was exhausted first; whether that stands for "not yet
/// received" or "will never match" is the caller's judgement, not the
/// primitive's.
pub fn position(buf: &[u8], i: usize, delim: u8) -> (r: Option<usize>)
    requires
        i <= buf@.len(),
    ensures
        match r {
            Some(j) => i <= j < buf@.len() && buf@[j as int] == delim && (forall|p: int|
                i <= p < j ==> buf@[p] != delim),
            None => forall|p: int| i <= p < buf@.len() ==> buf@[p] != delim,
        },
{
    let mut j = i;
    loop
        invariant
            i <= j <= buf@.len(),
            forall|p: int| i <= p < j ==> buf@[p] != delim,
        decreases buf@.len() - j,
    {
        if j == buf.len() {
            return None;
        }
        if *slice_index_get(buf, j) == delim {
            return Some(j);
        }
        j = j + 1;
    }
}

/// Scan a method or target token: `tchar`s up to a single space.
pub fn parse_token(buf: &[u8], i: usize) -> (r: ScanStep)
    requires
        i <= buf@.len(),
    ensures
        r@ == scan_res(buf@, i as int, ScanKind::Token),
{
    read_until(buf, i, ScanKind::Token)
}

/// Everything a stopped scan guarantees: the stop position is in bounds, no
/// byte before it stops the run, and the byte at it (when the buffer did not
/// end first) does.
pub proof fn lemma_run_facts(s: Seq<u8>, i: int, k: ScanKind)
    requires
        0 <= i <= s.len(),
    ensures
        i <= stop_pos(s, i, k) <= s.len(),
        forall|p: int| i <= p < stop_pos(s, i, k) ==> !stop_byte(k, s[p]),
        stop_pos(s, i, k) < s.len() ==> stop_byte(k, s[stop_pos(s, i, k)]),
    decreases s.len() - i,
{
    if i < s.len() && !stop_byte(k, s[i]) {
        lemma_run_facts(s, i + 1, k);
        assert(stop_pos(s, i, k) == stop_pos(s, i + 1, k));
    }
}

/// A scan's stop position is determined: if no byte in `[i, j)` stops the run
/// and `j` is the buffer's end or holds a stop byte, the scan stops at `j`.
pub proof fn lemma_run_exact(s: Seq<u8>, i: int, j: int, k: ScanKind)
    requires
        0 <= i <= j <= s.len(),
        forall|p: int| i <= p < j ==> !stop_byte(k, s[p]),
        j == s.len() || stop_byte(k, s[j]),
    ensures
        stop_pos(s, i, k) == j,
    decreases j - i,
{
    if i < j {
        assert(!stop_byte(k, s[i]));
        lemma_run_exact(s, i + 1, j, k);
    }
}

} // verus!

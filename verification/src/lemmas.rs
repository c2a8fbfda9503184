//! Laws of the parser, proved over the grammar's own spec functions.
//!
//! The central ones: a parse outcome other than "needs more bytes" is stable
//! under appending bytes, every strict prefix of a complete preamble is
//! incomplete, and assembling any well-formed preamble from its pieces parses
//! back to exactly those pieces.

use vstd::prelude::*;
use crate::chars::{digit, field_char, tchar, COLON, CR, DOT, LF, SP};
use crate::headers::{spec_headers, SpecHeaders};
use crate::line::{spec_eol, spec_http_literal, spec_status, spec_status_code, spec_version,
    SpecStep};
use crate::request::{spec_request, SpecRequest};
use crate::response::{spec_response, SpecResponse};
use crate::scan::{lemma_run_exact, lemma_run_facts, scan_res, stop_byte, stop_pos, ScanKind,
    SpecScan};
use crate::types::{token_bytes, HeaderField};

verus! {

proof fn lemma_prefix_bytes(s: Seq<u8>, t: Seq<u8>)
    requires
        s.is_prefix_of(t),
    ensures
        s.len() <= t.len(),
        forall|p: int| 0 <= p < s.len() ==> s[p] == t[p],
{
    assert forall|p: int| 0 <= p < s.len() implies s[p] == t[p] by {
        assert(s[p] == t.subrange(0, s.len() as int)[p]);
    }
}

/// A scan that already found its delimiter or a bad byte is not changed by
/// appending bytes: only an exhausted scan can still change.
proof fn lemma_scan_persists(s: Seq<u8>, t: Seq<u8>, i: int, kind: ScanKind)
    requires
        s.is_prefix_of(t),
        0 <= i <= s.len(),
    ensures
        !(scan_res(s, i, kind) is End) ==> scan_res(t, i, kind) == scan_res(s, i, kind),
{
    lemma_prefix_bytes(s, t);
    lemma_run_facts(s, i, kind);
    let j = stop_pos(s, i, kind);
    if j < s.len() {
        assert forall|p: int| i <= p < j implies !stop_byte(kind, t[p]) by {
            assert(s[p] == t[p]);
        }
        assert(t[j] == s[j]);
        lemma_run_exact(t, i, j, kind);
    }
}

/// A fixed-shape element that already matched or already mismatched is not
/// changed by appending bytes.
proof fn lemma_line_persists(s: Seq<u8>, t: Seq<u8>, i: int)
    requires
        s.is_prefix_of(t),
        0 <= i,
    ensures
        !(spec_eol(s, i) is More) ==> spec_eol(t, i) == spec_eol(s, i),
        !(spec_http_literal(s, i) is More) ==> spec_http_literal(t, i) == spec_http_literal(s, i),
        !(spec_version(s, i) is More) ==> spec_version(t, i) == spec_version(s, i),
        !(spec_status(s, i) is More) ==> spec_status(t, i) == spec_status(s, i)
            && (spec_status(s, i) is Done ==> spec_status_code(t, i) == spec_status_code(s, i)),
{
    lemma_prefix_bytes(s, t);
}

/// A completed header section ends past where it began and within the buffer.
proof fn lemma_headers_end(s: Seq<u8>, i: int)
    requires
        0 <= i <= s.len(),
    ensures
        spec_headers(s, i) matches SpecHeaders::Done(_, e) ==> i < e <= s.len(),
    decreases s.len() - i,
{
    if i < s.len() && s[i] != LF && s[i] != CR {
        if let SpecScan::Found(j) = scan_res(s, i, ScanKind::Name) {
            if let SpecScan::Found(m) = scan_res(s, j + 1, ScanKind::Text) {
                if let SpecStep::Done(n) = spec_eol(s, m) {
                    lemma_headers_end(s, n);
                }
            }
        }
    }
}

/// A header section that already completed or already failed is not changed
/// by appending bytes.
proof fn lemma_headers_persists(s: Seq<u8>, t: Seq<u8>, i: int)
    requires
        s.is_prefix_of(t),
        0 <= i <= s.len(),
    ensures
        !(spec_headers(s, i) is More) ==> spec_headers(t, i) == spec_headers(s, i),
    decreases s.len() - i,
{
    lemma_prefix_bytes(s, t);
    if i < s.len() && s[i] != LF && s[i] != CR {
        lemma_scan_persists(s, t, i, ScanKind::Name);
        if let SpecScan::Found(j) = scan_res(s, i, ScanKind::Name) {
            if j != i {
                lemma_scan_persists(s, t, j + 1, ScanKind::Text);
                if let SpecScan::Found(m) = scan_res(s, j + 1, ScanKind::Text) {
                    lemma_line_persists(s, t, m);
                    if let SpecStep::Done(n) = spec_eol(s, m) {
                        lemma_headers_persists(s, t, n);
                    }
                }
            }
        }
    }
}

/// A request parse that already completed or already failed is not changed by
/// appending bytes: a completed preamble keeps its tokens whatever body
/// follows, and an error never turns into anything else.
proof fn lemma_request_persists(s: Seq<u8>, t: Seq<u8>)
    requires
        s.is_prefix_of(t),
    ensures
        !(spec_request(s) is More) ==> spec_request(t) == spec_request(s),
{
    lemma_prefix_bytes(s, t);
    lemma_scan_persists(s, t, 0, ScanKind::Token);
    if let SpecScan::Found(j) = scan_res(s, 0, ScanKind::Token) {
        if j != 0 {
            lemma_scan_persists(s, t, j + 1, ScanKind::Token);
            if let SpecScan::Found(q) = scan_res(s, j + 1, ScanKind::Token) {
                if q != j + 1 {
                    lemma_line_persists(s, t, q + 1);
                    if let SpecStep::Done(v) = spec_http_literal(s, q + 1) {
                        lemma_line_persists(s, t, v);
                        if let SpecStep::Done(w) = spec_version(s, v) {
                            lemma_line_persists(s, t, w);
                            if let SpecStep::Done(h) = spec_eol(s, w) {
                                lemma_headers_persists(s, t, h);
                            }
                        }
                    }
                }
            }
        }
    }
}

/// A response parse that already completed or already failed is not changed
/// by appending bytes.
proof fn lemma_response_persists(s: Seq<u8>, t: Seq<u8>)
    requires
        s.is_prefix_of(t),
    ensures
        !(spec_response(s) is More) ==> spec_response(t) == spec_response(s),
{
    lemma_prefix_bytes(s, t);
    lemma_line_persists(s, t, 0);
    if let SpecStep::Done(v) = spec_http_literal(s, 0) {
        lemma_line_persists(s, t, v);
        if let SpecStep::Done(w) = spec_version(s, v) {
            if w < s.len() && s[w] == SP {
                lemma_line_persists(s, t, w + 1);
                if let SpecStep::Done(u) = spec_status(s, w + 1) {
                    lemma_scan_persists(s, t, u, ScanKind::Text);
                    if let SpecScan::Found(q) = scan_res(s, u, ScanKind::Text) {
                        lemma_line_persists(s, t, q);
                        if let SpecStep::Done(h) = spec_eol(s, q) {
                            lemma_headers_persists(s, t, h);
                        }
                    }
                }
            }
        }
    }
}

/// A completed request preamble ends past the buffer's start and within it.
proof fn lemma_request_end(s: Seq<u8>)
    ensures
        spec_request(s) matches SpecRequest::Done(_, _, e) ==> 0 < e <= s.len(),
{
    if let SpecScan::Found(j) = scan_res(s, 0, ScanKind::Token) {
        if let SpecScan::Found(q) = scan_res(s, j + 1, ScanKind::Token) {
            if let SpecStep::Done(v) = spec_http_literal(s, q + 1) {
                if let SpecStep::Done(w) = spec_version(s, v) {
                    if let SpecStep::Done(h) = spec_eol(s, w) {
                        lemma_headers_end(s, h);
                    }
                }
            }
        }
    }
}

/// A completed response preamble ends past the buffer's start and within it.
proof fn lemma_response_end(s: Seq<u8>)
    ensures
        spec_response(s) matches SpecResponse::Done(_, _, e) ==> 0 < e <= s.len(),
{
    if let SpecStep::Done(v) = spec_http_literal(s, 0) {
        if let SpecStep::Done(w) = spec_version(s, v) {
            if w < s.len() && s[w] == SP {
                if let SpecStep::Done(u) = spec_status(s, w + 1) {
                    if let SpecScan::Found(q) = scan_res(s, u, ScanKind::Text) {
                        if let SpecStep::Done(h) = spec_eol(s, q) {
                            lemma_headers_end(s, h);
                        }
                    }
                }
            }
        }
    }
}

/// Truncation monotonicity: when a buffer extends another, the shorter one
/// parses as a request either to Incomplete or to exactly what the longer one
/// parses to. An Incomplete prefix can therefore never announce an error kind
/// that the full message's grammar would not.
pub proof fn lemma_request_truncation_monotone(s: Seq<u8>, t: Seq<u8>)
    requires
        s.is_prefix_of(t),
    ensures
        spec_request(s) is More || spec_request(s) == spec_request(t),
{
    lemma_request_persists(s, t);
}

/// Truncation monotonicity for response parsing, as for requests.
pub proof fn lemma_response_truncation_monotone(s: Seq<u8>, t: Seq<u8>)
    requires
        s.is_prefix_of(t),
    ensures
        spec_response(s) is More || spec_response(s) == spec_response(t),
{
    lemma_response_persists(s, t);
}

/// Every prefix of a complete request preamble that stops anywhere short of
/// the final blank-line terminator's last byte parses to Incomplete.
pub proof fn lemma_request_prefix_incomplete(t: Seq<u8>, n: int)
    requires
        spec_request(t) matches SpecRequest::Done(_, _, e) && 0 <= n < e,
    ensures
        spec_request(t.take(n)) is More,
{
    lemma_request_end(t);
    let s = t.take(n);
    assert(s.is_prefix_of(t));
    lemma_request_persists(s, t);
    if !(spec_request(s) is More) {
        lemma_request_end(s);
        assert(false);
    }
}

/// Every prefix of a complete response preamble that stops anywhere short of
/// the final blank-line terminator's last byte parses to Incomplete.
pub proof fn lemma_response_prefix_incomplete(t: Seq<u8>, n: int)
    requires
        spec_response(t) matches SpecResponse::Done(_, _, e) && 0 <= n < e,
    ensures
        spec_response(t.take(n)) is More,
{
    lemma_response_end(t);
    let s = t.take(n);
    assert(s.is_prefix_of(t));
    lemma_response_persists(s, t);
    if !(spec_response(s) is More) {
        lemma_response_end(s);
        assert(false);
    }
}

/// Soundness of a complete request parse: the tokens are adjacent in-bounds
/// ranges of the consumed preamble — the method from the buffer's start, the
/// target right after the method's space, the version pair right after
/// `" HTTP/"` — and every token's bytes satisfy its character class.
pub proof fn lemma_request_sound(s: Seq<u8>)
    requires
        s.len() <= usize::MAX,
    ensures
        spec_request(s) matches SpecRequest::Done(req, hs, e) ==> req.method.start == 0
            && req.method.end + 1 == req.target.start && req.method.start < req.method.end
            && req.target.start < req.target.end && req.target.end + 6 == req.version.start
            && req.version.start + 3 == req.version.end && req.version.end < e && e <= s.len()
            && wf_token(token_bytes(s, req.method)) && wf_token(token_bytes(s, req.target))
            && digit(s[req.version.start as int]) && s[req.version.start + 1] == DOT && digit(
            s[req.version.start + 2],
        ) && (forall|p: int|
            #![trigger hs[p]]
            0 <= p < hs.len() ==> req.version.end < hs[p].name.start && hs[p].name.start
                < hs[p].name.end && hs[p].name.end + 1 == hs[p].value.start && hs[p].value.start
                <= hs[p].value.end && hs[p].value.end < e && wf_field_name(
                token_bytes(s, hs[p].name),
            ) && wf_field_value(token_bytes(s, hs[p].value))),
{
    lemma_request_end(s);
    lemma_run_facts(s, 0, ScanKind::Token);
    if let SpecScan::Found(j) = scan_res(s, 0, ScanKind::Token) {
        if j != 0 {
            lemma_run_facts(s, j + 1, ScanKind::Token);
            if let SpecScan::Found(q) = scan_res(s, j + 1, ScanKind::Token) {
                if q != j + 1 {
                    if let SpecStep::Done(v) = spec_http_literal(s, q + 1) {
                        if let SpecStep::Done(w) = spec_version(s, v) {
                            if let SpecStep::Done(h) = spec_eol(s, w) {
                                lemma_headers_sound(s, h);
                                lemma_headers_end(s, h);
                                let mb = token_bytes(
                                    s,
                                    crate::types::Token { start: 0, end: j as usize },
                                );
                                assert forall|p: int| 0 <= p < mb.len() implies tchar(
                                    #[trigger] mb[p],
                                ) by {
                                    assert(mb[p] == s[p]);
                                    assert(!stop_byte(ScanKind::Token, s[p]));
                                }
                                let tb = token_bytes(
                                    s,
                                    crate::types::Token {
                                        start: (j + 1) as usize,
                                        end: q as usize,
                                    },
                                );
                                assert forall|p: int| 0 <= p < tb.len() implies tchar(
                                    #[trigger] tb[p],
                                ) by {
                                    assert(tb[p] == s[j + 1 + p]);
                                    assert(!stop_byte(ScanKind::Token, s[j + 1 + p]));
                                }
                            }
                        }
                    }
                }
            }
        }
    }
}

/// Soundness of a complete response parse: the version pair stands right
/// after `HTTP/`, the status code's value fits in three digits, the reason
/// phrase is an in-bounds range right after the code's space with every byte
/// a `field_char`, and every header field is well-formed as for requests.
pub proof fn lemma_response_sound(s: Seq<u8>)
    requires
        s.len() <= usize::MAX,
    ensures
        spec_response(s) matches SpecResponse::Done(resp, hs, e) ==> resp.version.start == 5
            && resp.version.end == 8 && resp.status <= 999 && resp.reason.start == 13
            && resp.reason.start <= resp.reason.end && resp.reason.end < e && e <= s.len()
            && digit(s[5]) && s[6] == DOT && digit(s[7]) && wf_field_value(
            token_bytes(s, resp.reason),
        ) && (forall|p: int|
            #![trigger hs[p]]
            0 <= p < hs.len() ==> resp.reason.end < hs[p].name.start && hs[p].name.start
                < hs[p].name.end && hs[p].name.end + 1 == hs[p].value.start && hs[p].value.start
                <= hs[p].value.end && hs[p].value.end < e && wf_field_name(
                token_bytes(s, hs[p].name),
            ) && wf_field_value(token_bytes(s, hs[p].value))),
{
    lemma_response_end(s);
    if let SpecStep::Done(v) = spec_http_literal(s, 0) {
        if let SpecStep::Done(w) = spec_version(s, v) {
            if w < s.len() && s[w] == SP {
                if let SpecStep::Done(u) = spec_status(s, w + 1) {
                    lemma_run_facts(s, u, ScanKind::Text);
                    if let SpecScan::Found(q) = scan_res(s, u, ScanKind::Text) {
                        if let SpecStep::Done(h) = spec_eol(s, q) {
                            lemma_headers_sound(s, h);
                            lemma_headers_end(s, h);
                            let rb = token_bytes(
                                s,
                                crate::types::Token { start: u as usize, end: q as usize },
                            );
                            assert forall|p: int| 0 <= p < rb.len() implies field_char(
                                #[trigger] rb[p],
                            ) by {
                                assert(rb[p] == s[u + p]);
                                assert(!stop_byte(ScanKind::Text, s[u + p]));
                            }
                        }
                    }
                }
            }
        }
    }
}

/// A well-formed token piece: nonempty, every byte a `tchar`.
pub open spec fn wf_token(m: Seq<u8>) -> bool {
    m.len() > 0 && forall|p: int| 0 <= p < m.len() ==> tchar(#[trigger] m[p])
}

/// A well-formed field-name piece: a token without the colon that ends it.
pub open spec fn wf_field_name(m: Seq<u8>) -> bool {
    wf_token(m) && forall|p: int| 0 <= p < m.len() ==> #[trigger] m[p] != COLON
}

/// A well-formed field-value piece: every byte a `field_char`; may be empty.
pub open spec fn wf_field_value(v: Seq<u8>) -> bool {
    forall|p: int| 0 <= p < v.len() ==> field_char(#[trigger] v[p])
}

/// A line terminator piece: bare LF or CRLF.
pub open spec fn is_eol_seq(e: Seq<u8>) -> bool {
    e == seq![LF] || e == seq![CR, LF]
}

/// The pieces of one header line, before assembly.
pub struct HeaderLine {
    pub name: Seq<u8>,
    pub value: Seq<u8>,
    pub eol: Seq<u8>,
}

pub open spec fn wf_line(l: HeaderLine) -> bool {
    wf_field_name(l.name) && wf_field_value(l.value) && is_eol_seq(l.eol)
}

/// One header line assembled: `name ":" value eol`.
pub open spec fn line_bytes(l: HeaderLine) -> Seq<u8> {
    l.name + seq![COLON] + l.value + l.eol
}

/// A list of header lines assembled in order.
pub open spec fn lines_bytes(ls: Seq<HeaderLine>) -> Seq<u8>
    decreases ls.len(),
{
    if ls.len() == 0 {
        Seq::<u8>::empty()
    } else {
        line_bytes(ls[0]) + lines_bytes(ls.drop_first())
    }
}

/// A request preamble assembled from its pieces:
/// `method SP target SP "HTTP/" d1 "." d2 eol` then the header lines and the
/// closing blank line.
pub open spec fn request_bytes(
    method: Seq<u8>,
    target: Seq<u8>,
    d1: u8,
    d2: u8,
    e1: Seq<u8>,
    ls: Seq<HeaderLine>,
    fin: Seq<u8>,
) -> Seq<u8> {
    method + seq![SP] + target + seq![SP] + seq![0x48u8, 0x54u8, 0x54u8, 0x50u8, 0x2fu8, d1, DOT, d2]
        + e1 + lines_bytes(ls) + fin
}

/// Soundness of a completed header section: every parsed field is a pair of
/// ranges inside the section, the name nonempty `tchar`s without a colon,
/// the value `field_char`s beginning right after the name's colon.
proof fn lemma_headers_sound(s: Seq<u8>, i: int)
    requires
        0 <= i <= s.len(),
        s.len() <= usize::MAX,
    ensures
        spec_headers(s, i) matches SpecHeaders::Done(hs, e) ==> (forall|p: int|
            #![trigger hs[p]]
            0 <= p < hs.len() ==> i <= hs[p].name.start && hs[p].name.start < hs[p].name.end
                && hs[p].name.end + 1 == hs[p].value.start && hs[p].value.start <= hs[p].value.end
                && hs[p].value.end < e && wf_field_name(token_bytes(s, hs[p].name))
                && wf_field_value(token_bytes(s, hs[p].value))),
    decreases s.len() - i,
{
    lemma_headers_end(s, i);
    if i < s.len() && s[i] != LF && s[i] != CR {
        lemma_run_facts(s, i, ScanKind::Name);
        if let SpecScan::Found(j) = scan_res(s, i, ScanKind::Name) {
            if j != i {
                lemma_run_facts(s, j + 1, ScanKind::Text);
                if let SpecScan::Found(m) = scan_res(s, j + 1, ScanKind::Text) {
                    if let SpecStep::Done(n) = spec_eol(s, m) {
                        lemma_headers_sound(s, n);
                        lemma_headers_end(s, n);
                        if let SpecHeaders::Done(tail, e) = spec_headers(s, n) {
                            let field = HeaderField {
                                name: crate::types::Token { start: i as usize, end: j as usize },
                                value: crate::types::Token {
                                    start: (j + 1) as usize,
                                    end: m as usize,
                                },
                            };
                            assert(wf_field_name(token_bytes(s, field.name))) by {
                                let nb = token_bytes(s, field.name);
                                assert forall|q: int| 0 <= q < nb.len() implies tchar(
                                    #[trigger] nb[q],
                                ) && nb[q] != COLON by {
                                    assert(nb[q] == s[i + q]);
                                    assert(!stop_byte(ScanKind::Name, s[i + q]));
                                }
                            }
                            assert(wf_field_value(token_bytes(s, field.value))) by {
                                let vb = token_bytes(s, field.value);
                                assert forall|q: int| 0 <= q < vb.len() implies field_char(
                                    #[trigger] vb[q],
                                ) by {
                                    assert(vb[q] == s[j + 1 + q]);
                                    assert(!stop_byte(ScanKind::Text, s[j + 1 + q]));
                                }
                            }
                            assert forall|p: int|
                                #![trigger (seq![field] + tail)[p]]
                                0 <= p < (seq![field] + tail).len() implies i <= (seq![field]
                                + tail)[p].name.start && (seq![field] + tail)[p].name.start < (seq![
                                field,
                            ] + tail)[p].name.end && (seq![field] + tail)[p].name.end + 1 == (seq![
                                field,
                            ] + tail)[p].value.start && (seq![field] + tail)[p].value.start <= (
                            seq![field] + tail)[p].value.end && (seq![field] + tail)[p].value.end
                                < e && wf_field_name(token_bytes(s, (seq![field] + tail)[p].name))
                                && wf_field_value(
                                token_bytes(s, (seq![field] + tail)[p].value),
                            ) by {
                                if p > 0 {
                                    assert((seq![field] + tail)[p] == tail[p - 1]);
                                }
                            }
                        }
                    }
                }
            }
        }
    }
}

/// Any sequence of well-formed header lines followed by a blank line parses
/// to exactly those lines, consuming the whole buffer.
#[verifier::rlimit(80)]
proof fn lemma_headers_assembled(s: Seq<u8>, i: int, ls: Seq<HeaderLine>, fin: Seq<u8>)
    requires
        0 <= i <= s.len(),
        s.len() <= usize::MAX,
        s.subrange(i, s.len() as int) == lines_bytes(ls) + fin,
        forall|p: int| 0 <= p < ls.len() ==> wf_line(#[trigger] ls[p]),
        is_eol_seq(fin),
    ensures
        spec_headers(s, i) matches SpecHeaders::Done(hs, e) && e == s.len() && hs.len() == ls.len()
            && (forall|p: int|
            #![trigger hs[p]]
            0 <= p < ls.len() ==> token_bytes(s, hs[p].name) == ls[p].name && token_bytes(
                s,
                hs[p].value,
            ) == ls[p].value),
    decreases ls.len(),
{
    let suf = s.subrange(i, s.len() as int);
    assert(forall|p: int| 0 <= p < suf.len() ==> s[i + p] == #[trigger] suf[p]);
    if ls.len() == 0 {
        assert(suf =~= fin);
        if fin == seq![LF] {
            assert(suf[0] == LF);
            assert(s[i + 0] == suf[0]);
            assert(s[i] == LF);
        } else {
            assert(fin == seq![CR, LF]);
            assert(suf[0] == CR && suf[1] == LF);
            assert(s[i + 0] == suf[0]);
            assert(s[i + 1] == suf[1]);
            assert(s[i] == CR && s[i + 1] == LF);
        }
    } else {
        let l = ls[0];
        assert(wf_line(l));
        let rest = lines_bytes(ls.drop_first()) + fin;
        assert(suf =~= line_bytes(l) + rest);
        let nl = l.name.len() as int;
        let vl = l.value.len() as int;
        let el = l.eol.len() as int;
        let ll = nl + 1 + vl + el;
        assert forall|p: int| 0 <= p < nl implies suf[p] == l.name[p] by {
            assert((line_bytes(l) + rest)[p] == line_bytes(l)[p]);
        }
        assert(suf[nl] == COLON) by {
            assert((line_bytes(l) + rest)[nl] == line_bytes(l)[nl]);
        }
        assert forall|p: int| 0 <= p < vl implies suf[nl + 1 + p] == l.value[p] by {
            assert((line_bytes(l) + rest)[nl + 1 + p] == line_bytes(l)[nl + 1 + p]);
        }
        assert forall|p: int| 0 <= p < el implies suf[nl + 1 + vl + p] == l.eol[p] by {
            assert((line_bytes(l) + rest)[nl + 1 + vl + p] == line_bytes(l)[nl + 1 + vl + p]);
        }
        // the first line's name runs to the colon
        assert forall|p: int| i <= p < i + nl implies !stop_byte(ScanKind::Name, s[p]) by {
            assert(s[p] == suf[p - i]);
            assert(suf[p - i] == l.name[p - i]);
        }
        assert(s[i + nl] == COLON);
        lemma_run_exact(s, i, i + nl, ScanKind::Name);
        let j = i + nl;
        assert(scan_res(s, i, ScanKind::Name) == SpecScan::Found(j));
        // the value runs to the terminator's first byte
        assert forall|p: int| j + 1 <= p < j + 1 + vl implies !stop_byte(ScanKind::Text, s[p]) by {
            assert(s[p] == suf[p - i]);
            assert(suf[p - i] == l.value[p - (j + 1)]);
        }
        assert(s[j + 1 + vl] == l.eol[0]);
        assert(l.eol[0] == LF || l.eol[0] == CR);
        lemma_run_exact(s, j + 1, j + 1 + vl, ScanKind::Text);
        let m = j + 1 + vl;
        assert(scan_res(s, j + 1, ScanKind::Text) == SpecScan::Found(m));
        let n = m + el;
        if l.eol == seq![LF] {
            assert(spec_eol(s, m) == SpecStep::Done(n));
        } else {
            assert(s[m] == CR && s[m + 1] == LF);
            assert(spec_eol(s, m) == SpecStep::Done(n));
        }
        assert(s.subrange(n, s.len() as int) =~= rest) by {
            assert(forall|p: int| 0 <= p < rest.len() ==> (line_bytes(l) + rest)[ll + p] == #[trigger] rest[p]);
        }
        lemma_headers_assembled(s, n, ls.drop_first(), fin);
        let field = HeaderField {
            name: crate::types::Token { start: i as usize, end: j as usize },
            value: crate::types::Token { start: (j + 1) as usize, end: m as usize },
        };
        assert(token_bytes(s, field.name) =~= l.name);
        assert(token_bytes(s, field.value) =~= l.value);
        if let SpecHeaders::Done(tail, e) = spec_headers(s, n) {
            assert(spec_headers(s, i) == SpecHeaders::Done(seq![field] + tail, e));
            assert forall|p: int|
                #![trigger (seq![field] + tail)[p]]
                0 <= p < ls.len() implies token_bytes(s, (seq![field] + tail)[p].name) == ls[p].name
                && token_bytes(s, (seq![field] + tail)[p].value) == ls[p].value by {
                if p > 0 {
                    assert((seq![field] + tail)[p] == tail[p - 1]);
                    assert(ls.drop_first()[p - 1] == ls[p]);
                }
            }
        }
    }
}

/// Every well-formed request preamble assembled from its pieces parses to
/// Complete, with token ranges that denote exactly the pieces: the method,
/// the target, the version digits, and each header name and value in order.
#[verifier::rlimit(80)]
pub proof fn lemma_request_assembled(
    s: Seq<u8>,
    method: Seq<u8>,
    target: Seq<u8>,
    d1: u8,
    d2: u8,
    e1: Seq<u8>,
    ls: Seq<HeaderLine>,
    fin: Seq<u8>,
)
    requires
        s == request_bytes(method, target, d1, d2, e1, ls, fin),
        s.len() <= usize::MAX,
        wf_token(method),
        wf_token(target),
        digit(d1),
        digit(d2),
        is_eol_seq(e1),
        forall|p: int| 0 <= p < ls.len() ==> wf_line(#[trigger] ls[p]),
        is_eol_seq(fin),
    ensures
        spec_request(s) matches SpecRequest::Done(req, hs, e) && e == s.len() && token_bytes(
            s,
            req.method,
        ) == method && token_bytes(s, req.target) == target && token_bytes(s, req.version)
            == seq![d1, DOT, d2] && hs.len() == ls.len() && (forall|p: int|
            #![trigger hs[p]]
            0 <= p < ls.len() ==> token_bytes(s, hs[p].name) == ls[p].name && token_bytes(
                s,
                hs[p].value,
            ) == ls[p].value),
{
    let ml = method.len() as int;
    let tl = target.len() as int;
    let head = method + seq![SP] + target + seq![SP] + seq![
        0x48u8,
        0x54u8,
        0x54u8,
        0x50u8,
        0x2fu8,
        d1,
        DOT,
        d2,
    ] + e1;
    let hl = ml + 1 + tl + 1 + 8 + e1.len() as int;
    assert(head.len() == hl);
    assert(s =~= head + (lines_bytes(ls) + fin));
    assert forall|p: int| 0 <= p < hl implies s[p] == head[p] by {
        assert(s[p] == (head + (lines_bytes(ls) + fin))[p]);
    }
    assert forall|p: int| 0 <= p < ml implies s[p] == method[p] by {
        assert(head[p] == method[p]);
    }
    assert(s[ml] == SP);
    assert forall|p: int| 0 <= p < tl implies s[ml + 1 + p] == target[p] by {
        assert(head[ml + 1 + p] == target[p]);
    }
    assert(s[ml + 1 + tl] == SP);
    let g = ml + 1 + tl + 1;
    assert(s[g] == 0x48 && s[g + 1] == 0x54 && s[g + 2] == 0x54 && s[g + 3] == 0x50 && s[g + 4]
        == 0x2f && s[g + 5] == d1 && s[g + 6] == DOT && s[g + 7] == d2);
    // the method token runs to the first space
    assert forall|p: int| 0 <= p < ml implies !stop_byte(ScanKind::Token, s[p]) by {
        assert(s[p] == method[p]);
    }
    lemma_run_exact(s, 0, ml, ScanKind::Token);
    assert(scan_res(s, 0, ScanKind::Token) == SpecScan::Found(ml));
    // the target token runs to the second space
    assert forall|p: int| ml + 1 <= p < ml + 1 + tl implies !stop_byte(ScanKind::Token, s[p]) by {
        assert(s[p] == target[p - (ml + 1)]);
    }
    lemma_run_exact(s, ml + 1, ml + 1 + tl, ScanKind::Token);
    assert(scan_res(s, ml + 1, ScanKind::Token) == SpecScan::Found(ml + 1 + tl));
    let v = g + 5;
    assert(spec_http_literal(s, g) == SpecStep::Done(v));
    let w = v + 3;
    assert(spec_version(s, v) == SpecStep::Done(w));
    let h = w + e1.len() as int;
    if e1 == seq![LF] {
        assert(s[w] == e1[0]);
        assert(spec_eol(s, w) == SpecStep::Done(h));
    } else {
        assert(s[w] == e1[0] && s[w + 1] == e1[1]);
        assert(spec_eol(s, w) == SpecStep::Done(h));
    }
    assert(s.subrange(h, s.len() as int) =~= lines_bytes(ls) + fin) by {
        assert(forall|p: int|
            0 <= p < (lines_bytes(ls) + fin).len() ==> s[hl + p] == #[trigger] (lines_bytes(ls)
                + fin)[p]);
    }
    lemma_headers_assembled(s, h, ls, fin);
    assert(token_bytes(s, crate::types::Token { start: 0, end: ml as usize }) =~= method);
    assert(token_bytes(
        s,
        crate::types::Token { start: (ml + 1) as usize, end: (ml + 1 + tl) as usize },
    ) =~= target);
    assert(token_bytes(s, crate::types::Token { start: v as usize, end: w as usize }) =~= seq![
        d1,
        DOT,
        d2,
    ]);
}

/// Parsing is repeatable: the request outcome is a function of the buffer's
/// bytes alone, so two parses of the same buffer yield the same outcome, and
/// on a complete parse the token ranges denote identical byte content both
/// times.
pub proof fn lemma_request_repeatable(s: Seq<u8>, r1: SpecRequest, r2: SpecRequest)
    requires
        r1 == spec_request(s),
        r2 == spec_request(s),
    ensures
        r1 == r2,
        r1 matches SpecRequest::Done(q1, hs1, _) ==> (r2 matches SpecRequest::Done(q2, hs2, _)
            && token_bytes(s, q1.method) == token_bytes(s, q2.method)
            && token_bytes(s, q1.target) == token_bytes(s, q2.target)
            && token_bytes(s, q1.version) == token_bytes(s, q2.version)
            && hs1 == hs2),
{
}

/// Parsing is repeatable for responses, as for requests.
pub proof fn lemma_response_repeatable(s: Seq<u8>, r1: SpecResponse, r2: SpecResponse)
    requires
        r1 == spec_response(s),
        r2 == spec_response(s),
    ensures
        r1 == r2,
        r1 matches SpecResponse::Done(q1, hs1, _) ==> (r2 matches SpecResponse::Done(q2, hs2, _)
            && token_bytes(s, q1.version) == token_bytes(s, q2.version)
            && q1.status == q2.status
            && token_bytes(s, q1.reason) == token_bytes(s, q2.reason)
            && hs1 == hs2),
{
}

} // verus!

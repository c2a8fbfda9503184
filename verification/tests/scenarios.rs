use httpparser::{parse_headers, HeaderField, Outcome, ParseError, Request, Response, Token};

fn bytes<'a>(buf: &'a [u8], t: Token) -> &'a [u8] {
    &buf[t.start..t.end]
}

fn complete_request(buf: &[u8], headers: &mut Vec<HeaderField>) -> Request {
    match Request::parse(buf, headers) {
        Ok(Outcome::Complete(req)) => req,
        other => panic!("expected a complete request, got {:?}", other),
    }
}

fn complete_response(buf: &[u8], headers: &mut Vec<HeaderField>) -> Response {
    match Response::parse(buf, headers) {
        Ok(Outcome::Complete(resp)) => resp,
        other => panic!("expected a complete response, got {:?}", other),
    }
}

#[test]
fn request_tokens_match_input_exactly() {
    let buf = b"POST /index.html HTTP/1.0\r\nHost:example\r\nHost:other\nX:\r\n\r\n";
    let mut headers = Vec::<HeaderField>::new();
    let req = complete_request(buf, &mut headers);
    assert_eq!(bytes(buf, req.method), b"POST");
    assert_eq!(bytes(buf, req.target), b"/index.html");
    assert_eq!(bytes(buf, req.version), b"1.0");
    assert_eq!(headers.len(), 3);
    assert_eq!(bytes(buf, headers[0].name), b"Host");
    assert_eq!(bytes(buf, headers[0].value), b"example");
    assert_eq!(bytes(buf, headers[1].name), b"Host");
    assert_eq!(bytes(buf, headers[1].value), b"other");
    assert_eq!(bytes(buf, headers[2].name), b"X");
    assert_eq!(bytes(buf, headers[2].value), b"");
}

#[test]
fn parsing_twice_gives_identical_content() {
    let buf = b"GET /a HTTP/1.1\r\nk:v\r\n\r\n";
    let mut h1 = Vec::<HeaderField>::new();
    let mut h2 = Vec::<HeaderField>::new();
    let r1 = complete_request(buf, &mut h1);
    let r2 = complete_request(buf, &mut h2);
    assert_eq!(bytes(buf, r1.method), bytes(buf, r2.method));
    assert_eq!(bytes(buf, r1.target), bytes(buf, r2.target));
    assert_eq!(bytes(buf, r1.version), bytes(buf, r2.version));
    assert_eq!(h1, h2);
}

#[test]
fn incomplete_stays_consistent_as_bytes_arrive() {
    let full = b"GET / HTTP/1.1\r\na:b\r\n\r\n";
    for n in 0..full.len() - 1 {
        let mut headers = Vec::<HeaderField>::new();
        let r = Request::parse(&full[..n], &mut headers);
        assert!(matches!(r, Ok(Outcome::Incomplete)));
        assert!(headers.is_empty());
    }
    let mut headers = Vec::<HeaderField>::new();
    let done = Request::parse(full, &mut headers).unwrap();
    assert!(done.is_complete());
    assert!(!done.is_incomplete());
}

#[test]
fn position_finds_the_first_delimiter() {
    assert_eq!(httpparser::position(b"ab:cd:e", 0, b':'), Some(2));
    assert_eq!(httpparser::position(b"ab:cd:e", 3, b':'), Some(5));
    assert_eq!(httpparser::position(b"abcd", 0, b':'), None);
}

#[test]
fn bad_terminator_after_start_line() {
    let mut headers = Vec::<HeaderField>::new();
    assert_eq!(
        Request::parse(b"GET / HTTP/1.1X\r\n\r\n", &mut headers),
        Err(ParseError::InvalidNewLine)
    );
    assert_eq!(
        Response::parse(b"HTTP/1.1 200 OK\ra\n\r\n", &mut headers),
        Err(ParseError::InvalidNewLine)
    );
}

#[test]
fn line_ending_tolerance() {
    let variants: [&[u8]; 4] = [
        b"GET / HTTP/1.1\r\n\r\n",
        b"GET / HTTP/1.1\n\n",
        b"GET / HTTP/1.1\r\n\n",
        b"GET / HTTP/1.1\n\r\n",
    ];
    for buf in variants.iter() {
        let mut headers = Vec::<HeaderField>::new();
        let req = complete_request(buf, &mut headers);
        assert_eq!(bytes(buf, req.method), b"GET");
        assert_eq!(bytes(buf, req.target), b"/");
        assert_eq!(bytes(buf, req.version), b"1.1");
        assert!(headers.is_empty());
    }
}

#[test]
fn status_code_strictness() {
    let mut headers = Vec::<HeaderField>::new();
    assert_eq!(
        Response::parse(b"HTTP/1.1 20 OK\r\n\r\n", &mut headers),
        Err(ParseError::InvalidStatusCode)
    );
    assert_eq!(
        Response::parse(b"HTTP/1.1 2000 OK\r\n\r\n", &mut headers),
        Err(ParseError::InvalidStatusCode)
    );
    let buf = b"HTTP/1.1 200 OK\r\n\r\n";
    let resp = complete_response(buf, &mut headers);
    assert_eq!(resp.status, 200);
    assert_eq!(bytes(buf, resp.version), b"1.1");
    assert_eq!(bytes(buf, resp.reason), b"OK");
}

#[test]
fn status_code_is_the_digits_value() {
    let buf = b"HTTP/9.8 505 Version Not Supported\r\n\r\n";
    let mut headers = Vec::<HeaderField>::new();
    let resp = complete_response(buf, &mut headers);
    assert_eq!(resp.status, 505);
    assert_eq!(bytes(buf, resp.version), b"9.8");
    assert_eq!(bytes(buf, resp.reason), b"Version Not Supported");
}

#[test]
fn malformed_byte_beats_truncation() {
    let mut headers = Vec::<HeaderField>::new();
    assert_eq!(
        Request::parse(b"G\x01ET / HTTP/1.1\r\n\r\n", &mut headers),
        Err(ParseError::InvalidMethod)
    );
    // the bad byte is the buffer's last: still an error, not Incomplete
    assert_eq!(Request::parse(b"G\x01", &mut headers), Err(ParseError::InvalidMethod));
}

#[test]
fn empty_reason_phrase_is_valid() {
    let buf = b"HTTP/1.1 404 \r\n\r\n";
    let mut headers = Vec::<HeaderField>::new();
    let resp = complete_response(buf, &mut headers);
    assert_eq!(resp.status, 404);
    assert_eq!(bytes(buf, resp.reason), b"");
}

#[test]
fn empty_tokens_are_rejected() {
    let mut headers = Vec::<HeaderField>::new();
    assert_eq!(
        Request::parse(b" / HTTP/1.1\r\n\r\n", &mut headers),
        Err(ParseError::InvalidMethod)
    );
    assert_eq!(
        Request::parse(b"GET  HTTP/1.1\r\n\r\n", &mut headers),
        Err(ParseError::InvalidPath)
    );
    assert_eq!(
        Request::parse(b"GET / HTTP/1.1\r\n:v\r\n\r\n", &mut headers),
        Err(ParseError::InvalidFieldName)
    );
}

#[test]
fn headers_are_appended_never_cleared() {
    let first = b"old:kept\r\n\r\n";
    let mut headers = Vec::<HeaderField>::new();
    assert!(parse_headers(first, &mut headers).is_ok());
    assert_eq!(headers.len(), 1);
    // a failed attempt leaves the existing fields untouched
    assert_eq!(
        parse_headers(b"a\x01:b\r\n\r\n", &mut headers),
        Err(ParseError::InvalidFieldName)
    );
    assert_eq!(headers.len(), 1);
    assert_eq!(bytes(first, headers[0].name), b"old");
    // an incomplete attempt does too
    assert!(matches!(parse_headers(b"a:b\r\n", &mut headers), Ok(Outcome::Incomplete)));
    assert_eq!(headers.len(), 1);
    // a complete attempt appends after what was there
    let second = b"new:added\r\n\r\n";
    assert!(parse_headers(second, &mut headers).is_ok());
    assert_eq!(headers.len(), 2);
    assert_eq!(bytes(second, headers[1].name), b"new");
}

#[test]
fn parse_headers_reports_consumed_length() {
    let buf = b"name:value\r\n\r\nBODY";
    let mut headers = Vec::<HeaderField>::new();
    match parse_headers(buf, &mut headers) {
        Ok(Outcome::Complete(end)) => assert_eq!(end, 14),
        other => panic!("expected a complete header section, got {:?}", other),
    }
}

#[test]
fn bytes_after_the_blank_line_are_ignored() {
    let buf = b"GET / HTTP/1.1\r\n\r\nGARBAGE \x01\x02";
    let mut headers = Vec::<HeaderField>::new();
    let req = complete_request(buf, &mut headers);
    assert_eq!(bytes(buf, req.method), b"GET");
    assert!(headers.is_empty());
}

#[test]
fn lone_cr_inside_a_line_is_an_error() {
    let mut headers = Vec::<HeaderField>::new();
    assert_eq!(
        Request::parse(b"GET / HTTP/1.1\r\nabc:xyz\ra\n\r\n", &mut headers),
        Err(ParseError::InvalidNewLine)
    );
    assert_eq!(
        Request::parse(b"GET / HTTP/1.1\r\nabc:xyz\r\n\ra\n", &mut headers),
        Err(ParseError::InvalidNewLine)
    );
}

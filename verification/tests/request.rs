use httpparser::{HeaderField, Outcome, ParseError, Request};

fn parse(buf: &[u8]) -> Result<Outcome<Request>, ParseError> {
    let mut headers = Vec::<HeaderField>::with_capacity(10);
    Request::parse(buf, &mut headers)
}

fn good(buf: &[u8]) {
    let r = parse(buf);
    assert!(r.is_ok());
}

fn fail(buf: &[u8], kind: ParseError) {
    let r = parse(buf);
    assert!(r.is_err());
    assert_eq!(r.err().unwrap(), kind);
}

fn incomplete(buf: &[u8]) {
    let r = parse(buf);
    assert!(r.is_ok());
    assert!(r.unwrap().is_incomplete());
}

#[test]
fn good_request() {
    good(b"GET / HTTP/1.1\r\n\r\n");
    good(b"GET / HTTP/1.1\n\n");
    good(b"GET / HTTP/1.1\r\n\n");
    good(b"GET / HTTP/1.1\n\r\n");
    good(b"GET / HTTP/1.1\r\na:b\r\n\r\n");
    good(b"GET / HTTP/1.1\r\na:b\r\n\n");
    good(b"GET / HTTP/1.1\r\na:b\n\n");
    good(b"GET / HTTP/1.1\r\na:b\n\r\n");
}

#[test]
fn bad_request() {
    fail(b"G\x01ET / HTTP/1.1\r\n\r\n", ParseError::InvalidMethod);
    fail(b"GET /a\x01ef HTTP/1.1\r\n\r\n", ParseError::InvalidPath);
    fail(b"GET / HOGE\r\n\r\n", ParseError::InvalidVersion);
    fail(b"GET / HTTP/11.1\r\n\r\n", ParseError::InvalidVersion);
    fail(b"GET / HTTP/A.1\r\n\r\n", ParseError::InvalidVersion);
    fail(b"GET / HTTP/1.A\r\n\r\n", ParseError::InvalidVersion);
    fail(b"GET / HTTP/1.A\r\n\r\n", ParseError::InvalidVersion);
    fail(b"GET / HTTP/1.1\r\na\x01b:xyz\r\n\r\n", ParseError::InvalidFieldName);
    fail(b"GET / HTTP/1.1\r\nabc:x\x01z\r\n\r\n", ParseError::InvalidFieldValue);
    fail(b"GET / HTTP/1.1\r\nabc:xyz\ra\n\r\n", ParseError::InvalidNewLine);
    fail(b"GET / HTTP/1.1\r\nabc:xyz\r\n\ra\n", ParseError::InvalidNewLine);
}

#[test]
fn incomplete_request() {
    incomplete(b"");
    incomplete(b"GET");
    incomplete(b"GET ");
    incomplete(b"GET /");
    incomplete(b"GET / ");
    incomplete(b"GET / HTT");
    incomplete(b"GET / HTTP/1.");
    incomplete(b"GET / HTTP/1.1");
    incomplete(b"GET / HTTP/1.1\r");
    incomplete(b"GET / HTTP/1.1\r\n");
    incomplete(b"GET / HTTP/1.1\r\na");
    incomplete(b"GET / HTTP/1.1\r\na:");
    incomplete(b"GET / HTTP/1.1\r\na:b");
    incomplete(b"GET / HTTP/1.1\r\na:b\r");
    incomplete(b"GET / HTTP/1.1\r\na:b\r\n");
    incomplete(b"GET / HTTP/1.1\r\na:b\r\n\r");
}

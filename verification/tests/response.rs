use httpparser::{HeaderField, Outcome, ParseError, Response};

fn parse(buf: &[u8]) -> Result<Outcome<Response>, ParseError> {
    let mut headers = Vec::<HeaderField>::with_capacity(10);
    Response::parse(buf, &mut headers)
}

fn good(buf: &[u8]) {
    let r = parse(buf);
    assert!(r.is_ok());
}

fn fail(buf: &[u8], kind: ParseError) {
    let r = parse(buf);
    assert!(r.is_err());
    assert_eq!(r.err().unwrap(), kind);
}

fn incomplete(buf: &[u8]) {
    let r = parse(buf);
    assert!(r.is_ok());
    assert!(r.unwrap().is_incomplete());
}

#[test]
fn tests_good_request() {
    good(b"HTTP/1.1 200 OK\r\n\r\n");
    good(b"HTTP/1.1 200 OK\n\n");
    good(b"HTTP/1.1 200 OK\r\n\n");
    good(b"HTTP/1.1 200 OK\n\r\n");
    good(b"HTTP/1.1 200 OK\r\na:b\r\n\r\n");
    good(b"HTTP/1.1 200 OK\r\na:b\r\n\n");
    good(b"HTTP/1.1 200 OK\r\na:b\n\n");
    good(b"HTTP/1.1 200 OK\r\na:b\n\r\n");
}

#[test]
fn tests_bad_request() {
    fail(b"HOGE/1.1 200 OK\r\n\r\n", ParseError::InvalidVersion);
    fail(b"HTTP/11.1 200 OK\r\n\r\n", ParseError::InvalidVersion);
    fail(b"HTTP/A.1 200 OK\r\n\r\n", ParseError::InvalidVersion);
    fail(b"HTTP/1.A 200 OK\r\n\r\n", ParseError::InvalidVersion);
    fail(b"HTTP/1.11 200 OK\r\n\r\n", ParseError::InvalidVersion);
    fail(b"HTTP/1.1 20 OK\r\na:b\r\n\r\n", ParseError::InvalidStatusCode);
    fail(b"HTTP/1.1 2000 OK\r\na:b\r\n\r\n", ParseError::InvalidStatusCode);
    fail(b"HTTP/1.1 2A00 OK\r\na:b\r\n\r\n", ParseError::InvalidStatusCode);
    fail(b"HTTP/1.1 200 O\x01K\r\na:b\r\n\r\n", ParseError::InvalidReasonPhrase);
    fail(b"HTTP/1.1 200 O\x01K\r\na:b\r\n\r\n", ParseError::InvalidReasonPhrase);
    fail(b"HTTP/1.1 200 O\x01K\r\na\x01:b\r\n\r\n", ParseError::InvalidReasonPhrase);
}

#[test]
fn tests_incomplete_request() {
    incomplete(b"");
    incomplete(b"HTT");
    incomplete(b"HTTP/");
    incomplete(b"HTTP/1");
    incomplete(b"HTTP/1.1");
    incomplete(b"HTTP/1.1 ");
    incomplete(b"HTTP/1.1 2");
    incomplete(b"HTTP/1.1 200");
    incomplete(b"HTTP/1.1 200 ");
    incomplete(b"HTTP/1.1 200 O");
    incomplete(b"HTTP/1.1 200 OK");
    incomplete(b"HTTP/1.1 200 OK\r");
    incomplete(b"HTTP/1.1 200 OK\r\n");
    incomplete(b"HTTP/1.1 200 OK\r\na");
    incomplete(b"HTTP/1.1 200 OK\r\na:");
    incomplete(b"HTTP/1.1 200 OK\r\na:b");
    incomplete(b"HTTP/1.1 200 OK\r\na:b\r");
    incomplete(b"HTTP/1.1 200 OK\r\na:b\r\n");
    incomplete(b"HTTP/1.1 200 OK\r\na:b\r\n\r");
}

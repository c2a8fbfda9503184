use httpparser::{parse_headers, HeaderField, Outcome, ParseError, Request, Token};

fn bytes<'a>(buf: &'a [u8], t: Token) -> &'a [u8] {
    &buf[t.start..t.end]
}

#[test]
fn empty_request_is_unparsable() {
    let mut headers = Vec::<HeaderField>::with_capacity(10);
    let result = Request::parse(b"", &mut headers);
    assert!(matches!(result, Ok(Outcome::Incomplete)));
}

#[test]
fn parse_get_request() {
    let buf = b"GET / HTTP/1.1\r\nname:value\r\n\r\n";
    let mut headers = Vec::<HeaderField>::with_capacity(10);
    let result = Request::parse(buf, &mut headers);
    assert!(result.is_ok());
    let req = match result.unwrap() {
        Outcome::Complete(req) => req,
        Outcome::Incomplete => panic!("expected a complete request"),
    };
    assert_eq!(bytes(buf, req.method), b"GET");
    assert_eq!(bytes(buf, req.target), b"/");
    assert_eq!(bytes(buf, req.version), b"1.1");
    assert_eq!(headers.len(), 1);
    assert_eq!(bytes(buf, headers[0].name), b"name");
    assert_eq!(bytes(buf, headers[0].value), b"value");
}

#[test]
fn parse_a_header_field() {
    let buf = b"name:value\r\n\r\n";
    let mut headers = Vec::<HeaderField>::with_capacity(10);
    let result = parse_headers(buf, &mut headers);
    assert!(result.is_ok());
    assert_eq!(headers.len(), 1);
    assert_eq!(bytes(buf, headers[0].name), b"name");
    assert_eq!(bytes(buf, headers[0].value), b"value");
}

#[test]
fn parse_2_header_fields() {
    let buf = b"name1:value1\r\nname2:value2\r\n\r\n";
    let mut headers = Vec::<HeaderField>::with_capacity(10);
    let result = parse_headers(buf, &mut headers);
    assert!(result.is_ok());
    assert_eq!(headers.len(), 2);
    assert_eq!(bytes(buf, headers[0].name), b"name1");
    assert_eq!(bytes(buf, headers[0].value), b"value1");
    assert_eq!(bytes(buf, headers[1].name), b"name2");
    assert_eq!(bytes(buf, headers[1].value), b"value2");
}

fn fail(r: Result<Outcome<Request>, ParseError>, err: ParseError) {
    assert!(r.is_err());
    assert_eq!(r.err().unwrap(), err);
}

#[test]
fn failures() {
    let mut headers = Vec::<HeaderField>::with_capacity(10);
    fail(
        Request::parse(b"G\x01ET / HTTP/1.1\r\n\r\n", &mut headers),
        ParseError::InvalidMethod,
    );
    fail(
        Request::parse(b"G1ET /a\x01ef HTTP/1.1\r\n\r\n", &mut headers),
        ParseError::InvalidPath,
    );
    fail(
        Request::parse(b"G1ET / HOGE\r\n\r\n", &mut headers),
        ParseError::InvalidVersion,
    );
    fail(
        Request::parse(b"G1ET / HTTP/11.1\r\n\r\n", &mut headers),
        ParseError::InvalidVersion,
    );
    fail(
        Request::parse(b"G1ET / HTTP/A.1\r\n\r\n", &mut headers),
        ParseError::InvalidVersion,
    );
    fail(
        Request::parse(b"G1ET / HTTP/1.A\r\n\r\n", &mut headers),
        ParseError::InvalidVersion,
    );
}

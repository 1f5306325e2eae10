//! Byte-level behaviour: newline conversion, response serialization, and
//! the wire parser on whole requests.
use jbhttp::io::convert_lf_to_crlf;
use jbhttp::request::parser::{parse_body_params, parse_query_params, RequestParser, RequestParserError};
use jbhttp::request::{Method, Params, Request};
use jbhttp::response::RawResponse;

fn make_request(
    method: &str,
    path: &str,
    query: &str,
    fragment: &str,
    headers: &[(&str, &str)],
    body: Option<&[u8]>,
) -> Request<Vec<u8>> {
    let method = match method {
        "GET" => Method::GET,
        "HEAD" => Method::HEAD,
        "POST" => Method::POST,
        "PUT" => Method::PUT,
        "PATCH" => Method::PATCH,
        "DELETE" => Method::DELETE,
        "CONNECT" => Method::CONNECT,
        "OPTIONS" => Method::OPTIONS,
        _ => Method::TRACE,
    };
    let mut req = Request {
        method,
        path: path.to_string(),
        query: query.to_string(),
        fragment: fragment.to_string(),
        headers: headers
            .iter()
            .map(|(h, v)| (h.to_string(), v.to_string()))
            .collect(),
        content_length: body.map_or(0, |b| b.len()),
        payload: body.map(|b| b.to_vec()),
        params: Params::new(),
    };
    parse_query_params(&mut req);
    parse_body_params(&mut req);
    req
}

fn check_parse(bytes: &[u8], expected: &Request<Vec<u8>>) {
    let mut parser = RequestParser::new(bytes.to_vec());
    let actual = parser.parse().unwrap();
    assert_eq!(&actual, expected);
}

fn check_parse_error(bytes: &[u8], expected: &RequestParserError) {
    let mut parser = RequestParser::new(bytes.to_vec());
    match parser.parse() {
        Ok(_) => panic!("should have errored"),
        Err(actual) => assert_eq!(&actual, expected),
    }
}

#[test]
fn test_converter() {
    let data = b"this is a test\nreally\n";
    let converted = convert_lf_to_crlf(&data[..]);
    assert_eq!(24, converted.len());
    let expected = b"this is a test\r\nreally\r\n".to_vec();
    assert_eq!(expected[..], converted[..]);
}

#[test]
fn test_parser_get() {
    check_parse(
        b"GET /path?p1=v1&p2=v2#fragment HTTP/1.1\r\nHost: localhost\r\n\r\n",
        &make_request(
            "GET",
            "/path",
            "p1=v1&p2=v2",
            "fragment",
            &[("host", "localhost")],
            None,
        ),
    )
}

#[test]
fn test_parser_post() {
    check_parse(
        b"POST / HTTP/1.1\r\nHost: localhost\r\nContent-Length: 3\r\n\r\nfoo",
        &make_request(
            "POST",
            "/",
            "",
            "",
            &[("host", "localhost"), ("content-length", "3")],
            Some(&b"foo"[..]),
        ),
    )
}

#[test]
fn test_parser_post_body_params() {
    check_parse(
        b"POST / HTTP/1.1\r\nHost:localhost\r\nContent-Length:15\r\nContent-Type:application/www-form-urlencoded\r\n\r\nfoo=bar&foo=baz",
        &make_request(
            "POST",
            "/",
            "",
            "",
            &[("host", "localhost"), ("content-length", "15"), ("content-type", "application/www-form-urlencoded")],
            Some(&b"foo=bar&foo=baz"[..]),
        ),
    )
}

#[test]
fn test_parser_nonsense() {
    check_parse_error(b"FOO", &RequestParserError::new(0, "invalid HTTP method"));
}

#[test]
fn test_parser_content_length_too_long() {
    check_parse_error(
        b"GET / HTTP/1.1\r\nHost: localhost\r\nContent-Length: 10\r\n\r\nfoo",
        &RequestParserError::new(58, "expected 7 more bytes"),
    );
}

#[test]
fn test_response_bytes() {
    let response = RawResponse::new(500)
        .with_header("Connection", "closed")
        .with_payload(b"foobar!".to_vec());

    let actual = response.into_bytes();
    let expected =
        b"HTTP/1.1 500 Internal Server Error\r\nConnection: closed\r\nContent-Length: 7\r\n\r\nfoobar!";
    assert_eq!(expected[..], actual[..]);
}

#[test]
fn test_parser_http_10_accepted() {
    let req = make_request("GET", "/", "", "", &[("host", "x")], None);
    check_parse(b"GET / HTTP/1.0\r\nHost: x\r\n\r\n", &req);
}

#[test]
fn test_parser_bad_version_digit() {
    let mut parser = RequestParser::new(b"GET / HTTP/1.2\r\n\r\n".to_vec());
    assert!(parser.parse().is_err());
}

#[test]
fn test_parser_invalid_content_length() {
    let mut parser =
        RequestParser::new(b"GET / HTTP/1.1\r\nContent-Length: abc\r\n\r\n".to_vec());
    let err = parser.parse().unwrap_err();
    assert_eq!(err.reason(), "invalid content-length");
}

#[test]
fn test_parser_duplicate_header_last_value_wins() {
    let mut parser =
        RequestParser::new(b"GET / HTTP/1.1\r\nX-A: one\r\nX-A: two\r\n\r\n".to_vec());
    let req = parser.parse().unwrap();
    assert_eq!(req.headers, vec![("x-a".to_string(), "two".to_string())]);
}

#[test]
fn test_parser_header_value_trimmed_of_surrounding_blanks() {
    let mut parser =
        RequestParser::new(b"GET / HTTP/1.1\r\nX-A: \t a middle b \t \r\n\r\n".to_vec());
    let req = parser.parse().unwrap();
    assert_eq!(req.headers, vec![("x-a".to_string(), "a middle b".to_string())]);
}

#[test]
fn test_parser_error_position_marks_truncated_input() {
    let mut parser = RequestParser::new(b"GET / HT".to_vec());
    let err = parser.parse().unwrap_err();
    assert!(err.needs_more_input(8));
    let mut parser = RequestParser::new(b"FOO bar".to_vec());
    let err = parser.parse().unwrap_err();
    assert!(!err.needs_more_input(7));
}

#[test]
fn test_parser_missing_path_slash() {
    let mut parser = RequestParser::new(b"GET path HTTP/1.1\r\n\r\n".to_vec());
    let err = parser.parse().unwrap_err();
    assert_eq!(err.reason(), "expected path starting with /");
}

#[test]
fn test_response_no_payload_no_content_length() {
    let response = RawResponse::new(204);
    let actual = response.into_bytes();
    assert_eq!(&b"HTTP/1.1 204 No Content\r\n\r\n"[..], &actual[..]);
}

#[test]
fn test_status_table_default() {
    assert_eq!(jbhttp::response::status::default(404), "Not Found");
    assert_eq!(jbhttp::response::status::default(200), "OK");
    assert_eq!(jbhttp::response::status::default(999), "Unknown");
}

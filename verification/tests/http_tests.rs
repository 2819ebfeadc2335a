use http_server::http::headers::Headers;
use http_server::http::request::{HttpRequest, Method, ParseError};
use http_server::http::response::HttpResponse;
use http_server::http::status::StatusCode;
use http_server::http::text::{decimal_string, parse_usize};

fn parse_ok(raw: &str) -> HttpRequest {
    match HttpRequest::parse(raw) {
        Ok(r) => r,
        Err(e) => panic!("parse failed: {}", e.message()),
    }
}

#[test]
fn parse_simple_get() {
    let req = parse_ok("GET / HTTP/1.1\r\nHost: localhost\r\n\r\n");
    assert!(matches!(req.method, Method::Get));
    assert_eq!(req.path, "/");
    assert_eq!(req.version, "HTTP/1.1");
    assert_eq!(req.headers.get("Host").map(|s| s.as_str()), Some("localhost"));
    assert_eq!(req.headers.len(), 1);
    assert!(req.body.is_none());
}

#[test]
fn parse_post_with_body() {
    let req = parse_ok("POST /echo HTTP/1.1\r\nContent-Length: 5\r\nContent-Type: text/plain\r\n\r\nhello");
    assert!(matches!(req.method, Method::Post));
    assert_eq!(req.path, "/echo");
    assert_eq!(req.body, Some(b"hello".to_vec()));
    assert_eq!(req.content_length(), 5);
    assert_eq!(req.content_type(), Some("text/plain"));
}

#[test]
fn parse_all_known_methods() {
    let cases = [
        ("GET", "Get"),
        ("POST", "Post"),
        ("PUT", "Put"),
        ("DELETE", "Delete"),
        ("HEAD", "Head"),
        ("OPTIONS", "Options"),
        ("PATCH", "Patch"),
    ];
    for (token, name) in cases {
        let req = parse_ok(&format!("{} /x HTTP/1.1\r\n\r\n", token));
        assert_eq!(format!("{:?}", req.method), name);
    }
}

#[test]
fn parse_unknown_method_keeps_token() {
    let req = parse_ok("BREW /pot HTTP/1.1\r\n\r\n");
    match req.method {
        Method::Unknown(s) => assert_eq!(s, "BREW"),
        other => panic!("unexpected method {:?}", other),
    }
    let req = parse_ok("get / HTTP/1.1\r\n\r\n");
    assert!(matches!(req.method, Method::Unknown(ref s) if s == "get"));
}

#[test]
fn parse_empty_request() {
    assert!(matches!(HttpRequest::parse(""), Err(ParseError::EmptyRequest)));
    assert!(matches!(HttpRequest::parse("\r\n\r\nbody"), Err(ParseError::EmptyRequest)));
}

#[test]
fn parse_malformed_request_line() {
    assert!(matches!(HttpRequest::parse("GET\r\n\r\n"), Err(ParseError::MalformedRequestLine)));
    assert!(matches!(HttpRequest::parse("GET /\r\n\r\n"), Err(ParseError::MalformedRequestLine)));
}

#[test]
fn parse_malformed_header() {
    match HttpRequest::parse("GET / HTTP/1.1\r\nHost: a\r\nBadHeader\r\n\r\n") {
        Err(ParseError::MalformedHeader(h)) => assert_eq!(h, "BadHeader"),
        other => panic!("unexpected {:?}", other),
    }
    match HttpRequest::parse("GET / HTTP/1.1\r\nNoSpace:x\r\n\r\n") {
        Err(ParseError::MalformedHeader(h)) => assert_eq!(h, "NoSpace:x"),
        other => panic!("unexpected {:?}", other),
    }
}

#[test]
fn parse_error_messages() {
    assert_eq!(ParseError::EmptyRequest.message(), "request is empty");
    assert_eq!(ParseError::MalformedRequestLine.message(), "malformed request line");
    assert_eq!(
        ParseError::MalformedHeader("X".to_string()).message(),
        "malformed header: X"
    );
}

#[test]
fn parse_version_keeps_extra_spaces() {
    let req = parse_ok("GET /a b HTTP/1.1\r\n\r\n");
    assert_eq!(req.path, "/a");
    assert_eq!(req.version, "b HTTP/1.1");
    let req = parse_ok("GET  HTTP/1.1\r\n\r\n");
    assert_eq!(req.path, "");
    assert_eq!(req.version, "HTTP/1.1");
}

#[test]
fn parse_later_header_wins() {
    let req = parse_ok("GET / HTTP/1.1\r\nX: 1\r\nY: 2\r\nX: 3\r\n\r\n");
    assert_eq!(req.headers.get("X").map(|s| s.as_str()), Some("3"));
    assert_eq!(req.headers.get("Y").map(|s| s.as_str()), Some("2"));
    assert_eq!(req.headers.len(), 2);
    let (k, v) = req.headers.entry(0);
    assert_eq!((k.as_str(), v.as_str()), ("X", "3"));
}

#[test]
fn parse_header_value_split_at_first_separator() {
    let req = parse_ok("GET / HTTP/1.1\r\nA: b: c\r\n\r\n");
    assert_eq!(req.headers.get("A").map(|s| s.as_str()), Some("b: c"));
}

#[test]
fn parse_bare_newlines_and_blank_line() {
    let req = parse_ok("GET / HTTP/1.1\nA: 1\n\nB: 2");
    assert_eq!(req.headers.get("A").map(|s| s.as_str()), Some("1"));
    assert!(req.headers.get("B").is_none());
    assert!(req.body.is_none());
}

#[test]
fn parse_without_blank_line_has_no_body() {
    let req = parse_ok("GET / HTTP/1.1\r\nA: 1");
    assert_eq!(req.headers.get("A").map(|s| s.as_str()), Some("1"));
    assert!(req.body.is_none());
}

#[test]
fn parse_body_is_utf8_of_rest() {
    let req = parse_ok("POST / HTTP/1.1\r\n\r\nh\u{e9}\r\n\r\nx");
    assert_eq!(req.body, Some("h\u{e9}\r\n\r\nx".as_bytes().to_vec()));
}

#[test]
fn content_length_edge_cases() {
    let cl = |v: &str| parse_ok(&format!("GET / HTTP/1.1\r\nContent-Length: {}\r\n\r\n", v)).content_length();
    assert_eq!(cl("42"), 42);
    assert_eq!(cl("+7"), 7);
    assert_eq!(cl("abc"), 0);
    assert_eq!(cl("-1"), 0);
    assert_eq!(cl(" 5"), 0);
    assert_eq!(cl("99999999999999999999999"), 0);
    assert_eq!(parse_ok("GET / HTTP/1.1\r\n\r\n").content_length(), 0);
    assert_eq!(parse_ok("GET / HTTP/1.1\r\n\r\n").content_type(), None);
}

#[test]
fn parse_usize_matches_std() {
    for s in ["0", "7", "+12", "", "+", "-3", "1a", "18446744073709551615", "18446744073709551616", "007"] {
        assert_eq!(parse_usize(s), s.parse::<usize>().ok(), "input {:?}", s);
    }
}

#[test]
fn decimal_string_matches_to_string() {
    for n in [0usize, 9, 10, 13, 404, 8192, usize::MAX] {
        assert_eq!(decimal_string(n), n.to_string());
        assert_eq!(parse_usize(&decimal_string(n)), Some(n));
    }
}

#[test]
fn headers_insert_then_get() {
    let mut h = Headers::new();
    h.insert("A".to_string(), "1".to_string());
    h.insert("B".to_string(), "2".to_string());
    h.insert("A".to_string(), "3".to_string());
    assert_eq!(h.get("A").map(|s| s.as_str()), Some("3"));
    assert_eq!(h.get("B").map(|s| s.as_str()), Some("2"));
    assert!(h.get("C").is_none());
    assert_eq!(h.len(), 2);
    let (k0, v0) = h.entry(0);
    assert_eq!((k0.as_str(), v0.as_str()), ("A", "3"));
}

#[test]
fn status_codes_and_reasons() {
    let all = [
        (StatusCode::OK, 200, "OK"),
        (StatusCode::Created, 201, "Created"),
        (StatusCode::NoContent, 204, "No Content"),
        (StatusCode::MovedPermanently, 301, "Moved Permanently"),
        (StatusCode::Found, 302, "Found"),
        (StatusCode::NotModified, 304, "Not Modified"),
        (StatusCode::BadRequest, 400, "Bad Request"),
        (StatusCode::Unauthorized, 401, "Unauthorized"),
        (StatusCode::Forbidden, 403, "Forbidden"),
        (StatusCode::NotFound, 404, "Not Found"),
        (StatusCode::MethodNotAllowed, 405, "Method Not Allowed"),
        (StatusCode::UnprocessableEntity, 422, "Unprocessable Entity"),
        (StatusCode::InternalServerError, 500, "Internal Server Error"),
        (StatusCode::NotImplemented, 501, "Not Implemented"),
        (StatusCode::BadGateway, 502, "Bad Gateway"),
        (StatusCode::ServiceUnavailable, 503, "Service Unavailable"),
    ];
    let mut codes = Vec::new();
    for (s, c, r) in all {
        assert_eq!(s.code(), c);
        assert_eq!(s.reason(), r);
        assert!(!codes.contains(&c));
        codes.push(c);
    }
}

#[test]
fn not_found_bytes() {
    let r = HttpResponse::not_found();
    assert_eq!(r.status, StatusCode::NotFound);
    assert_eq!(
        r.to_bytes(),
        b"HTTP/1.1 404 Not Found\r\nContent-Type: text/plain\r\nContent-Length: 13\r\n\r\n404 Not Found".to_vec()
    );
}

#[test]
fn error_responses() {
    let r = HttpResponse::internal_server_error();
    assert_eq!(r.status.code(), 500);
    assert_eq!(r.body, Some(b"500 Internal Server Error".to_vec()));
    assert_eq!(r.headers.get("Content-Length").map(|s| s.as_str()), Some("25"));
    let r = HttpResponse::method_not_allowed();
    assert_eq!(r.status.code(), 405);
    assert_eq!(r.body, Some(b"405 Method Not Allowed".to_vec()));
    assert_eq!(r.headers.get("Content-Type").map(|s| s.as_str()), Some("text/plain"));
}

#[test]
fn ok_response_bytes() {
    let r = HttpResponse::ok(b"hi".to_vec(), "text/html");
    assert_eq!(
        r.to_bytes(),
        b"HTTP/1.1 200 OK\r\nContent-Type: text/html\r\nContent-Length: 2\r\n\r\nhi".to_vec()
    );
}

#[test]
fn bare_response_bytes() {
    let r = HttpResponse::new(StatusCode::NoContent);
    assert!(r.body.is_none());
    assert_eq!(r.headers.len(), 0);
    assert_eq!(r.to_bytes(), b"HTTP/1.1 204 No Content\r\n\r\n".to_vec());
}

#[test]
fn header_replaced_in_place() {
    let r = HttpResponse::new(StatusCode::OK)
        .header("A", "1")
        .header("B", "2")
        .header("A", "3");
    assert_eq!(r.to_bytes(), b"HTTP/1.1 200 OK\r\nA: 3\r\nB: 2\r\n\r\n".to_vec());
}

#[test]
fn body_sets_content_length_that_reads_back() {
    let body = vec![7u8; 1234];
    let resp = HttpResponse::new(StatusCode::OK).body(body.clone());
    assert_eq!(resp.body, Some(body));
    let len = resp.headers.get("Content-Length").unwrap().clone();
    let req = parse_ok(&format!("POST / HTTP/1.1\r\nContent-Length: {}\r\n\r\n", len));
    assert_eq!(req.content_length(), 1234);
    let bytes = resp.to_bytes();
    assert!(bytes.ends_with(&vec![7u8; 1234]));
    assert!(bytes.starts_with(b"HTTP/1.1 200 OK\r\nContent-Length: 1234\r\n\r\n"));
}

#[test]
fn non_ascii_header_is_utf8_encoded() {
    let r = HttpResponse::new(StatusCode::OK).header("X", "\u{e9}");
    assert_eq!(r.to_bytes(), "HTTP/1.1 200 OK\r\nX: \u{e9}\r\n\r\n".as_bytes().to_vec());
}

#[test]
fn carriage_return_kept_on_unterminated_last_line() {
    let req = parse_ok("GET / HTTP/1.1\r\nA: 1\r");
    assert_eq!(req.headers.get("A").map(|s| s.as_str()), Some("1\r"));
    let req = parse_ok("GET / HTTP/1.1\r\nA: 1\r\n");
    assert_eq!(req.headers.get("A").map(|s| s.as_str()), Some("1"));
}

#[test]
fn request_line_with_trailing_carriage_return_only() {
    let req = parse_ok("GET / HTTP/1.1\r");
    assert_eq!(req.version, "HTTP/1.1\r");
}

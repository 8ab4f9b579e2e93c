use prefork_http::http::{
    bad_request, build_response, method_not_allowed, ok, parse_request, Method, ParseError,
};

fn contains(hay: &[u8], needle: &[u8]) -> bool {
    hay.windows(needle.len()).any(|w| w == needle)
}

#[test]
fn parse_get_simple() {
    let req = parse_request(b"GET /index.html HTTP/1.1\r\nHost: x\r\n\r\n").unwrap();
    assert!(matches!(req.method, Method::Get));
    assert_eq!(req.target, b"/index.html".to_vec());
}

#[test]
fn parse_head() {
    let req = parse_request(b"HEAD /style.css HTTP/1.1\r\n\r\n").unwrap();
    assert!(matches!(req.method, Method::Head));
    assert_eq!(req.target, b"/style.css".to_vec());
}

#[test]
fn parse_strips_query() {
    let req = parse_request(b"GET /a?b=c&d=e HTTP/1.1\r\n\r\n").unwrap();
    assert_eq!(req.target, b"/a".to_vec());
}

#[test]
fn parse_other_method_kept_verbatim() {
    let req = parse_request(b"DELETE /index.html HTTP/1.1\r\n\r\n").unwrap();
    match req.method {
        Method::Other(tok) => assert_eq!(tok, b"DELETE".to_vec()),
        _ => panic!("expected Other"),
    }
}

#[test]
fn parse_missing_request_line() {
    let e = parse_request(b"GET /index.html HTTP/1.1").unwrap_err();
    assert_eq!(e, ParseError::MissingRequestLine);
}

#[test]
fn parse_missing_target() {
    let e = parse_request(b"GET\r\n\r\n").unwrap_err();
    assert_eq!(e, ParseError::MissingTarget);
}

#[test]
fn parse_missing_version() {
    let e = parse_request(b"GET /\r\n\r\n").unwrap_err();
    assert_eq!(e, ParseError::MissingVersion);
}

#[test]
fn parse_target_not_utf8() {
    let e = parse_request(b"GET /\xff\xfe HTTP/1.1\r\n\r\n").unwrap_err();
    assert_eq!(e, ParseError::TargetNotUtf8);
}

#[test]
fn parse_target_not_absolute() {
    let e = parse_request(b"GET index.html HTTP/1.1\r\n\r\n").unwrap_err();
    assert_eq!(e, ParseError::TargetNotAbsolute);
}

#[test]
fn parse_empty_version_field_accepted() {
    // "GET / " has three space-separated fields, the last one empty
    let req = parse_request(b"GET / \r\n\r\n").unwrap();
    assert!(matches!(req.method, Method::Get));
    assert_eq!(req.target, b"/".to_vec());
}

#[test]
fn build_response_exact_bytes() {
    let r = build_response(200, "OK", b"hello", 5, "text/html; charset=utf-8", &[]);
    let expected = b"HTTP/1.1 200 OK\r\nContent-Type: text/html; charset=utf-8\r\nContent-Length: 5\r\nConnection: close\r\n\r\nhello";
    assert_eq!(r, expected.to_vec());
}

#[test]
fn build_response_extra_headers_in_order() {
    let r = build_response(
        204,
        "No Content",
        b"",
        0,
        "text/plain; charset=utf-8",
        &[("A", "1"), ("B", "2")],
    );
    let expected = b"HTTP/1.1 204 No Content\r\nContent-Type: text/plain; charset=utf-8\r\nContent-Length: 0\r\nConnection: close\r\nA: 1\r\nB: 2\r\n\r\n";
    assert_eq!(r, expected.to_vec());
}

#[test]
fn declared_length_is_independent_of_body() {
    // HEAD responses declare the real resource size over an empty body
    let r = build_response(200, "OK", b"", 512, "text/css; charset=utf-8", &[]);
    assert!(contains(&r, b"Content-Length: 512\r\n"));
    assert!(r.ends_with(b"\r\n\r\n"));
}

#[test]
fn every_builder_sets_connection_close() {
    let responses = vec![
        ok(b"x", 1, "text/plain; charset=utf-8"),
        bad_request("missing target"),
        method_not_allowed(),
        build_response(500, "Internal Server Error", b"", 0, "text/plain; charset=utf-8", &[]),
    ];
    for r in responses {
        assert!(contains(&r, b"Connection: close\r\n"));
    }
}

#[test]
fn method_not_allowed_shape() {
    let r = method_not_allowed();
    assert!(r.starts_with(b"HTTP/1.1 405 Method Not Allowed\r\n"));
    assert!(contains(&r, b"Allow: GET, HEAD\r\n"));
    assert!(r.ends_with(b"\r\n\r\nMethod Not Allowed"));
}

#[test]
fn bad_request_carries_message() {
    let r = bad_request("target must start with /");
    assert!(r.starts_with(b"HTTP/1.1 400 Bad Request\r\n"));
    assert!(r.ends_with(b"\r\n\r\ntarget must start with /"));
}

use http_server::http::request::{HttpRequest, HttpRequestBuilder, Method, PeerAddr};

fn parse(text: &str) -> Option<HttpRequest> {
    HttpRequest::from_stream(text.as_bytes(), None)
}

#[test]
fn method_names() {
    assert_eq!(Method::GET.to_string(), "GET");
    assert_eq!(Method::POST.to_string(), "POST");
    assert_eq!(Method::PUT.to_string(), "PUT");
    assert_eq!(Method::DELETE.to_string(), "DELETE");
}

#[test]
fn method_tokens_are_case_sensitive() {
    assert_eq!(Method::from_string("GET"), Some(Method::GET));
    assert_eq!(Method::from_string("POST"), Some(Method::POST));
    assert_eq!(Method::from_string("PUT"), Some(Method::PUT));
    assert_eq!(Method::from_string("DELETE"), Some(Method::DELETE));
    assert_eq!(Method::from_string("get"), None);
    assert_eq!(Method::from_string("Get"), None);
    assert_eq!(Method::from_string("PATCH"), None);
    assert_eq!(Method::from_string(""), None);
    assert_eq!(Method::from_string("GET "), None);
}

#[test]
fn method_round_trip() {
    for m in [Method::GET, Method::POST, Method::PUT, Method::DELETE] {
        assert_eq!(Method::from_string(&m.to_string()), Some(m));
    }
}

#[test]
fn request_line_fields_equal_the_tokens() {
    let req = parse("GET /index.html HTTP/1.1\r\n\r\n").unwrap();
    assert_eq!(req.method, Method::GET);
    assert_eq!(req.route, "/index.html");
    assert_eq!(req.http_version, "HTTP/1.1");
    assert_eq!(req.headers.len(), 0);
    assert_eq!(req.body, None);
    assert_eq!(req.ip, None);

    let req = parse("DELETE /a/b?c=d HTTP/1.0\n").unwrap();
    assert_eq!(req.method, Method::DELETE);
    assert_eq!(req.route, "/a/b?c=d");
    assert_eq!(req.http_version, "HTTP/1.0");
}

#[test]
fn peer_address_is_kept() {
    let ip = Some(PeerAddr::V4 { octets: [127, 0, 0, 1], port: 4242 });
    let req = HttpRequest::from_stream(b"GET / HTTP/1.1\r\n\r\n", ip).unwrap();
    assert_eq!(req.ip, ip);
}

#[test]
fn body_is_exactly_content_length_bytes() {
    let req = parse("POST /submit HTTP/1.1\r\nContent-Length: 5\r\n\r\nhello").unwrap();
    assert_eq!(req.method, Method::POST);
    assert_eq!(req.body.as_deref(), Some("hello"));
    assert_eq!(req.headers.get("Content-Length").map(String::as_str), Some("5"));
}

#[test]
fn body_stops_at_content_length() {
    let req = parse("POST / HTTP/1.1\r\nContent-Length: 5\r\n\r\nhello world").unwrap();
    assert_eq!(req.body.as_deref(), Some("hello"));
    let req = parse("POST / HTTP/1.1\r\nContent-Length: 0\r\n\r\nhello").unwrap();
    assert_eq!(req.body.as_deref(), Some(""));
}

#[test]
fn body_is_decoded_with_replacements() {
    let mut bytes = b"PUT /x HTTP/1.1\r\nContent-Length: 4\r\n\r\n".to_vec();
    bytes.extend_from_slice(&[b'a', 0xff, b'b', 0xfe]);
    let req = HttpRequest::from_stream(&bytes, None).unwrap();
    assert_eq!(req.body.as_deref(), Some("a\u{fffd}b\u{fffd}"));

    let mut bytes = b"PUT /x HTTP/1.1\r\nContent-Length: 3\r\n\r\n".to_vec();
    bytes.extend_from_slice("\u{20ac}".as_bytes());
    let req = HttpRequest::from_stream(&bytes, None).unwrap();
    assert_eq!(req.body.as_deref(), Some("\u{20ac}"));
}

#[test]
fn no_content_length_means_no_body() {
    let req = parse("GET / HTTP/1.1\r\nHost: example\r\n\r\ntrailing bytes that are no body").unwrap();
    assert_eq!(req.body, None);
    let req = parse("GET / HTTP/1.1\r\ncontent-length: 3\r\n\r\nabc").unwrap();
    assert_eq!(req.body, None);
}

#[test]
fn fewer_than_three_tokens_fail() {
    assert!(parse("").is_none());
    assert!(parse("\r\n").is_none());
    assert!(parse("GET\r\n\r\n").is_none());
    assert!(parse("GET /\r\n\r\n").is_none());
    assert!(parse("GET / \r\n\r\n").is_none());
}

#[test]
fn unknown_method_fails() {
    assert!(parse("PATCH / HTTP/1.1\r\n\r\n").is_none());
    assert!(parse("get / HTTP/1.1\r\n\r\n").is_none());
}

#[test]
fn request_line_is_trimmed_and_split_at_single_spaces() {
    let req = parse("  GET / HTTP/1.1 \t\r\n\r\n").unwrap();
    assert_eq!(req.route, "/");
    assert_eq!(req.http_version, "HTTP/1.1");
    // Two spaces in a row part an empty token.
    let req = parse("GET  HTTP/1.1\r\n\r\n").unwrap();
    assert_eq!(req.route, "");
    assert_eq!(req.http_version, "HTTP/1.1");
    // Tokens after the third are passed over.
    let req = parse("GET / HTTP/1.1 extra\r\n\r\n").unwrap();
    assert_eq!(req.http_version, "HTTP/1.1");
    // A tab parts no tokens.
    assert!(parse("GET\t/\tHTTP/1.1\r\n\r\n").is_none());
}

#[test]
fn headers_split_at_first_colon_space() {
    let req = parse("GET / HTTP/1.1\r\nHost: a: b\r\nX-Empty: \r\n: v\r\n\r\n").unwrap();
    assert_eq!(req.headers.get("Host").map(String::as_str), Some("a: b"));
    assert_eq!(req.headers.get("X-Empty").map(String::as_str), Some(""));
    assert_eq!(req.headers.get("").map(String::as_str), Some("v"));
    assert_eq!(req.headers.len(), 3);
}

#[test]
fn lines_without_separator_are_skipped() {
    let req = parse("GET / HTTP/1.1\r\nNoSeparator\r\nAlso:none\r\nHost: h\r\n\r\n").unwrap();
    assert_eq!(req.headers.len(), 1);
    assert_eq!(req.headers.get("Host").map(String::as_str), Some("h"));
    assert!(req.headers.get("NoSeparator").is_none());
}

#[test]
fn duplicate_headers_overwrite() {
    let req = parse("GET / HTTP/1.1\r\nA: 1\r\nB: 2\r\nA: 3\r\n\r\n").unwrap();
    assert_eq!(req.headers.len(), 2);
    assert_eq!(req.headers.get("A").map(String::as_str), Some("3"));
    assert_eq!(req.headers.get("B").map(String::as_str), Some("2"));
}

#[test]
fn header_names_are_case_sensitive() {
    let req = parse("GET / HTTP/1.1\r\nHost: a\r\nhost: b\r\n\r\n").unwrap();
    assert_eq!(req.headers.get("Host").map(String::as_str), Some("a"));
    assert_eq!(req.headers.get("host").map(String::as_str), Some("b"));
    assert!(req.headers.get("HOST").is_none());
}

#[test]
fn headers_end_with_the_stream() {
    let req = parse("GET / HTTP/1.1\r\nHost: a").unwrap();
    assert_eq!(req.headers.get("Host").map(String::as_str), Some("a"));
    let req = parse("GET / HTTP/1.1").unwrap();
    assert_eq!(req.headers.len(), 0);
}

#[test]
fn bare_line_feeds_end_lines() {
    let req = parse("POST / HTTP/1.1\nContent-Length: 2\n\nhi").unwrap();
    assert_eq!(req.body.as_deref(), Some("hi"));
}

#[test]
fn carriage_return_is_stripped_only_before_a_line_feed() {
    let req = parse("GET / HTTP/1.1\r\nA: x\r").unwrap();
    assert_eq!(req.headers.get("A").map(String::as_str), Some("x\r"));
}

#[test]
fn bad_content_length_fails() {
    assert!(parse("POST / HTTP/1.1\r\nContent-Length: five\r\n\r\nhello").is_none());
    assert!(parse("POST / HTTP/1.1\r\nContent-Length: \r\n\r\n").is_none());
    assert!(parse("POST / HTTP/1.1\r\nContent-Length: -1\r\n\r\n").is_none());
    assert!(parse("POST / HTTP/1.1\r\nContent-Length: 5 \r\n\r\nhello").is_none());
    assert!(parse("POST / HTTP/1.1\r\nContent-Length: 99999999999999999999999999\r\n\r\n").is_none());
}

#[test]
fn content_length_may_carry_a_plus_sign_and_zeros() {
    let req = parse("POST / HTTP/1.1\r\nContent-Length: +2\r\n\r\nhi").unwrap();
    assert_eq!(req.body.as_deref(), Some("hi"));
    let req = parse("POST / HTTP/1.1\r\nContent-Length: 002\r\n\r\nhi").unwrap();
    assert_eq!(req.body.as_deref(), Some("hi"));
}

#[test]
fn short_body_fails() {
    assert!(parse("POST / HTTP/1.1\r\nContent-Length: 6\r\n\r\nhello").is_none());
    assert!(parse("POST / HTTP/1.1\r\nContent-Length: 1\r\n").is_none());
}

#[test]
fn invalid_utf8_in_the_head_fails() {
    let mut bytes = b"GET /".to_vec();
    bytes.push(0xff);
    bytes.extend_from_slice(b" HTTP/1.1\r\n\r\n");
    assert!(HttpRequest::from_stream(&bytes, None).is_none());

    let mut bytes = b"GET / HTTP/1.1\r\nHost: ".to_vec();
    bytes.push(0xc3);
    bytes.extend_from_slice(b"\r\n\r\n");
    assert!(HttpRequest::from_stream(&bytes, None).is_none());
}

#[test]
fn invalid_utf8_after_the_head_is_no_failure() {
    let mut bytes = b"GET / HTTP/1.1\r\n\r\n".to_vec();
    bytes.push(0xff);
    assert!(HttpRequest::from_stream(&bytes, None).is_some());
}

#[test]
fn non_ascii_route() {
    let req = parse("GET /caf\u{e9} HTTP/1.1\r\n\r\n").unwrap();
    assert_eq!(req.route, "/caf\u{e9}");
}

#[test]
fn with_parts_resolves_the_method() {
    let headers = http_server::text_map::TextMap::new();
    let req = HttpRequest::with_parts(
        None,
        "PUT",
        "/r".to_string(),
        "HTTP/1.1".to_string(),
        headers,
        Some("b".to_string()),
    )
    .unwrap();
    assert_eq!(req.method, Method::PUT);
    assert_eq!(req.route, "/r");
    assert_eq!(req.body.as_deref(), Some("b"));
    let headers = http_server::text_map::TextMap::new();
    assert!(HttpRequest::with_parts(
        None,
        "put",
        "/r".to_string(),
        "HTTP/1.1".to_string(),
        headers,
        None
    )
    .is_none());
}

#[test]
fn request_is_written_out() {
    let req = parse("POST /p HTTP/1.1\r\nA: 1\r\nB: 2\r\nContent-Length: 2\r\n\r\nhi").unwrap();
    assert_eq!(
        req.to_string(),
        "POST /p HTTP/1.1\r\nA: 1\r\nB: 2\r\nContent-Length: 2\r\n\r\nhi"
    );
    let req = parse("GET / HTTP/1.1\r\n\r\n").unwrap();
    assert_eq!(req.to_string(), "GET / HTTP/1.1\r\n\r\n\r\n");
}

#[test]
fn builder_defaults() {
    let req = HttpRequestBuilder::default().build();
    assert_eq!(req.method, Method::GET);
    assert_eq!(req.route, "/");
    assert_eq!(req.http_version, "HTTP/1.1");
    assert_eq!(req.headers.len(), 0);
    assert_eq!(req.body, None);
    assert_eq!(req.ip, None);
}

#[test]
fn builder_sets_fields() {
    let b = HttpRequestBuilder::new();
    assert!(!b.is_complete());
    let b = b.method(Method::POST);
    assert!(!b.is_complete());
    let b = b.route("/x".to_string());
    assert!(b.is_complete());
    let req = b
        .http_version("HTTP/1.0".to_string())
        .header("A".to_string(), Some("1".to_string()))
        .header("B".to_string(), Some("2".to_string()))
        .body("payload".to_string())
        .build();
    assert_eq!(req.method, Method::POST);
    assert_eq!(req.route, "/x");
    assert_eq!(req.http_version, "HTTP/1.0");
    assert_eq!(req.headers.get("A").map(String::as_str), Some("1"));
    assert_eq!(req.headers.get("B").map(String::as_str), Some("2"));
    assert_eq!(req.body.as_deref(), Some("payload"));
}

#[test]
fn builder_header_without_value_is_left_out() {
    let req = HttpRequestBuilder::default()
        .header("A".to_string(), Some("1".to_string()))
        .header("B".to_string(), None)
        .header("A".to_string(), None)
        .header("C".to_string(), None)
        .header("C".to_string(), Some("3".to_string()))
        .build();
    assert!(req.headers.get("A").is_none());
    assert!(req.headers.get("B").is_none());
    assert_eq!(req.headers.get("C").map(String::as_str), Some("3"));
    assert_eq!(req.headers.len(), 1);
}

#[test]
fn request_builder_clone_is_independent() {
    let a = HttpRequestBuilder::default().header("A".to_string(), Some("1".to_string()));
    let b = a.clone().header("A".to_string(), Some("2".to_string()));
    assert_eq!(a.build().headers.get("A").map(String::as_str), Some("1"));
    assert_eq!(b.build().headers.get("A").map(String::as_str), Some("2"));
}

#[test]
fn trailing_bytes_change_nothing() {
    let complete = "POST /p HTTP/1.1\r\nA: 1\r\nContent-Length: 2\r\n\r\nhi";
    let a = parse(complete).unwrap();
    for tail in ["", "more", "\r\n\r\nGET / HTTP/1.1\r\n\r\n", "\u{20ac}"] {
        let b = parse(&format!("{}{}", complete, tail)).unwrap();
        assert_eq!(a.method, b.method);
        assert_eq!(a.route, b.route);
        assert_eq!(a.http_version, b.http_version);
        assert_eq!(a.body, b.body);
        assert_eq!(a.headers.len(), b.headers.len());
        assert_eq!(a.headers.get("A"), b.headers.get("A"));
        assert_eq!(a.to_string(), b.to_string());
    }
}

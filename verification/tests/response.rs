use http_server::http::response::{HttpResponse, HttpResponseBuilder, ResStatus};

#[test]
fn response_is_written_out_exactly() {
    let response = HttpResponseBuilder::new()
        .status(ResStatus::OK)
        .header("Content-Length".to_string(), "5".to_string())
        .html("hello".to_string())
        .build();
    assert_eq!(
        response.to_string(),
        "HTTP/1.1 200 OK\r\nContent-Length: 5\r\n\r\nhello"
    );
}

#[test]
fn status_lines() {
    assert_eq!(ResStatus::OK.to_status_line(), "200 OK");
    assert_eq!(ResStatus::NotFound.to_status_line(), "404 Not Found");
}

#[test]
fn headers_keep_their_order_and_duplicates() {
    let response = HttpResponse {
        status_line: "HTTP/1.1 404 Not Found".to_string(),
        headers: vec![
            ("B".to_string(), "2".to_string()),
            ("A".to_string(), "1".to_string()),
            ("B".to_string(), "3".to_string()),
        ],
        html: String::new(),
    };
    assert_eq!(
        response.to_string(),
        "HTTP/1.1 404 Not Found\r\nB: 2\r\nA: 1\r\nB: 3\r\n\r\n"
    );
}

#[test]
fn builder_new_has_no_status() {
    assert!(!HttpResponseBuilder::new().has_status());
    assert!(HttpResponseBuilder::new().status(ResStatus::NotFound).has_status());
}

#[test]
fn builder_default_is_ok_and_empty() {
    let builder = HttpResponseBuilder::default();
    assert!(builder.has_status());
    let response = builder.build();
    assert_eq!(response.status_line, "HTTP/1.1 200 OK");
    assert!(response.headers.is_empty());
    assert_eq!(response.html, "");
    assert_eq!(response.to_string(), "HTTP/1.1 200 OK\r\n\r\n");
}

#[test]
fn builder_later_status_and_body_replace_earlier() {
    let response = HttpResponseBuilder::new()
        .status(ResStatus::OK)
        .html("one".to_string())
        .status(ResStatus::NotFound)
        .html("two".to_string())
        .build();
    assert_eq!(response.to_string(), "HTTP/1.1 404 Not Found\r\n\r\ntwo");
}

#[test]
fn builder_adds_no_header_of_its_own() {
    let response = HttpResponseBuilder::new()
        .status(ResStatus::OK)
        .html("a body of some length".to_string())
        .build();
    assert!(response.headers.is_empty());
}

#[test]
fn body_is_written_verbatim() {
    let response = HttpResponseBuilder::new()
        .status(ResStatus::OK)
        .html("line\r\n\r\n\u{20ac}\n".to_string())
        .build();
    assert_eq!(response.to_string(), "HTTP/1.1 200 OK\r\n\r\nline\r\n\r\n\u{20ac}\n");
}

#[test]
fn response_builder_clone_is_independent() {
    let a = HttpResponseBuilder::new().status(ResStatus::OK);
    let b = a.clone().header("A".to_string(), "1".to_string());
    assert_eq!(a.build().to_string(), "HTTP/1.1 200 OK\r\n\r\n");
    assert_eq!(b.build().to_string(), "HTTP/1.1 200 OK\r\nA: 1\r\n\r\n");
}

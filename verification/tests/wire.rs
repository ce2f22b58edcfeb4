use http_server::http::wire::{
    body_len, content_len, demand, first_line_len, has_empty_line, headers_from, read_head_lines,
    read_headers, read_request_line, Demand,
};
use http_server::text_map::TextMap;

#[test]
fn first_line_includes_its_line_feed() {
    assert_eq!(first_line_len(b"ab\r\ncd\r\n"), 4);
    assert_eq!(first_line_len(b"\n"), 1);
    assert_eq!(first_line_len(b"abc"), 3);
    assert_eq!(first_line_len(b""), 0);
}

#[test]
fn line_end_is_stripped() {
    assert_eq!(content_len(b"ab\r\n"), 2);
    assert_eq!(content_len(b"ab\n"), 2);
    assert_eq!(content_len(b"ab\r"), 3);
    assert_eq!(content_len(b"ab"), 2);
    assert_eq!(content_len(b"\r\n"), 0);
    assert_eq!(content_len(b"\n"), 0);
    assert_eq!(content_len(b"\r\r\n"), 1);
    assert_eq!(content_len(b""), 0);
}

#[test]
fn request_line_tokens() {
    let (tokens, n) = read_request_line(b"GET / HTTP/1.1\r\nHost: x\r\n").unwrap();
    assert_eq!(tokens, vec!["GET", "/", "HTTP/1.1"]);
    assert_eq!(n, 16);
    let (tokens, n) = read_request_line(b"").unwrap();
    assert_eq!(tokens, vec![""]);
    assert_eq!(n, 0);
    assert!(read_request_line(&[0xff, b'\n']).is_none());
    // Only the first line has to be text.
    assert!(read_request_line(&[b'a', b'\n', 0xff]).is_some());
}

#[test]
fn head_lines_up_to_the_empty_line() {
    let stream = b"A: 1\r\nnonsense\r\n\r\nbody\r\n";
    let (lines, at) = read_head_lines(stream).unwrap();
    assert_eq!(lines, vec!["A: 1", "nonsense"]);
    assert_eq!(&stream[at..], b"body\r\n");
    let (lines, at) = read_head_lines(b"A: 1\nB: 2").unwrap();
    assert_eq!(lines, vec!["A: 1", "B: 2"]);
    assert_eq!(at, 9);
    let (lines, at) = read_head_lines(b"").unwrap();
    assert!(lines.is_empty());
    assert_eq!(at, 0);
    assert!(read_head_lines(&[b'A', 0x80, b'\n', b'\n']).is_none());
    // What follows the empty line is not looked at.
    assert!(read_head_lines(&[b'A', b'\n', b'\n', 0x80]).is_some());
}

#[test]
fn headers_from_lines() {
    let lines = vec![
        "A: 1".to_string(),
        "skip".to_string(),
        "B: 2".to_string(),
        "A: 3".to_string(),
    ];
    let headers = headers_from(&lines);
    assert_eq!(headers.len(), 2);
    assert_eq!(headers.get("A").map(String::as_str), Some("3"));
    assert_eq!(headers.get("B").map(String::as_str), Some("2"));
    let (headers, at) = read_headers(b"X: y\r\n\r\nrest").unwrap();
    assert_eq!(headers.get("X").map(String::as_str), Some("y"));
    assert_eq!(at, 8);
}

#[test]
fn body_length_from_headers() {
    let none: TextMap<String> = TextMap::new();
    assert_eq!(body_len(&none, 0), Some(None));
    let five = TextMap::new().insert("Content-Length".to_string(), "5".to_string());
    assert_eq!(body_len(&five, 5), Some(Some(5)));
    assert_eq!(body_len(&five, 9), Some(Some(5)));
    assert_eq!(body_len(&five, 4), None);
    let bad = TextMap::new().insert("Content-Length".to_string(), "5x".to_string());
    assert_eq!(body_len(&bad, 100), None);
    let other = TextMap::new().insert("Content-length".to_string(), "5".to_string());
    assert_eq!(body_len(&other, 0), Some(None));
}

#[test]
fn empty_line_is_found() {
    assert!(has_empty_line(b"A: 1\r\n\r\n"));
    assert!(has_empty_line(b"\n"));
    assert!(has_empty_line(b"\r\nx"));
    assert!(!has_empty_line(b"A: 1\r\n"));
    assert!(!has_empty_line(b"A: 1\r\n\r"));
    assert!(!has_empty_line(b""));
}

#[test]
fn demand_walks_through_a_request() {
    assert_eq!(demand(b""), Demand::Line);
    assert_eq!(demand(b"POST / HTTP/1.1\r\n"), Demand::Line);
    assert_eq!(demand(b"POST / HTTP/1.1\r\nContent-Length: 5\r\n"), Demand::Line);
    assert_eq!(demand(b"POST / HTTP/1.1\r\nContent-Length: 5\r\n\r\n"), Demand::Body(5));
    assert_eq!(demand(b"POST / HTTP/1.1\r\nContent-Length: 5\r\n\r\nhe"), Demand::Body(3));
    assert_eq!(demand(b"POST / HTTP/1.1\r\nContent-Length: 5\r\n\r\nhello"), Demand::Done);
    assert_eq!(demand(b"POST / HTTP/1.1\r\nContent-Length: 5\r\n\r\nhello!"), Demand::Done);
}

#[test]
fn demand_without_body() {
    assert_eq!(demand(b"GET / HTTP/1.1\r\nHost: x\r\n\r\n"), Demand::Done);
    assert_eq!(demand(b"GET / HTTP/1.1\n\n"), Demand::Done);
}

#[test]
fn demand_stops_on_what_can_be_no_request() {
    assert_eq!(demand(b"GET /\r\n"), Demand::Done);
    assert_eq!(demand(&[0xff, b'\n']), Demand::Done);
    assert_eq!(demand(&[b'G', b' ', b'/', b' ', b'H', b'\n', 0xff, b'\n']), Demand::Done);
    assert_eq!(demand(b"POST / HTTP/1.1\r\nContent-Length: x\r\n\r\n"), Demand::Done);
    // The method is not looked at before the body was read.
    assert_eq!(demand(b"BREW / HTTP/1.1\r\n"), Demand::Line);
}

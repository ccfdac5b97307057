use grweb::http::{
    find_headers_end, format_response_fast, has_header_value, is_websocket_upgrade, parse_headers,
    parse_http_request, service_unavailable_bytes,
};
use grweb::strmap::StrMap;
use grweb::{Method, Response};

#[test]
fn headers_end_is_past_blank_line() {
    assert_eq!(find_headers_end(b"GET / HTTP/1.1\r\nA: b\r\n\r\nbody"), Some(24));
    assert_eq!(find_headers_end(b"GET / HTTP/1.1\r\nA: b\r\n"), None);
    assert_eq!(find_headers_end(b"\r\n\r\n"), Some(4));
}

#[test]
fn header_block_parsing() {
    let h = parse_headers(b"Host: example.com\r\nX-Empty:\r\nbroken line\r\nHost:  second \r\nA:b:c\n");
    assert_eq!(h.get("Host").cloned(), Some("second".to_string()));
    assert_eq!(h.get("X-Empty").cloned(), Some("".to_string()));
    assert_eq!(h.get("A").cloned(), Some("b:c".to_string()));
    assert_eq!(h.get("broken line"), None);
    assert_eq!(h.len(), 3);
}

#[test]
fn header_value_lookup_ignores_case() {
    let block = b"Content-Type: text/html\r\nconnection:  Keep-Alive \r\n";
    assert!(has_header_value(block, b"Connection", b"keep-alive"));
    assert!(has_header_value(block, b"CONTENT-TYPE", b"TEXT/HTML"));
    assert!(!has_header_value(block, b"Connection", b"close"));
    assert!(!has_header_value(block, b"Connect", b"keep-alive"));
}

#[test]
fn request_parsing() {
    let raw = b"POST /api/items?x=1&y=2 HTTP/1.1\r\nHost: h\r\nContent-Length: 3\r\n\r\nabc";
    let head = parse_http_request(raw).unwrap();
    assert_eq!(head.method, Method::POST);
    assert_eq!(head.path, "/api/items");
    assert_eq!(head.query_string, "x=1&y=2");
    assert_eq!(head.header_end, raw.len() - 3);
    assert_eq!(head.headers.get("Content-Length").cloned(), Some("3".to_string()));
    assert_eq!(&raw[head.header_end..], b"abc");
}

#[test]
fn request_version_keeps_its_carriage_return() {
    // The version is read up to the newline, so with CRLF line ends it is not
    // exactly `HTTP/1.1`, and only an explicit keep-alive keeps the connection.
    let plain = parse_http_request(b"GET / HTTP/1.1\r\nHost: h\r\n\r\n").unwrap();
    assert!(!plain.keep_alive);
    let ka = parse_http_request(b"GET / HTTP/1.1\r\nConnection: keep-alive\r\n\r\n").unwrap();
    assert!(ka.keep_alive);
    let lf = parse_http_request(b"GET / HTTP/1.1\nConnection: close\r\n\r\n").unwrap();
    assert!(!lf.keep_alive);
    let lf_open = parse_http_request(b"GET / HTTP/1.1\nHost: h\r\n\r\n").unwrap();
    assert!(lf_open.keep_alive);
}

#[test]
fn incomplete_or_odd_requests() {
    assert!(parse_http_request(b"GET / HTTP/1.1\r\nHost: h\r\n").is_none());
    assert!(parse_http_request(b"GET\r\n\r\n").is_none());
    let unknown = parse_http_request(b"BREW /pot HTTP/1.1\r\n\r\n").unwrap();
    assert_eq!(unknown.method, Method::GET);
    assert_eq!(unknown.query_string, "");
}

#[test]
fn response_serialisation() {
    let r = Response::html(b"hi".to_vec());
    let bytes = format_response_fast(&r, false);
    assert_eq!(
        String::from_utf8(bytes).unwrap(),
        "HTTP/1.1 200 OK\r\nContent-Length: 2\r\nConnection: close\r\nContent-Type: text/html\r\n\r\nhi"
    );
    let nf = format_response_fast(&Response::not_found(), true);
    let text = String::from_utf8(nf).unwrap();
    assert!(text.starts_with("HTTP/1.1 404 Not Found\r\nContent-Length: 13\r\nConnection: keep-alive\r\n"));
    // statuses without a line of their own are written as 200
    let teapot = format_response_fast(&Response::from_bytes(Vec::new()).with_status(418), false);
    assert_eq!(String::from_utf8(teapot).unwrap(), "HTTP/1.1 200 OK\r\nContent-Length: 0\r\nConnection: close\r\n\r\n");
    let created = format_response_fast(&Response::from_bytes(Vec::new()).with_status(201), false);
    assert!(String::from_utf8(created).unwrap().starts_with("HTTP/1.1 201 Created\r\n"));
}

#[test]
fn busy_answer() {
    assert_eq!(
        service_unavailable_bytes(),
        b"HTTP/1.1 503 Service Unavailable\r\nContent-Length: 0\r\nConnection: close\r\n\r\n".to_vec()
    );
}

fn upgrade_headers() -> StrMap<String> {
    let mut h = StrMap::new();
    h.insert("Upgrade".to_string(), "WebSocket".to_string());
    h.insert("Connection".to_string(), "keep-alive, Upgrade".to_string());
    h.insert("Sec-WebSocket-Key".to_string(), "dGhlIHNhbXBsZSBub25jZQ==".to_string());
    h.insert("Sec-WebSocket-Version".to_string(), "13".to_string());
    h
}

#[test]
fn websocket_upgrade_detection() {
    let h = upgrade_headers();
    assert!(is_websocket_upgrade(&Method::GET, &h));
    assert!(!is_websocket_upgrade(&Method::POST, &h));
    let mut old = upgrade_headers();
    old.insert("Sec-WebSocket-Version".to_string(), "8".to_string());
    assert!(!is_websocket_upgrade(&Method::GET, &old));
    let mut no_key = upgrade_headers();
    no_key.remove("Sec-WebSocket-Key");
    assert!(!is_websocket_upgrade(&Method::GET, &no_key));
}

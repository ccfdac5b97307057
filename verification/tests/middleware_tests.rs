use grweb::middleware::{contains_string, join_strings, CORSMiddleware};
use grweb::Response;

fn strings(v: &[&str]) -> Vec<String> {
    v.iter().map(|s| s.to_string()).collect()
}

#[test]
fn joining() {
    assert_eq!(join_strings(&strings(&["GET", "POST"]), ", "), "GET, POST");
    assert_eq!(join_strings(&strings(&["one"]), ", "), "one");
    assert_eq!(join_strings(&Vec::new(), ", "), "");
    assert!(contains_string(&strings(&["a", "*"]), "*"));
    assert!(!contains_string(&strings(&["a"]), "*"));
}

#[test]
fn cors_headers_for_any_origin() {
    let cors = CORSMiddleware::new(strings(&["*"]), strings(&["GET", "POST"]), strings(&["Content-Type", "X-Token"]));
    let r = cors.apply(Response::html(b"x".to_vec()));
    assert_eq!(r.status, 200);
    assert_eq!(
        r.headers,
        vec![
            ("Content-Type".to_string(), "text/html".to_string()),
            ("Access-Control-Allow-Origin".to_string(), "*".to_string()),
            ("Access-Control-Allow-Methods".to_string(), "GET, POST".to_string()),
            ("Access-Control-Allow-Headers".to_string(), "Content-Type, X-Token".to_string()),
        ]
    );
}

#[test]
fn no_cors_headers_for_listed_origins() {
    let cors = CORSMiddleware::new(strings(&["https://a.example"]), strings(&["GET"]), strings(&[]));
    let r = cors.apply(Response::ok());
    assert_eq!(r.headers, vec![("Content-Type".to_string(), "text/plain;charset=utf-8".to_string())]);
    assert_eq!(r.body, b"OK".to_vec());
}

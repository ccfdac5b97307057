use grweb::{Method, Response};

fn header_pairs(r: &Response) -> Vec<(String, String)> {
    r.headers.clone()
}

fn pair(k: &str, v: &str) -> (String, String) {
    (k.to_string(), v.to_string())
}

#[test]
fn method_names() {
    assert_eq!(Method::GET.as_str(), "GET");
    assert_eq!(Method::POST.as_str(), "POST");
    assert_eq!(Method::PUT.as_str(), "PUT");
    assert_eq!(Method::DELETE.as_str(), "DELETE");
    assert_eq!(Method::PATCH.as_str(), "PATCH");
    assert_eq!(Method::HEAD.as_str(), "HEAD");
    assert_eq!(Method::OPTIONS.as_str(), "OPTIONS");
}

#[test]
fn new_response_is_plain_text() {
    let r = Response::new(201, b"made".to_vec());
    assert_eq!(r.status, 201);
    assert_eq!(header_pairs(&r), vec![pair("Content-Type", "text/plain;charset=utf-8")]);
    assert_eq!(r.body, b"made".to_vec());
    assert_eq!(r.body_len(), 4);
}

#[test]
fn shortcut_responses() {
    let nf = Response::not_found();
    assert_eq!(nf.status, 404);
    assert_eq!(nf.body, b"404 Not Found".to_vec());
    let ie = Response::internal_error();
    assert_eq!(ie.status, 500);
    assert_eq!(ie.body, b"500 Internal Server Error".to_vec());
    let ok = Response::ok();
    assert_eq!(ok.status, 200);
    assert_eq!(ok.body, b"OK".to_vec());
    let html = Response::html(b"<h1>x</h1>".to_vec());
    assert_eq!(header_pairs(&html), vec![pair("Content-Type", "text/html")]);
    let js = Response::json_str(b"{}".to_vec());
    assert_eq!(js.status, 200);
    assert_eq!(header_pairs(&js), vec![pair("Content-Type", "application/json")]);
    let fb = Response::from_bytes(vec![1, 2, 3]);
    assert_eq!(fb.status, 200);
    assert!(fb.headers.is_empty());
    assert_eq!(fb.body, vec![1, 2, 3]);
}

#[test]
fn message_responses_are_json_with_status_200() {
    for r in [Response::bad_request("bad"), Response::unauthorized("who"), Response::forbidden("no")] {
        assert_eq!(r.status, 200);
        assert_eq!(header_pairs(&r), vec![pair("Content-Type", "application/json")]);
    }
    assert_eq!(Response::forbidden("no").body, b"no".to_vec());
}

#[test]
fn redirect_sets_location() {
    let r = Response::redirect("/login");
    assert_eq!(r.status, 302);
    assert_eq!(header_pairs(&r), vec![pair("Location", "/login")]);
    assert!(r.body.is_empty());
}

#[test]
fn header_appends_and_content_type_replaces() {
    let r = Response::html(b"x".to_vec()).header("X-A", "1").header("Content-Type", "a/b");
    assert_eq!(
        header_pairs(&r),
        vec![pair("Content-Type", "text/html"), pair("X-A", "1"), pair("Content-Type", "a/b")]
    );
    let r = r.content_type("text/css");
    assert_eq!(header_pairs(&r), vec![pair("X-A", "1"), pair("Content-Type", "text/css")]);
    let r = r.with_status(418);
    assert_eq!(r.status, 418);
    assert_eq!(r.body, b"x".to_vec());
}

#[test]
fn json_result_ok_keeps_bytes() {
    let r = Response::from_json_result(201, Ok(b"{\"a\":1}".to_vec()));
    assert_eq!(r.status, 201);
    assert_eq!(header_pairs(&r), vec![pair("Content-Type", "application/json;charset=utf-8")]);
    assert_eq!(r.body, b"{\"a\":1}".to_vec());
}

#[test]
fn json_result_err_reports_failure() {
    let r = Response::from_json_result(200, Err("key must be a \"string\"".to_string()));
    assert_eq!(
        String::from_utf8(r.body).unwrap(),
        "{\"details\":\"key must be a \\\"string\\\"\",\"error\":\"Failed to serialize JSON\"}"
    );
}

#[test]
fn error_message_response() {
    let r = Response::from_error_message("boom");
    assert_eq!(r.status, 500);
    assert_eq!(header_pairs(&r), vec![pair("Content-Type", "application/json")]);
    assert_eq!(r.body, b"{\"error\":\"boom\"}".to_vec());
}

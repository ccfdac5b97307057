use grweb::error::{Error, ErrorResponse};

fn body_text(e: &Error) -> String {
    String::from_utf8(e.to_response().body).unwrap()
}

#[test]
fn business_error() {
    let e = Error::business(1001, "out of stock");
    assert_eq!(e.status_code(), 200);
    assert_eq!(e.error_code(), 1001);
    assert_eq!(e.error_message(), "out of stock");
    assert_eq!(e.error_details(), None);
    assert_eq!(body_text(&e), "{\"code\":1001,\"message\":\"out of stock\"}");
    assert_eq!(e.to_display_string(), "Business error: out of stock");
}

#[test]
fn business_error_with_details() {
    let e = Error::business_with_details(-7, "m", "d");
    assert_eq!(e.error_details(), Some("d".to_string()));
    assert_eq!(body_text(&e), "{\"code\":-7,\"message\":\"m\",\"details\":\"d\"}");
}

#[test]
fn validation_error() {
    let e = Error::validation("email", "is required");
    assert_eq!(e.status_code(), 400);
    assert_eq!(e.error_code(), 40001);
    assert_eq!(e.error_message(), "email: is required");
    assert_eq!(body_text(&e), "{\"code\":40001,\"message\":\"email: is required\",\"field\":\"email\"}");
    assert_eq!(e.to_display_string(), "Validation error on 'email': is required");
    let r = e.to_response();
    assert_eq!(r.status, 400);
    assert_eq!(r.headers, vec![("Content-Type".to_string(), "application/json;charset=utf-8".to_string())]);
}

#[test]
fn not_found_error() {
    let e = Error::not_found("User", "42");
    assert_eq!(e.status_code(), 404);
    assert_eq!(e.error_code(), 40401);
    assert_eq!(e.error_message(), "User not found: 42");
    assert_eq!(e.to_display_string(), "Not found: User with id '42'");
}

#[test]
fn auth_errors() {
    let u = Error::unauthorized("token expired");
    assert_eq!((u.status_code(), u.error_code()), (401, 40101));
    assert_eq!(u.to_display_string(), "Unauthorized: token expired");
    let f = Error::forbidden("admins only");
    assert_eq!((f.status_code(), f.error_code()), (403, 40301));
    assert_eq!(f.to_display_string(), "Forbidden: admins only");
}

#[test]
fn database_and_internal_errors() {
    let d = Error::database("query failed");
    assert_eq!((d.status_code(), d.error_code()), (500, 50001));
    assert_eq!(d.source_text(), None);
    let ds = Error::database_with_source("query failed", "disk full");
    assert_eq!(ds.source_text(), Some("disk full".to_string()));
    assert_eq!(ds.to_display_string(), "Database error: query failed");
    let i = Error::internal("oops");
    assert_eq!((i.status_code(), i.error_code()), (500, 50002));
    let is = Error::internal_with_source("oops", "io");
    assert_eq!(is.source_text(), Some("io".to_string()));
    assert_eq!(is.to_display_string(), "Internal error: oops");
}

#[test]
fn custom_errors() {
    let c = Error::custom(9, "teapot", 418);
    assert_eq!((c.status_code(), c.error_code()), (418, 9));
    assert_eq!(c.error_details(), None);
    let cd = Error::custom_with_details(9, "teapot", 418, "short and stout");
    assert_eq!(cd.error_details(), Some("short and stout".to_string()));
    assert_eq!(cd.to_display_string(), "Custom error: teapot");
    assert_eq!(cd.to_response().status, 418);
}

#[test]
fn error_body_escapes_text() {
    let e = Error::business(1, "say \"hi\"\n");
    assert_eq!(body_text(&e), "{\"code\":1,\"message\":\"say \\\"hi\\\"\\n\"}");
}

#[test]
fn error_response_json() {
    let er = ErrorResponse { code: 5, message: "m".to_string(), details: None, field: Some("f".to_string()) };
    assert_eq!(er.to_json(), "{\"code\":5,\"message\":\"m\",\"field\":\"f\"}");
    let er2 = Error::validation("a", "b").error_response();
    assert_eq!(er2.code, 40001);
    assert_eq!(er2.field, Some("a".to_string()));
}

#[test]
fn control_characters_escaped_in_json() {
    let e = Error::business(7, "a\u{1}b\"c\n");
    let body = body_text(&e);
    assert!(body.contains("\"message\":\"a\\u0001b\\\"c\\n\""), "{}", body);
}

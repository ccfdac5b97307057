use grweb::context::Context;
use grweb::form::parse_query_string;
use grweb::session::SessionStore;
use grweb::strmap::StrMap;
use grweb::Method;

fn ctx(headers: &[(&str, &str)], body: &[u8], query: &str) -> Context {
    let mut h = StrMap::new();
    for (k, v) in headers {
        h.insert(k.to_string(), v.to_string());
    }
    Context::new(Method::POST, "/p".to_string(), h, body.to_vec(), parse_query_string(query))
}

#[test]
fn query_accessors() {
    let c = ctx(&[], b"", "a=1&a=2&b=&c=x+y");
    assert_eq!(c.query("a"), "1");
    assert_eq!(c.query("b"), "");
    assert_eq!(c.query("c"), "x y");
    assert_eq!(c.query("zz"), "");
    assert_eq!(c.default_query("a", "d"), "1");
    assert_eq!(c.default_query("zz", "d"), "d");
    assert_eq!(c.get_query("a"), ("1", true));
    assert_eq!(c.get_query("b"), ("", true));
    assert_eq!(c.get_query("zz"), ("", false));
    assert_eq!(c.query_array("a"), vec!["1".to_string(), "2".to_string()]);
    assert!(c.query_array("zz").is_empty());
    assert_eq!(c.query_map().len(), 3);
}

#[test]
fn headers_params_and_body() {
    let c = ctx(&[("X-Id", "7")], b"caf\xc3\xa9 \xff", "");
    assert_eq!(c.header("X-Id").cloned(), Some("7".to_string()));
    assert_eq!(c.header("x-id"), None);
    assert_eq!(c.body_string(), "café \u{fffd}");
    assert_eq!(c.get_raw_data(), b"caf\xc3\xa9 \xff");
    assert_eq!(c.param("id"), None);
    let mut p = StrMap::new();
    p.insert("id".to_string(), "42".to_string());
    let c = c.with_params(p);
    assert_eq!(c.param("id").cloned(), Some("42".to_string()));
    assert_eq!(c.method, Method::POST);
    assert_eq!(c.path, "/p");
}

#[test]
fn url_encoded_forms() {
    let c = ctx(&[("Content-Type", "application/x-www-form-urlencoded; charset=utf-8")], b"name=J%C3%BCrgen&age=3", "");
    assert_eq!(c.form_value("name"), Some("Jürgen".to_string()));
    assert_eq!(c.form_value("age"), Some("3".to_string()));
    assert_eq!(c.form_value("other"), None);
    assert_eq!(c.try_form_values().unwrap().len(), 2);
}

#[test]
fn multipart_forms() {
    let body = b"--XX\r\nContent-Disposition: form-data; name=\"f\"\r\n\r\nv\r\n--XX--";
    let c = ctx(&[("Content-Type", "multipart/form-data; boundary=XX")], body, "");
    assert_eq!(c.form_value("f"), Some("v".to_string()));
}

#[test]
fn other_bodies_have_no_fields() {
    let c = ctx(&[("Content-Type", "application/json")], b"{\"a\":1}", "");
    assert_eq!(c.form_values().len(), 0);
    let d = ctx(&[], b"a=1", "");
    assert_eq!(d.form_values().len(), 0);
}

#[test]
fn context_sessions() {
    let mut store = SessionStore::new();
    store.create_session_with_id("s1".to_string(), 0);
    let c = ctx(&[("Cookie", "session_id=s1")], b"", "");
    assert_eq!(c.session(&mut store, 5).id(), "s1");
}

#[test]
fn first_values_of_query_parameters() {
    let c = ctx(&[], b"", "a=1&a=2&b&c=");
    let f = c.first_query_values();
    assert_eq!(f.get("a").cloned(), Some("1".to_string()));
    assert_eq!(f.get("b").cloned(), Some("".to_string()));
    assert_eq!(f.get("c").cloned(), Some("".to_string()));
    assert_eq!(f.len(), 3);
}

#[test]
fn query_map_keeps_first_values() {
    let c = ctx(&[], b"", "a=1&a=2&b=3");
    let m = c.query_map();
    assert_eq!(m.get("a").cloned(), Some(vec!["1".to_string()]));
    assert_eq!(m.get("b").cloned(), Some(vec!["3".to_string()]));
    assert_eq!(m.len(), 2);
}

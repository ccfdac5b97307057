use grweb::router::{split_path, trim_trailing_slashes, Resolution, Router};
use grweb::Method;
use std::collections::HashMap;

fn route(r: &Router<u32>, m: Method, path: &str) -> Option<(u32, HashMap<String, String>)> {
    match r.resolve(m, path) {
        Resolution::Route { handler, params } => Some((*handler, params.entries().iter().cloned().collect())),
        Resolution::Static { .. } => panic!("static"),
        Resolution::NotFound => None,
    }
}

fn params(kv: &[(&str, &str)]) -> HashMap<String, String> {
    kv.iter().map(|(k, v)| (k.to_string(), v.to_string())).collect()
}

#[test]
fn path_segments() {
    assert_eq!(split_path("/a//b/c/"), vec!["a".to_string(), "b".to_string(), "c".to_string()]);
    assert_eq!(split_path("/"), Vec::<String>::new());
    assert_eq!(split_path(""), Vec::<String>::new());
    assert_eq!(split_path("x"), vec!["x".to_string()]);
}

#[test]
fn exact_match_beats_parameter() {
    let mut r: Router<u32> = Router::new();
    r.add_route(Method::GET, "/user/me", 1);
    r.add_route(Method::GET, "/user/:id", 2);
    assert_eq!(route(&r, Method::GET, "/user/me"), Some((1, params(&[]))));
    assert_eq!(route(&r, Method::GET, "/user/123"), Some((2, params(&[("id", "123")]))));
    // registered the other way round, the exact route still wins
    let mut s: Router<u32> = Router::new();
    s.add_route(Method::GET, "/user/:id", 2);
    s.add_route(Method::GET, "/user/me", 1);
    assert_eq!(route(&s, Method::GET, "/user/me"), Some((1, params(&[]))));
    assert_eq!(route(&s, Method::GET, "/user/7"), Some((2, params(&[("id", "7")]))));
}

#[test]
fn several_parameters() {
    let mut r: Router<u32> = Router::new();
    r.add_route(Method::GET, "/post/:year/:month", 5);
    assert_eq!(route(&r, Method::GET, "/post/2024/05"), Some((5, params(&[("year", "2024"), ("month", "05")]))));
    assert_eq!(route(&r, Method::GET, "/post/2024"), None);
    assert_eq!(route(&r, Method::GET, "/post/2024/05/x"), None);
}

#[test]
fn methods_are_kept_apart() {
    let mut r: Router<u32> = Router::new();
    r.add_route(Method::GET, "/api/user", 1);
    r.add_route(Method::POST, "/api/user", 2);
    r.add_route(Method::GET, "/api/user", 3);
    assert_eq!(route(&r, Method::GET, "/api/user"), Some((3, params(&[]))));
    assert_eq!(route(&r, Method::POST, "/api/user/"), Some((2, params(&[]))));
    assert_eq!(route(&r, Method::DELETE, "/api/user"), None);
    assert_eq!(route(&r, Method::GET, "/"), None);
}

#[test]
fn root_route() {
    let mut r: Router<u32> = Router::new();
    r.add_route(Method::GET, "/", 9);
    assert_eq!(route(&r, Method::GET, "/"), Some((9, params(&[]))));
    assert_eq!(route(&r, Method::GET, ""), Some((9, params(&[]))));
}

#[test]
fn parameter_name_is_the_first_one_given() {
    let mut r: Router<u32> = Router::new();
    r.add_route(Method::GET, "/item/:id", 1);
    r.add_route(Method::PUT, "/item/:key", 2);
    assert_eq!(route(&r, Method::PUT, "/item/z"), Some((2, params(&[("id", "z")]))));
}

#[test]
fn bindings_of_a_failed_exact_branch_remain() {
    let mut r: Router<u32> = Router::new();
    r.add_route(Method::GET, "/a/:x/end", 1);
    r.add_route(Method::GET, "/:y/b/other", 2);
    assert_eq!(route(&r, Method::GET, "/a/b/other"), Some((2, params(&[("x", "b"), ("y", "a")]))));
}

#[test]
fn static_directories() {
    let mut r: Router<u32> = Router::new();
    r.serve_static("/static/", "public");
    r.add_route(Method::GET, "/staticky", 4);
    match r.resolve(Method::GET, "/static/css/app.css") {
        Resolution::Static { dir, rest } => {
            assert_eq!(dir, "public");
            assert_eq!(rest, "/css/app.css");
        },
        _ => panic!("expected a static file"),
    }
    match r.resolve(Method::POST, "/static") {
        Resolution::Static { dir, rest } => {
            assert_eq!(dir, "public");
            assert_eq!(rest, "");
        },
        _ => panic!("expected a static file"),
    }
    assert_eq!(route(&r, Method::GET, "/staticky"), Some((4, params(&[]))));
}

#[test]
fn trailing_slashes() {
    assert_eq!(trim_trailing_slashes("/a//"), "/a");
    assert_eq!(trim_trailing_slashes("///"), "");
    assert_eq!(trim_trailing_slashes("/a/b"), "/a/b");
}

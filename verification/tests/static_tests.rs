use grweb::static_files::{
    file_extension, file_response, get_mime_type, index_response, path_within_exec, relative_path, static_step, StaticStep,
};

#[test]
fn mime_types() {
    assert_eq!(get_mime_type("index.html"), "text/html;charset=utf-8");
    assert_eq!(get_mime_type("/a/b/app.js"), "application/javascript;charset=utf-8");
    assert_eq!(get_mime_type("style.css"), "text/css;charset=utf-8");
    assert_eq!(get_mime_type("photo.jpeg"), "image/jpeg");
    assert_eq!(get_mime_type("font.woff2"), "font/woff2");
    assert_eq!(get_mime_type("README"), "application/octet-stream");
    assert_eq!(get_mime_type("archive.tar.gz"), "application/octet-stream");
    assert_eq!(get_mime_type("PAGE.HTML"), "application/octet-stream");
}

#[test]
fn extensions() {
    assert_eq!(file_extension("a/b.txt"), Some("txt".to_string()));
    assert_eq!(file_extension("a.b/c"), None);
    assert_eq!(file_extension(".hidden"), None);
    assert_eq!(file_extension("x."), Some("".to_string()));
}

#[test]
fn file_answers() {
    assert_eq!(relative_path("//css/a.css"), "css/a.css");
    assert_eq!(relative_path(""), "");
    let r = file_response(b"body{}".to_vec(), "/srv/www/site.css");
    assert_eq!(r.status, 200);
    assert_eq!(r.headers, vec![("Content-Type".to_string(), "text/css;charset=utf-8".to_string())]);
    assert_eq!(r.body, b"body{}".to_vec());
    let i = index_response(b"<p>".to_vec());
    assert_eq!(i.headers, vec![("Content-Type".to_string(), "text/html;charset=utf-8".to_string())]);
}

#[test]
fn static_steps() {
    assert!(path_within_exec("/srv/www", "/srv/www/a.css"));
    assert!(path_within_exec("/srv/www", "/srv/www"));
    assert!(!path_within_exec("/srv/www", "/srv/wwwx/a.css"));
    assert!(!path_within_exec("/srv/www", "/etc/passwd"));
    assert!(path_within_exec("/", "/etc"));
    let s = |r: Option<&str>, t: Option<&str>, d: bool, i: bool| static_step(r.map(String::from), t.map(String::from), d, i);
    assert!(matches!(s(None, Some("/srv/www/a"), false, false), StaticStep::InternalError));
    assert!(matches!(s(Some("/srv/www"), None, false, false), StaticStep::NotFound));
    assert!(matches!(s(Some("/srv/www"), Some("/etc/passwd"), false, false), StaticStep::NotFound));
    assert!(matches!(s(Some("/srv/www"), Some("/srv/www/a.css"), false, false), StaticStep::ServeFile(p) if p == "/srv/www/a.css"));
    assert!(matches!(s(Some("/srv/www"), Some("/srv/www/docs"), true, true), StaticStep::ServeIndex(p) if p == "/srv/www/docs/index.html"));
    assert!(matches!(s(Some("/"), Some("/"), true, true), StaticStep::ServeIndex(p) if p == "/index.html"));
    assert!(matches!(s(Some("/srv/www"), Some("/srv/www/docs"), true, false), StaticStep::NotFound));
}

use grweb::form::{extract_boundary, hex_val, parse_multipart, parse_query_string, parse_urlencoded, url_decode};
use grweb::strmap::StrMap;
use grweb::text::find_bytes;
use std::collections::HashMap;

fn to_map(m: &StrMap<String>) -> HashMap<String, String> {
    m.entries().iter().cloned().collect()
}

#[test]
fn hex_digits() {
    assert_eq!(hex_val(b'0'), Some(0));
    assert_eq!(hex_val(b'9'), Some(9));
    assert_eq!(hex_val(b'a'), Some(10));
    assert_eq!(hex_val(b'F'), Some(15));
    assert_eq!(hex_val(b'g'), None);
    assert_eq!(hex_val(b'%'), None);
}

#[test]
fn url_decoding() {
    assert_eq!(url_decode(b"a+b%20c"), b"a b c".to_vec());
    assert_eq!(url_decode(b"%E4%BD%A0"), vec![0xE4, 0xBD, 0xA0]);
    // a bad escape is kept as it is
    assert_eq!(url_decode(b"%zz"), b"%zz".to_vec());
    assert_eq!(url_decode(b"%41"), b"A".to_vec());
    // an escape cut short by the end of the input stays as it is
    assert_eq!(url_decode(b"%4"), b"%4".to_vec());
    assert_eq!(url_decode(b"%41x"), b"Ax".to_vec());
    assert_eq!(url_decode(b""), Vec::<u8>::new());
}

#[test]
fn urlencoded_bodies() {
    let m = parse_urlencoded(b"name=Ann+Lee&age=30&&flag&name=Bo");
    let mut expected = HashMap::new();
    expected.insert("name".to_string(), "Bo".to_string());
    expected.insert("age".to_string(), "30".to_string());
    expected.insert("flag".to_string(), "".to_string());
    assert_eq!(to_map(&m), expected);
}

#[test]
fn query_strings_keep_repeated_values() {
    let q = parse_query_string("a=1&a=2&b=x%20y&c");
    let a: Vec<String> = q.get("a").unwrap().clone();
    assert_eq!(a, vec!["1".to_string(), "2".to_string()]);
    assert_eq!(q.get("b").unwrap().clone(), vec!["x y".to_string()]);
    assert_eq!(q.get("c").unwrap().clone(), vec!["".to_string()]);
    assert!(q.get("d").is_none());
    assert_eq!(parse_query_string("").len(), 0);
}

#[test]
fn boundaries() {
    assert_eq!(extract_boundary("multipart/form-data; boundary=XyZ"), "--XyZ");
    assert_eq!(extract_boundary("multipart/form-data; boundary=\"q q\""), "--q q");
    assert_eq!(extract_boundary("multipart/form-data"), "");
}

#[test]
fn multipart_bodies() {
    let body = b"--B\r\nContent-Disposition: form-data; name=\"title\"\r\n\r\nHello\r\n--B\r\nContent-Disposition: form-data; name=\"n\"\r\n\r\n42\r\n--B--\r\n";
    let m = parse_multipart(body, "--B").unwrap();
    let mut expected = HashMap::new();
    expected.insert("title".to_string(), "Hello".to_string());
    expected.insert("n".to_string(), "42".to_string());
    assert_eq!(to_map(&m), expected);
}

#[test]
fn multipart_with_plain_newlines() {
    let body = b"--B\ncontent-disposition: form-data; name=x\n\nv1\n--B--";
    let m = parse_multipart(body, "--B").unwrap();
    assert_eq!(m.get("x").cloned(), Some("v1".to_string()));
}

#[test]
fn multipart_empty_inputs() {
    assert_eq!(parse_multipart(b"", "--B").unwrap().len(), 0);
    assert_eq!(parse_multipart(b"--B\r\n", "").unwrap().len(), 0);
}

#[test]
fn byte_search() {
    assert_eq!(find_bytes(b"hello world", b"o w"), Some(4));
    assert_eq!(find_bytes(b"hello", b"xyz"), None);
    assert_eq!(find_bytes(b"ab", b"abc"), None);
}

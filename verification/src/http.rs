//! Reading HTTP/1.x request heads and writing responses.
use vstd::prelude::*;
use crate::strmap::StrMap;
use crate::text::{
    append_bytes, ascii_lower_seq, bytes_eq_ignore_ascii_case, bytes_equal, char_index, chars_of,
    decimal, find_byte_from, find_bytes, find_char, find_chars, first_occurrence, itoa_u64,
    lemma_first_occurrence_meaning, lemma_scan_byte, lossy_string, occurs_at, scan_byte, str_equal, string_from_char_range,
    to_lowercase, trim_ascii, trim_ascii_bounds, lower_text, lossy_text,
};
use crate::{headers_view, method_name, utf8, Method, Response};

verus! {

broadcast use vstd::string::group_string_axioms;

/// The blank line `\r\n\r\n` that ends a request head.
pub open spec fn blank_line() -> Seq<u8> {
    seq![13u8, 10u8, 13u8, 10u8]
}

/// The index just past the first `\r\n\r\n`, if there is one.
pub open spec fn headers_end(b: Seq<u8>) -> Option<int> {
    match first_occurrence(b, blank_line()) {
        Some(i) => Some(i + 4),
        None => None,
    }
}

fn blank_line_bytes() -> (r: Vec<u8>)
    ensures
        r@ == blank_line(),
{
    let mut v: Vec<u8> = Vec::new();
    v.push(13u8);
    v.push(10u8);
    v.push(13u8);
    v.push(10u8);
    assert(v@ =~= blank_line());
    v
}

/// The index just past the first `\r\n\r\n` of `buffer`.
pub fn find_headers_end(buffer: &[u8]) -> (r: Option<usize>)
    ensures
        match r {
            Some(e) => headers_end(buffer@) == Some(e as int),
            None => headers_end(buffer@) is None,
        },
{
    let needle = blank_line_bytes();
    proof {
        lemma_first_occurrence_meaning(buffer@, blank_line());
    }
    let bl = buffer.len();
    match find_bytes(buffer, needle.as_slice()) {
        Some(i) => {
            assert(occurs_at(buffer@, blank_line(), i as int));
            assert(i + 4 <= bl);
            Some(i + 4)
        },
        None => None,
    }
}

/// A line without its trailing `\r`, if any.
pub open spec fn strip_cr(line: Seq<u8>) -> Seq<u8> {
    if line.len() > 0 && line.last() == 13u8 {
        line.drop_last()
    } else {
        line
    }
}

/// The line of `h` that starts at `p`: up to the next `\n` (or the end), without a trailing `\r`.
pub open spec fn line_at(h: Seq<u8>, p: int) -> Seq<u8> {
    strip_cr(h.subrange(p, scan_byte(h, 10u8, p)))
}

/// A line starts at `p`: at the beginning or just after a `\n`.
pub open spec fn line_start(h: Seq<u8>, p: int) -> bool {
    p == 0 || (1 <= p <= h.len() && h[p - 1] == 10u8)
}

/// The header that a line states, `name: value`, split at its first colon; the
/// value loses surrounding ASCII whitespace.
pub open spec fn header_binding(line: Seq<u8>) -> Option<(Seq<u8>, Seq<u8>)> {
    let c = scan_byte(line, 58u8, 0);
    if c < line.len() {
        Some((line.subrange(0, c), trim_ascii(line.subrange(c + 1, line.len() as int))))
    } else {
        None
    }
}

/// The header map built from the lines of `h` starting at `pos`, on top of `m`;
/// a later line overrides an earlier one with the same name.
pub open spec fn headers_from(h: Seq<u8>, pos: int, m: Map<Seq<char>, Seq<char>>) -> Map<Seq<char>, Seq<char>>
    decreases h.len() + 1 - pos,
{
    if pos < 0 || pos >= h.len() {
        m
    } else {
        let e = scan_byte(h, 10u8, pos);
        let m2 = match header_binding(line_at(h, pos)) {
            Some(kv) => m.insert(lossy_text(kv.0), lossy_text(kv.1)),
            None => m,
        };
        proof {
            lemma_scan_byte(h, 10u8, pos);
        }
        headers_from(h, e + 1, m2)
    }
}

/// The headers that a header block states.
pub open spec fn headers_map(h: Seq<u8>) -> Map<Seq<char>, Seq<char>> {
    headers_from(h, 0, Map::empty())
}

/// The bounds of the line starting at `pos` (without `\r`) and the index of its `\n` (or the end).
fn line_bounds(h: &[u8], pos: usize) -> (r: (usize, usize))
    requires
        pos < h@.len(),
    ensures
        r.1 == scan_byte(h@, 10u8, pos as int),
        pos <= r.0 <= r.1 <= h@.len(),
        h@.subrange(pos as int, r.0 as int) == line_at(h@, pos as int),
{
    let e = find_byte_from(h, 10u8, pos);
    proof {
        lemma_scan_byte(h@, 10u8, pos as int);
    }
    let hi = if e > pos && h[e - 1] == 13u8 {
        e - 1
    } else {
        e
    };
    if e > pos {
        assert(h@.subrange(pos as int, e as int).drop_last() =~= h@.subrange(pos as int, e - 1));
    }
    (hi, e)
}

/// Splits a header line at its first colon: the name and the trimmed value.
fn split_header_line(line: &[u8]) -> (r: Option<(usize, usize, usize)>)
    ensures
        match r {
            Some((c, lo, hi)) => {
                &&& c < line@.len()
                &&& c + 1 + lo <= c + 1 + hi <= line@.len()
                &&& header_binding(line@) == Some((line@.subrange(0, c as int), line@.subrange(c + 1 + lo, c + 1 + hi)))
            },
            None => header_binding(line@) is None,
        },
{
    let c = find_byte_from(line, 58u8, 0);
    proof {
        lemma_scan_byte(line@, 58u8, 0);
    }
    if c < line.len() {
        let rest = &line[c + 1..line.len()];
        let (lo, hi) = trim_ascii_bounds(rest);
        assert(line@.subrange(c + 1 + lo, c + 1 + hi) =~= rest@.subrange(lo as int, hi as int));
        Some((c, lo, hi))
    } else {
        None
    }
}

/// The headers of a header block: one per line holding a colon, name and value
/// decoded as UTF-8, the value trimmed; a later line wins.
pub fn parse_headers(headers_slice: &[u8]) -> (r: StrMap<String>)
    ensures
        r@ == headers_map(headers_slice@),
{
    let h = headers_slice;
    let mut m: StrMap<String> = StrMap::new();
    let mut pos: usize = 0;
    while pos < h.len()
        invariant
            pos <= h@.len(),
            headers_map(h@) == headers_from(h@, pos as int, m@),
        decreases h@.len() - pos,
    {
        let (hi, e) = line_bounds(h, pos);
        let line = &h[pos..hi];
        let ghost m0 = m@;
        match split_header_line(line) {
            Some((c, lo, vhi)) => {
                let name = lossy_string(&line[0..c]);
                let value = lossy_string(&line[c + 1 + lo..c + 1 + vhi]);
                m.insert(name, value);
            },
            None => {},
        }
        assert(headers_from(h@, pos as int, m0) == headers_from(h@, e + 1, m@));
        if e >= h.len() {
            pos = h.len();
        } else {
            pos = e + 1;
        }
    }
    m
}

/// A line names header `name` (ASCII case-insensitively) with value `value` (likewise, after trimming).
pub open spec fn line_has_value(line: Seq<u8>, name: Seq<u8>, value: Seq<u8>) -> bool {
    match header_binding(line) {
        Some(kv) => ascii_lower_seq(kv.0) == ascii_lower_seq(name) && ascii_lower_seq(kv.1)
            == ascii_lower_seq(value),
        None => false,
    }
}

/// Some line of the header block names `name` with value `value`, ignoring ASCII case.
pub open spec fn header_has_value(h: Seq<u8>, name: Seq<u8>, value: Seq<u8>) -> bool {
    exists|p: int| 0 <= p < h.len() && line_start(h, p) && #[trigger] line_has_value(line_at(h, p), name, value)
}

/// Whether some line of the header block is `name: value`, ignoring ASCII case and surrounding whitespace.
pub fn has_header_value(headers: &[u8], name: &[u8], value: &[u8]) -> (r: bool)
    ensures
        r == header_has_value(headers@, name@, value@),
{
    let h = headers;
    let mut pos: usize = 0;
    while pos < h.len()
        invariant
            pos <= h@.len(),
            h@ == headers@,
            line_start(h@, pos as int) || pos == h@.len(),
            forall|p: int| 0 <= p < pos && line_start(h@, p) ==> !#[trigger] line_has_value(line_at(h@, p), name@, value@),
        decreases h@.len() - pos,
    {
        let (hi, e) = line_bounds(h, pos);
        proof {
            lemma_scan_byte(h@, 10u8, pos as int);
        }
        let line = &h[pos..hi];
        match split_header_line(line) {
            Some((c, lo, vhi)) => {
                if bytes_eq_ignore_ascii_case(&line[0..c], name)
                    && bytes_eq_ignore_ascii_case(&line[c + 1 + lo..c + 1 + vhi], value) {
                    assert(line@ == line_at(h@, pos as int));
                    assert(ascii_lower_seq(line@.subrange(0, c as int)) == ascii_lower_seq(name@));
                    assert(ascii_lower_seq(line@.subrange(c + 1 + lo, c + 1 + vhi)) == ascii_lower_seq(value@));
                    assert(header_binding(line@) is Some);
                    assert(line_has_value(line@, name@, value@));
                    assert(line_has_value(line_at(h@, pos as int), name@, value@));
                    assert(0 <= pos < h@.len() && line_start(h@, pos as int));
                    assert(header_has_value(h@, name@, value@));
                    return true;
                }
            },
            None => {},
        }
        assert forall|p: int| pos < p <= e && p < h@.len() implies !line_start(h@, p) by {
            assert(h@[p - 1] != 10u8);
        }
        if e >= h.len() {
            pos = h.len();
        } else {
            pos = e + 1;
        }
    }
    false
}

/// The method that the request line names; an unknown name counts as `GET`.
pub open spec fn method_of(m: Seq<u8>) -> Method {
    if m == utf8("GET"@) {
        Method::GET
    } else if m == utf8("POST"@) {
        Method::POST
    } else if m == utf8("PUT"@) {
        Method::PUT
    } else if m == utf8("DELETE"@) {
        Method::DELETE
    } else if m == utf8("PATCH"@) {
        Method::PATCH
    } else if m == utf8("HEAD"@) {
        Method::HEAD
    } else if m == utf8("OPTIONS"@) {
        Method::OPTIONS
    } else {
        Method::GET
    }
}

/// Equal UTF-8 encodings come from equal texts.
proof fn lemma_utf8_injective(a: Seq<char>, b: Seq<char>)
    requires
        utf8(a) == utf8(b),
    ensures
        a == b,
{
    vstd::utf8::encode_utf8_decode_utf8(a);
    vstd::utf8::encode_utf8_decode_utf8(b);
}

/// Every method's canonical name, as a request line carries it, parses back
/// to that method.
pub proof fn lemma_method_name_parses(m: Method)
    ensures
        method_of(utf8(method_name(m))) == m,
{
    reveal_strlit("GET");
    reveal_strlit("POST");
    reveal_strlit("PUT");
    reveal_strlit("DELETE");
    reveal_strlit("PATCH");
    reveal_strlit("HEAD");
    reveal_strlit("OPTIONS");
    let names = seq!["GET"@, "POST"@, "PUT"@, "DELETE"@, "PATCH"@, "HEAD"@, "OPTIONS"@];
    assert forall|i: int, j: int| 0 <= i < j < 7 implies utf8(#[trigger] names[i]) != utf8(#[trigger] names[j]) by {
        if utf8(names[i]) == utf8(names[j]) {
            lemma_utf8_injective(names[i], names[j]);
            assert(names[i].len() != names[j].len() || names[i][0] != names[j][0] || names[i][1] != names[j][1]);
        }
    }
    assert(names[0] == "GET"@);
    assert(names[1] == "POST"@);
    assert(names[2] == "PUT"@);
    assert(names[3] == "DELETE"@);
    assert(names[4] == "PATCH"@);
    assert(names[5] == "HEAD"@);
    assert(names[6] == "OPTIONS"@);
}

/// A request line whose method is none of the canonical names counts as `GET`.
pub proof fn lemma_unknown_method_is_get(b: Seq<u8>)
    requires
        forall|m: Method| b != utf8(#[trigger] method_name(m)),
    ensures
        method_of(b) == Method::GET,
{
    assert(b != utf8(method_name(Method::GET)));
    assert(b != utf8(method_name(Method::POST)));
    assert(b != utf8(method_name(Method::PUT)));
    assert(b != utf8(method_name(Method::DELETE)));
    assert(b != utf8(method_name(Method::PATCH)));
    assert(b != utf8(method_name(Method::HEAD)));
    assert(b != utf8(method_name(Method::OPTIONS)));
}

fn parse_method(m: &[u8]) -> (r: Method)
    ensures
        r == method_of(m@),
{
    if bytes_equal(m, "GET".as_bytes()) {
        Method::GET
    } else if bytes_equal(m, "POST".as_bytes()) {
        Method::POST
    } else if bytes_equal(m, "PUT".as_bytes()) {
        Method::PUT
    } else if bytes_equal(m, "DELETE".as_bytes()) {
        Method::DELETE
    } else if bytes_equal(m, "PATCH".as_bytes()) {
        Method::PATCH
    } else if bytes_equal(m, "HEAD".as_bytes()) {
        Method::HEAD
    } else if bytes_equal(m, "OPTIONS".as_bytes()) {
        Method::OPTIONS
    } else {
        Method::GET
    }
}

/// Where a request head lies in a buffer: the end of its header block, the end of
/// its request line, and the two spaces of that line. `None` when the buffer
/// holds no complete head.
pub open spec fn request_layout(b: Seq<u8>) -> Option<(int, int, int, int)> {
    match headers_end(b) {
        None => None,
        Some(he) => {
            let rle = scan_byte(b, 10u8, 0);
            let rl = b.subrange(0, rle);
            let fs = scan_byte(rl, 32u8, 0);
            let ss = scan_byte(rl, 32u8, fs + 1);
            if rle >= b.len() || fs >= rl.len() || ss >= rl.len() {
                None
            } else {
                Some((he, rle, fs, ss))
            }
        },
    }
}

/// A request target split at its first `?`: the path and the query string.
pub open spec fn split_target(t: Seq<char>) -> (Seq<char>, Seq<char>) {
    match char_index(t, '?') {
        Some(q) => (t.subrange(0, q), t.subrange(q + 1, t.len() as int)),
        None => (t, Seq::empty()),
    }
}

/// What a request head states.
pub struct RequestHead {
    pub method: Method,
    pub path: String,
    /// The index just past the blank line; the body starts there.
    pub header_end: usize,
    pub keep_alive: bool,
    pub headers: StrMap<String>,
    pub query_string: String,
}

/// The request head that `b` holds, as the contract of `parse_http_request` states it.
pub open spec fn request_head_of(b: Seq<u8>, r: RequestHead) -> bool {
    match request_layout(b) {
        None => false,
        Some((he, rle, fs, ss)) => {
            let rl = b.subrange(0, rle);
            let target = lossy_text(rl.subrange(fs + 1, ss));
            let hs = b.subrange(rle + 1, he);
            let http11 = rl.subrange(ss + 1, rle) == utf8("HTTP/1.1"@);
            &&& r.method == method_of(rl.subrange(0, fs))
            &&& r.path@ == split_target(target).0
            &&& r.query_string@ == split_target(target).1
            &&& r.header_end == he
            &&& r.keep_alive == if http11 {
                !header_has_value(hs, utf8("Connection"@), utf8("close"@))
            } else {
                header_has_value(hs, utf8("Connection"@), utf8("keep-alive"@))
            }
            &&& r.headers@ == headers_map(hs)
        },
    }
}

/// The positions of a request head's parts, as `request_layout` gives them.
fn find_request_layout(b: &[u8]) -> (r: Option<(usize, usize, usize, usize)>)
    ensures
        match r {
            Some((he, rle, fs, ss)) => {
                &&& request_layout(b@) == Some((he as int, rle as int, fs as int, ss as int))
                &&& rle < he <= b@.len()
                &&& fs < ss < rle
            },
            None => request_layout(b@) is None,
        },
{
    let header_end = match find_headers_end(b) {
        Some(e) => e,
        None => return None,
    };
    let ghost he_at = header_end - 4;
    proof {
        lemma_first_occurrence_meaning(b@, blank_line());
        assert(occurs_at(b@, blank_line(), he_at));
        assert(b@.subrange(he_at, he_at + 4)[1] == 10u8);
        assert(b@[he_at + 1] == 10u8);
    }
    let rle = find_byte_from(b, 10u8, 0);
    proof {
        lemma_scan_byte(b@, 10u8, 0);
    }
    if rle >= b.len() {
        return None;
    }
    let rl = &b[0..rle];
    let fs = find_byte_from(rl, 32u8, 0);
    proof {
        lemma_scan_byte(rl@, 32u8, 0);
    }
    if fs >= rl.len() {
        return None;
    }
    let ss = find_byte_from(rl, 32u8, fs + 1);
    proof {
        lemma_scan_byte(rl@, 32u8, fs + 1);
    }
    if ss >= rl.len() {
        return None;
    }
    Some((header_end, rle, fs, ss))
}

/// The path and query string of a request target given as bytes.
fn split_request_target(t: &[u8]) -> (r: (String, String))
    ensures
        r.0@ == split_target(lossy_text(t@)).0,
        r.1@ == split_target(lossy_text(t@)).1,
{
    let target = lossy_string(t);
    let tc = chars_of(target.as_str());
    let n = tc.len();
    match find_char(tc.as_slice(), '?') {
        Some(q) => (string_from_char_range(tc.as_slice(), 0, q), string_from_char_range(tc.as_slice(), q + 1, n)),
        None => (target, String::new()),
    }
}

/// Whether the connection stays open after this request: HTTP/1.1 unless it asks
/// to close, otherwise only when it asks to stay open.
fn keep_alive_of(version: &[u8], hs: &[u8]) -> (r: bool)
    ensures
        r == if version@ == utf8("HTTP/1.1"@) {
            !header_has_value(hs@, utf8("Connection"@), utf8("close"@))
        } else {
            header_has_value(hs@, utf8("Connection"@), utf8("keep-alive"@))
        },
{
    let http11 = bytes_equal(version, "HTTP/1.1".as_bytes());
    if http11 {
        !has_header_value(hs, "Connection".as_bytes(), "close".as_bytes())
    } else {
        has_header_value(hs, "Connection".as_bytes(), "keep-alive".as_bytes())
    }
}

/// Reads the head of an HTTP request: `None` until the buffer holds the blank line
/// ending the head and a request line with two spaces.
pub fn parse_http_request(buffer: &[u8]) -> (r: Option<RequestHead>)
    ensures
        match r {
            Some(head) => request_head_of(buffer@, head) && head.header_end <= buffer@.len(),
            None => request_layout(buffer@) is None,
        },
{
    let b = buffer;
    let (header_end, rle, fs, ss) = match find_request_layout(b) {
        Some(l) => l,
        None => return None,
    };
    let rl = &b[0..rle];
    let method = parse_method(&rl[0..fs]);
    let (path, query_string) = split_request_target(&rl[fs + 1..ss]);
    let hs = &b[rle + 1..header_end];
    let keep_alive = keep_alive_of(&rl[ss + 1..rle], hs);
    let headers = parse_headers(hs);
    let head = RequestHead { method, path, header_end, keep_alive, headers, query_string };
    assert(request_head_of(b@, head));
    Some(head)
}

/// The status line that the fast writer emits; unknown statuses are written as `200 OK`.
pub open spec fn status_line(status: u16) -> Seq<char> {
    if status == 200 {
        "HTTP/1.1 200 OK\r\n"@
    } else if status == 201 {
        "HTTP/1.1 201 Created\r\n"@
    } else if status == 204 {
        "HTTP/1.1 204 No Content\r\n"@
    } else if status == 400 {
        "HTTP/1.1 400 Bad Request\r\n"@
    } else if status == 404 {
        "HTTP/1.1 404 Not Found\r\n"@
    } else if status == 500 {
        "HTTP/1.1 500 Internal Server Error\r\n"@
    } else {
        "HTTP/1.1 200 OK\r\n"@
    }
}

/// The statuses the fast writer names.
pub open spec fn named_status(status: u16) -> bool {
    status == 200 || status == 201 || status == 204 || status == 400 || status == 404 || status == 500
}

/// The standard reason phrase of a status (RFC 9110, section 15).
pub open spec fn reason_phrase(status: u16) -> Seq<char> {
    match status {
        200 => "OK"@,
        201 => "Created"@,
        204 => "No Content"@,
        400 => "Bad Request"@,
        404 => "Not Found"@,
        500 => "Internal Server Error"@,
        _ => Seq::empty(),
    }
}

/// A named status is written as `HTTP/1.1`, its decimal code and its standard
/// reason phrase; any other status is written as `200 OK`.
pub proof fn lemma_status_line_names_status(status: u16)
    ensures
        named_status(status) ==> status_line(status)
            == "HTTP/1.1 "@ + decimal(status as nat) + " "@ + reason_phrase(status) + "\r\n"@,
        !named_status(status) ==> status_line(status) == status_line(200),
{
    reveal_strlit("HTTP/1.1 ");
    reveal_strlit(" ");
    reveal_strlit("\r\n");
    reveal_strlit("OK");
    reveal_strlit("Created");
    reveal_strlit("No Content");
    reveal_strlit("Bad Request");
    reveal_strlit("Not Found");
    reveal_strlit("Internal Server Error");
    reveal_strlit("HTTP/1.1 200 OK\r\n");
    reveal_strlit("HTTP/1.1 201 Created\r\n");
    reveal_strlit("HTTP/1.1 204 No Content\r\n");
    reveal_strlit("HTTP/1.1 400 Bad Request\r\n");
    reveal_strlit("HTTP/1.1 404 Not Found\r\n");
    reveal_strlit("HTTP/1.1 500 Internal Server Error\r\n");
    reveal_with_fuel(decimal, 4);
    if named_status(status) {
        let d = decimal(status as nat);
        assert(d.len() == 3);
        assert(status_line(status) =~= "HTTP/1.1 "@ + d + " "@ + reason_phrase(status) + "\r\n"@);
    }
}

fn status_line_str(status: u16) -> (r: &'static str)
    ensures
        r@ == status_line(status),
{
    if status == 200 {
        "HTTP/1.1 200 OK\r\n"
    } else if status == 201 {
        "HTTP/1.1 201 Created\r\n"
    } else if status == 204 {
        "HTTP/1.1 204 No Content\r\n"
    } else if status == 400 {
        "HTTP/1.1 400 Bad Request\r\n"
    } else if status == 404 {
        "HTTP/1.1 404 Not Found\r\n"
    } else if status == 500 {
        "HTTP/1.1 500 Internal Server Error\r\n"
    } else {
        "HTTP/1.1 200 OK\r\n"
    }
}

/// Header lines `name: value\r\n`, in order.
pub open spec fn header_lines(h: Seq<(Seq<char>, Seq<char>)>) -> Seq<u8>
    decreases h.len(),
{
    if h.len() == 0 {
        Seq::empty()
    } else {
        header_lines(h.drop_last()) + utf8(h.last().0) + utf8(": "@) + utf8(h.last().1) + utf8("\r\n"@)
    }
}

/// The bytes written for a response.
pub open spec fn response_bytes(status: u16, headers: Seq<(Seq<char>, Seq<char>)>, body: Seq<u8>, keep_alive: bool) -> Seq<u8> {
    utf8(status_line(status)) + utf8("Content-Length: "@) + utf8(decimal(body.len())) + utf8("\r\n"@)
        + utf8(if keep_alive { "Connection: keep-alive\r\n"@ } else { "Connection: close\r\n"@ })
        + header_lines(headers) + utf8("\r\n"@) + body
}

/// Serialises a response: status line, `Content-Length`, `Connection`, the
/// response's headers in order, a blank line and the body.
pub fn format_response_fast(response: &Response, keep_alive: bool) -> (r: Vec<u8>)
    ensures
        r@ == response_bytes(response.status, headers_view(response.headers@), response.body@, keep_alive),
{
    let mut out: Vec<u8> = Vec::new();
    append_bytes(&mut out, status_line_str(response.status).as_bytes());
    append_bytes(&mut out, "Content-Length: ".as_bytes());
    let cl = itoa_u64(response.body.len() as u64);
    append_bytes(&mut out, cl.as_str().as_bytes());
    append_bytes(&mut out, "\r\n".as_bytes());
    let conn = if keep_alive {
        "Connection: keep-alive\r\n"
    } else {
        "Connection: close\r\n"
    };
    append_bytes(&mut out, conn.as_bytes());
    let ghost prefix = out@;
    let hs = &response.headers;
    let ghost hv = headers_view(hs@);
    let mut i: usize = 0;
    while i < hs.len()
        invariant
            i <= hs@.len(),
            hv == headers_view(hs@),
            out@ == prefix + header_lines(hv.subrange(0, i as int)),
        decreases hs@.len() - i,
    {
        append_bytes(&mut out, hs[i].0.as_str().as_bytes());
        append_bytes(&mut out, ": ".as_bytes());
        append_bytes(&mut out, hs[i].1.as_str().as_bytes());
        append_bytes(&mut out, "\r\n".as_bytes());
        assert(hv.subrange(0, i + 1).drop_last() =~= hv.subrange(0, i as int));
        i = i + 1;
    }
    assert(hv.subrange(0, hs@.len() as int) =~= hv);
    append_bytes(&mut out, "\r\n".as_bytes());
    append_bytes(&mut out, response.body.as_slice());
    out
}

/// Bytes answered to a connection refused for want of capacity.
pub fn service_unavailable_bytes() -> (r: Vec<u8>)
    ensures
        r@ == utf8("HTTP/1.1 503 Service Unavailable\r\nContent-Length: 0\r\nConnection: close\r\n\r\n"@),
{
    crate::str_bytes("HTTP/1.1 503 Service Unavailable\r\nContent-Length: 0\r\nConnection: close\r\n\r\n")
}

/// The websocket upgrade request conditions over a header map: a `GET` with
/// `Upgrade: websocket`, a `Connection` naming `upgrade` (after Unicode
/// lower-casing), a key, and version `13`.
pub open spec fn is_upgrade(method: Method, h: Map<Seq<char>, Seq<char>>) -> bool {
    &&& method == Method::GET
    &&& h.dom().contains("Upgrade"@) && lower_text(h["Upgrade"@]) == "websocket"@
    &&& h.dom().contains("Connection"@) && (exists|i: int| occurs_at(lower_text(h["Connection"@]), "upgrade"@, i))
    &&& h.dom().contains("Sec-WebSocket-Key"@)
    &&& h.dom().contains("Sec-WebSocket-Version"@) && h["Sec-WebSocket-Version"@] == "13"@
}

/// Whether a request asks to switch to the websocket protocol.
pub fn is_websocket_upgrade(method: &Method, headers: &StrMap<String>) -> (r: bool)
    ensures
        r == is_upgrade(*method, headers@),
{
    if *method != Method::GET {
        return false;
    }
    let upgrade = match headers.get("Upgrade") {
        Some(v) => {
            let l = to_lowercase(v.as_str());
            assert(l@ == lower_text(v@));
            str_equal(l.as_str(), "websocket")
        },
        None => false,
    };
    let connection = match headers.get("Connection") {
        Some(v) => {
            let l = to_lowercase(v.as_str());
            assert(l@ == lower_text(v@));
            let lc = chars_of(l.as_str());
            let pc = chars_of("upgrade");
            proof {
                reveal_strlit("upgrade");
            }
            proof {
                lemma_first_occurrence_meaning(lc@, pc@);
            }
            match find_chars(lc.as_slice(), pc.as_slice()) {
                Some(_) => true,
                None => false,
            }
        },
        None => false,
    };
    let has_key = headers.contains_key("Sec-WebSocket-Key");
    let version = match headers.get("Sec-WebSocket-Version") {
        Some(v) => str_equal(v.as_str(), "13"),
        None => false,
    };
    upgrade && connection && has_key && version
}

} // verus!

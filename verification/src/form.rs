//! Decoding of URL-encoded query strings and form bodies.
use vstd::prelude::*;
use crate::strmap::StrMap;
use crate::text::{
    chars_of, find_bytes, find_char_from, first_occurrence, lemma_first_occurrence_meaning,
    lemma_scan_char, lossy_string, occurs_at, scan_char, seq_starts_with, str_equal,
    string_from_char_range, to_lowercase, trim_quotes, trim_quotes_range, trim_ws, trim_ws_range,
    lower_text, lossy_text, bytes_start_with, bytes_end_with, push_str, is_whitespace, trim_end_where,
    trim_start_where, ws_pred,
};
use crate::utf8;

verus! {

broadcast use vstd::string::group_string_axioms;

/// The value of an ASCII hexadecimal digit.
pub open spec fn hex_value(b: u8) -> Option<u8> {
    if 48u8 <= b <= 57u8 {
        Some((b - 48) as u8)
    } else if 97u8 <= b <= 102u8 {
        Some((b - 97 + 10) as u8)
    } else if 65u8 <= b <= 70u8 {
        Some((b - 65 + 10) as u8)
    } else {
        None
    }
}

/// The value of an ASCII hexadecimal digit.
pub fn hex_val(b: u8) -> (r: Option<u8>)
    ensures
        r == hex_value(b),
{
    if 48u8 <= b && b <= 57u8 {
        Some(b - 48)
    } else if 97u8 <= b && b <= 102u8 {
        Some(b - 97 + 10)
    } else if 65u8 <= b && b <= 70u8 {
        Some(b - 65 + 10)
    } else {
        None
    }
}

/// Percent-decoding: `+` is a space, `%hh` with two hex digits is that byte,
/// anything else stays.
pub open spec fn url_decoded(s: Seq<u8>) -> Seq<u8>
    decreases s.len(),
{
    if s.len() == 0 {
        Seq::empty()
    } else if s[0] == 43u8 {
        seq![32u8] + url_decoded(s.drop_first())
    } else if s[0] == 37u8 && 2 < s.len() && hex_value(s[1]) is Some && hex_value(s[2]) is Some {
        seq![(hex_value(s[1])->0 * 16 + hex_value(s[2])->0) as u8] + url_decoded(s.subrange(3, s.len() as int))
    } else {
        seq![s[0]] + url_decoded(s.drop_first())
    }
}

/// Percent-decodes bytes.
pub fn url_decode(input: &[u8]) -> (r: Vec<u8>)
    ensures
        r@ == url_decoded(input@),
{
    let n = input.len();
    let mut result: Vec<u8> = Vec::new();
    let mut i: usize = 0;
    assert(input@.subrange(0, n as int) =~= input@);
    assert(result@ + url_decoded(input@) =~= url_decoded(input@));
    while i < n
        invariant
            n == input@.len(),
            i <= n,
            url_decoded(input@) == result@ + url_decoded(input@.subrange(i as int, n as int)),
        decreases n - i,
    {
        let ghost rest = input@.subrange(i as int, n as int);
        assert(rest.drop_first() =~= input@.subrange(i + 1, n as int));
        let b = input[i];
        if b == 43u8 {
            result.push(32u8);
            i = i + 1;
            assert(result@ + url_decoded(input@.subrange(i as int, n as int)) =~= result@.drop_last() + (seq![32u8] + url_decoded(rest.drop_first())));
        } else if b == 37u8 && n - i > 2 {
            match (hex_val(input[i + 1]), hex_val(input[i + 2])) {
                (Some(h1), Some(h2)) => {
                    let v: u8 = h1 * 16 + h2;
                    result.push(v);
                    assert(rest.subrange(3, rest.len() as int) =~= input@.subrange(i + 3, n as int));
                    i = i + 3;
                    assert(result@ + url_decoded(input@.subrange(i as int, n as int)) =~= result@.drop_last() + (seq![v] + url_decoded(rest.subrange(3, rest.len() as int))));
                },
                _ => {
                    result.push(37u8);
                    i = i + 1;
                    assert(result@ + url_decoded(input@.subrange(i as int, n as int)) =~= result@.drop_last() + (seq![37u8] + url_decoded(rest.drop_first())));
                },
            }
        } else {
            result.push(b);
            i = i + 1;
            assert(result@ + url_decoded(input@.subrange(i as int, n as int)) =~= result@.drop_last() + (seq![b] + url_decoded(rest.drop_first())));
        }
    }
    assert(input@.subrange(n as int, n as int) =~= Seq::<u8>::empty());
    assert(result@ + Seq::<u8>::empty() =~= result@);
    result
}

/// A form or query component decoded: percent-decoded bytes read back as UTF-8.
pub open spec fn decoded_component(c: Seq<char>) -> Seq<char> {
    lossy_text(url_decoded(utf8(c)))
}

/// Decodes the characters `cs[lo..hi]` as a component.
fn decode_component(cs: &[char], lo: usize, hi: usize) -> (r: String)
    requires
        lo <= hi <= cs@.len(),
    ensures
        r@ == decoded_component(cs@.subrange(lo as int, hi as int)),
{
    let s = string_from_char_range(cs, lo, hi);
    let d = url_decode(s.as_str().as_bytes());
    lossy_string(d.as_slice())
}

/// The key of a `key=value` pair: up to the first `=`.
pub open spec fn pair_key(p: Seq<char>) -> Seq<char> {
    p.subrange(0, scan_char(p, '=', 0))
}

/// The value of a `key=value` pair: after the first `=`, or empty without one.
pub open spec fn pair_value(p: Seq<char>) -> Seq<char> {
    let e = scan_char(p, '=', 0);
    if e < p.len() {
        p.subrange(e + 1, p.len() as int)
    } else {
        Seq::empty()
    }
}

/// The bindings of the `&`-separated pairs of `s` from `pos` on, over `m`; empty
/// pairs are skipped and a later key wins.
pub open spec fn urlencoded_from(s: Seq<char>, pos: int, m: Map<Seq<char>, Seq<char>>) -> Map<Seq<char>, Seq<char>>
    decreases s.len() + 1 - pos,
{
    if pos < 0 || pos >= s.len() {
        m
    } else {
        let e = scan_char(s, '&', pos);
        let piece = s.subrange(pos, e);
        let m2 = if piece.len() == 0 {
            m
        } else {
            m.insert(decoded_component(pair_key(piece)), decoded_component(pair_value(piece)))
        };
        proof {
            lemma_scan_char(s, '&', pos);
        }
        urlencoded_from(s, e + 1, m2)
    }
}

/// The fields of an `application/x-www-form-urlencoded` body.
pub open spec fn urlencoded_map(body: Seq<u8>) -> Map<Seq<char>, Seq<char>> {
    urlencoded_from(lossy_text(body), 0, Map::empty())
}

/// Where the key and value of the pair `s[pos..e]` lie: `(key_end, value_start, value_end)`.
fn pair_bounds(s: &[char], pos: usize, e: usize) -> (r: (usize, usize, usize))
    requires
        pos <= e <= s@.len(),
    ensures
        pos <= r.0 <= e,
        r.1 <= r.2 <= e,
        s@.subrange(pos as int, r.0 as int) == pair_key(s@.subrange(pos as int, e as int)),
        s@.subrange(r.1 as int, r.2 as int) == pair_value(s@.subrange(pos as int, e as int)),
{
    let ghost piece = s@.subrange(pos as int, e as int);
    let piece_slice = &s[pos..e];
    let k = find_char_from(piece_slice, '=', 0);
    assert(s@.subrange(pos as int, pos + k) =~= piece.subrange(0, k as int));
    if k < piece_slice.len() {
        assert(s@.subrange(pos + k + 1, e as int) =~= piece.subrange(k + 1, piece.len() as int));
        (pos + k, pos + k + 1, e)
    } else {
        assert(s@.subrange(e as int, e as int) =~= Seq::<char>::empty());
        (pos + k, e, e)
    }
}

/// The fields of a URL-encoded body: `&`-separated `key=value` pairs,
/// percent-decoded; a later key wins.
pub fn parse_urlencoded(body: &[u8]) -> (r: StrMap<String>)
    ensures
        r@ == urlencoded_map(body@),
{
    let text = lossy_string(body);
    let s = chars_of(text.as_str());
    let n = s.len();
    let mut m: StrMap<String> = StrMap::new();
    let mut pos: usize = 0;
    while pos < n
        invariant
            n == s@.len(),
            pos <= n,
            urlencoded_map(body@) == urlencoded_from(s@, pos as int, m@),
        decreases n - pos,
    {
        let e = find_char_from(s.as_slice(), '&', pos);
        let ghost m0 = m@;
        if e > pos {
            let (ke, vs, ve) = pair_bounds(s.as_slice(), pos, e);
            let key = decode_component(s.as_slice(), pos, ke);
            let value = decode_component(s.as_slice(), vs, ve);
            m.insert(key, value);
        }
        assert(urlencoded_from(s@, pos as int, m0) == urlencoded_from(s@, e + 1, m@));
        if e >= n {
            pos = n;
        } else {
            pos = e + 1;
        }
    }
    m
}

/// The parameters of `&`-separated pairs from `pos` on, over `m`: each key
/// collects its values in order.
pub open spec fn query_from(s: Seq<char>, pos: int, m: Map<Seq<char>, Seq<Seq<char>>>) -> Map<Seq<char>, Seq<Seq<char>>>
    decreases s.len() + 1 - pos,
{
    if pos < 0 || pos >= s.len() {
        m
    } else {
        let e = scan_char(s, '&', pos);
        let piece = s.subrange(pos, e);
        let k = decoded_component(pair_key(piece));
        let v = decoded_component(pair_value(piece));
        let m2 = if piece.len() == 0 {
            m
        } else {
            m.insert(k, if m.dom().contains(k) { m[k].push(v) } else { seq![v] })
        };
        proof {
            lemma_scan_char(s, '&', pos);
        }
        query_from(s, e + 1, m2)
    }
}

/// The parameters of a query string.
pub open spec fn query_map(q: Seq<char>) -> Map<Seq<char>, Seq<Seq<char>>> {
    query_from(q, 0, Map::empty())
}

/// Parses a URL query string into its parameters; a repeated key keeps all its
/// values in order (`a=1&a=2` gives `a => [1, 2]`).
pub fn parse_query_string(query_str: &str) -> (r: StrMap<Vec<String>>)
    ensures
        r@ == query_map(query_str@),
{
    let s = chars_of(query_str);
    let n = s.len();
    let mut m: StrMap<Vec<String>> = StrMap::new();
    if n == 0 {
        return m;
    }
    let mut pos: usize = 0;
    while pos < n
        invariant
            n == s@.len(),
            s@ == query_str@,
            pos <= n,
            query_map(query_str@) == query_from(s@, pos as int, m@),
        decreases n - pos,
    {
        let e = find_char_from(s.as_slice(), '&', pos);
        let ghost m0 = m@;
        if e > pos {
            let (ke, vs, ve) = pair_bounds(s.as_slice(), pos, e);
            let key = decode_component(s.as_slice(), pos, ke);
            let value = decode_component(s.as_slice(), vs, ve);
            m.append_value(key, value);
        }
        assert(query_from(s@, pos as int, m0) == query_from(s@, e + 1, m@));
        if e >= n {
            pos = n;
        } else {
            pos = e + 1;
        }
    }
    m
}

/// The multipart boundary named by a `Content-Type` value: the first
/// `;`-separated parameter that, trimmed, starts with `boundary=`; its value
/// loses surrounding quotes and gains a leading `--`. Empty without one.
pub open spec fn boundary_from(s: Seq<char>, pos: int) -> Seq<char>
    decreases s.len() + 1 - pos,
{
    if pos < 0 || pos >= s.len() {
        Seq::empty()
    } else {
        let e = scan_char(s, ';', pos);
        let t = trim_ws(s.subrange(pos, e));
        proof {
            lemma_scan_char(s, ';', pos);
        }
        if seq_starts_with(t, "boundary="@) {
            "--"@ + trim_quotes(t.subrange(9, t.len() as int))
        } else {
            boundary_from(s, e + 1)
        }
    }
}

/// The boundary delimiter that a `Content-Type` value names, or an empty string.
pub fn extract_boundary(content_type: &str) -> (r: String)
    ensures
        r@ == boundary_from(content_type@, 0),
{
    let s = chars_of(content_type);
    let n = s.len();
    let prefix = chars_of("boundary=");
    proof {
        reveal_strlit("boundary=");
    }
    let mut pos: usize = 0;
    while pos < n
        invariant
            n == s@.len(),
            s@ == content_type@,
            prefix@ == "boundary="@,
            prefix@.len() == 9,
            pos <= n,
            boundary_from(content_type@, 0) == boundary_from(s@, pos as int),
        decreases n - pos,
    {
        let e = find_char_from(s.as_slice(), ';', pos);
        let (a, b) = trim_ws_range(s.as_slice(), pos, e);
        let t = &s.as_slice()[a..b];
        assert(t@ == trim_ws(s@.subrange(pos as int, e as int)));
        if crate::text::chars_start_with(t, prefix.as_slice()) {
            let (qa, qb) = trim_quotes_range(s.as_slice(), a + 9, b);
            assert(s@.subrange(a + 9, b as int) =~= t@.subrange(9, t@.len() as int));
            let mut out = "--".to_owned();
            let v = string_from_char_range(s.as_slice(), qa, qb);
            push_str(&mut out, v.as_str());
            return out;
        }
        assert(boundary_from(s@, pos as int) == boundary_from(s@, e + 1));
        if e >= n {
            pos = n;
        } else {
            pos = e + 1;
        }
    }
    String::new()
}

/// Where `n` first occurs in `h` at or after `pos`.
pub open spec fn find_from(h: Seq<u8>, n: Seq<u8>, pos: int) -> Option<int> {
    match first_occurrence(h.subrange(pos, h.len() as int), n) {
        Some(i) => Some(pos + i),
        None => None,
    }
}

pub proof fn lemma_find_from(h: Seq<u8>, n: Seq<u8>, pos: int)
    requires
        0 <= pos <= h.len(),
    ensures
        match find_from(h, n, pos) {
            Some(q) => pos <= q && q + n.len() <= h.len(),
            None => true,
        },
{
    let t = h.subrange(pos, h.len() as int);
    lemma_first_occurrence_meaning(t, n);
    match first_occurrence(t, n) {
        Some(i) => {
            assert(occurs_at(t, n, i));
        },
        None => {},
    }
}

fn find_bytes_from(h: &[u8], n: &[u8], pos: usize) -> (r: Option<usize>)
    requires
        pos <= h@.len(),
        n@.len() > 0,
    ensures
        match r {
            Some(q) => find_from(h@, n@, pos as int) == Some(q as int) && pos <= q && q + n@.len() <= h@.len(),
            None => find_from(h@, n@, pos as int) is None,
        },
{
    let hl = h.len();
    match find_bytes(&h[pos..hl], n) {
        Some(i) => Some(pos + i),
        None => None,
    }
}

pub open spec fn crlf_crlf() -> Seq<u8> {
    seq![13u8, 10u8, 13u8, 10u8]
}

pub open spec fn lf_lf() -> Seq<u8> {
    seq![10u8, 10u8]
}

/// Where the head of a part ends: after the first `\r\n\r\n`, else after the first `\n\n`.
pub open spec fn part_head_end(body: Seq<u8>, ps: int) -> Option<int> {
    match find_from(body, crlf_crlf(), ps) {
        Some(q) => Some(q + 4),
        None => match find_from(body, lf_lf(), ps) {
            Some(q) => Some(q + 2),
            None => None,
        },
    }
}

/// A line without a trailing carriage return.
pub open spec fn strip_cr_chars(l: Seq<char>) -> Seq<char> {
    if l.len() > 0 && l.last() == '\r' {
        l.drop_last()
    } else {
        l
    }
}

/// The line of `s` starting at `pos`, as `str::lines` yields it.
pub open spec fn text_line(s: Seq<char>, pos: int) -> Seq<char> {
    let e = scan_char(s, '\n', pos);
    if e < s.len() {
        strip_cr_chars(s.subrange(pos, e))
    } else {
        s.subrange(pos, e)
    }
}

/// The field name carried by the `;`-separated parameters of `d` from `pos` on:
/// the value of the last parameter whose key, trimmed, is `name`.
pub open spec fn param_name_from(d: Seq<char>, pos: int, cur: Seq<char>) -> Seq<char>
    decreases d.len() + 1 - pos,
{
    if pos < 0 || pos >= d.len() {
        cur
    } else {
        let e = scan_char(d, ';', pos);
        let t = trim_ws(d.subrange(pos, e));
        let q = scan_char(t, '=', 0);
        let cur2 = if q < t.len() && trim_ws(t.subrange(0, q)) == "name"@ {
            trim_quotes(t.subrange(q + 1, t.len() as int))
        } else {
            cur
        };
        proof {
            lemma_scan_char(d, ';', pos);
        }
        param_name_from(d, e + 1, cur2)
    }
}

/// A scan that starts inside the second part of `x + t` finds what a scan of `t` finds, shifted.
proof fn lemma_scan_char_shift(x: Seq<char>, t: Seq<char>, c: char, j: int)
    requires
        0 <= j <= t.len(),
    ensures
        scan_char(x + t, c, x.len() + j) == x.len() + scan_char(t, c, j),
    decreases t.len() - j,
{
    if j < t.len() {
        assert((x + t)[x.len() + j] == t[j]);
        if t[j] != c {
            lemma_scan_char_shift(x, t, c, j + 1);
        }
    }
}

/// Reading the parameters of `x + t` from inside `t` is reading `t`.
proof fn lemma_param_name_suffix(x: Seq<char>, t: Seq<char>, j: int, cur: Seq<char>)
    requires
        0 <= j,
    ensures
        param_name_from(x + t, x.len() + j, cur) == param_name_from(t, j, cur),
    decreases t.len() + 1 - j,
{
    if j < t.len() {
        let d = x + t;
        let pos = x.len() + j;
        lemma_scan_char_shift(x, t, ';', j);
        lemma_scan_char(t, ';', j);
        let e = scan_char(t, ';', j);
        assert(d.subrange(pos, x.len() + e) =~= t.subrange(j, e));
        let tt = trim_ws(t.subrange(j, e));
        let q = scan_char(tt, '=', 0);
        let cur2 = if q < tt.len() && trim_ws(tt.subrange(0, q)) == "name"@ {
            trim_quotes(tt.subrange(q + 1, tt.len() as int))
        } else {
            cur
        };
        lemma_param_name_suffix(x, t, e + 1, cur2);
    }
}

/// A scan that finds `c` inside `a` finds it at the same place in `a + b`.
proof fn lemma_scan_char_in_front(a: Seq<char>, b: Seq<char>, c: char, from: int)
    requires
        0 <= from <= a.len(),
        scan_char(a, c, from) < a.len(),
    ensures
        scan_char(a + b, c, from) == scan_char(a, c, from),
    decreases a.len() - from,
{
    assert((a + b)[from] == a[from]);
    if a[from] != c {
        lemma_scan_char_in_front(a, b, c, from + 1);
    }
}

proof fn lemma_param_name_concat_from(p: Seq<char>, t: Seq<char>, pos: int, cur: Seq<char>)
    requires
        0 <= pos <= p.len(),
    ensures
        param_name_from(p + seq![';'] + t, pos, cur) == param_name_from(t, 0, param_name_from(p, pos, cur)),
    decreases p.len() - pos,
{
    let x = p + seq![';'];
    let d = x + t;
    assert(d[p.len() as int] == ';');
    if pos == p.len() {
        lemma_scan_char(d, ';', pos);
        assert(scan_char(d, ';', pos) == pos);
        assert(d.subrange(pos, pos) =~= Seq::<char>::empty());
        let e0: Seq<char> = Seq::empty();
        assert(trim_start_where(e0, ws_pred()) == e0);
        assert(trim_ws(e0) == e0);
        assert(scan_char(e0, '=', 0) == 0);
        assert(param_name_from(d, pos, cur) == param_name_from(d, pos + 1, cur));
        assert(param_name_from(p, pos, cur) == cur);
        lemma_param_name_suffix(x, t, 0, cur);
    } else {
        lemma_scan_char(p, ';', pos);
        let ep = scan_char(p, ';', pos);
        if ep < p.len() {
            lemma_scan_char_in_front(p, seq![';'] + t, ';', pos);
            assert(d =~= p + (seq![';'] + t));
        } else {
            lemma_scan_char(d, ';', pos);
            let ed = scan_char(d, ';', pos);
            assert forall|k: int| pos <= k < p.len() implies d[k] != ';' by {
                assert(d[k] == p[k]);
            }
            if ed < p.len() {
                assert(d[ed] == ';');
            }
            assert(ed == p.len());
        }
        let e = scan_char(p, ';', pos);
        assert(d.subrange(pos, e) =~= p.subrange(pos, e));
        let tt = trim_ws(p.subrange(pos, e));
        let q = scan_char(tt, '=', 0);
        let cur2 = if q < tt.len() && trim_ws(tt.subrange(0, q)) == "name"@ {
            trim_quotes(tt.subrange(q + 1, tt.len() as int))
        } else {
            cur
        };
        assert(scan_char(d, ';', pos) == e);
        assert(param_name_from(d, pos, cur) == param_name_from(d, e + 1, cur2));
        assert(param_name_from(p, pos, cur) == param_name_from(p, e + 1, cur2));
        if ep < p.len() {
            lemma_param_name_concat_from(p, t, e + 1, cur2);
        } else {
            assert(param_name_from(p, e + 1, cur2) == cur2);
            assert(e + 1 == x.len());
            lemma_param_name_suffix(x, t, 0, cur2);
        }
    }
}

/// Parameters are read in order: the name after `p; t` is the name that `t`
/// leaves when it starts from the name that `p` leaves.
pub proof fn lemma_param_name_concat(p: Seq<char>, t: Seq<char>, cur: Seq<char>)
    ensures
        param_name_from(p + seq![';'] + t, 0, cur) == param_name_from(t, 0, param_name_from(p, 0, cur)),
{
    lemma_param_name_concat_from(p, t, 0, cur);
}

/// Trailing whitespace after a character that is not whitespace is trimmed from the tail alone.
proof fn lemma_trim_end_after(a: Seq<char>, b: Seq<char>)
    requires
        a.len() > 0,
        !is_whitespace(a.last()),
    ensures
        trim_end_where(a + b, ws_pred()) == a + trim_end_where(b, ws_pred()),
    decreases b.len(),
{
    if b.len() == 0 {
        assert(a + b =~= a);
        assert(a + Seq::<char>::empty() =~= a);
    } else {
        assert((a + b).last() == b.last());
        if is_whitespace(b.last()) {
            assert((a + b).drop_last() =~= a + b.drop_last());
            lemma_trim_end_after(a, b.drop_last());
        }
    }
}

/// The field name after a single parameter `key=value`, whose key has no `;`,
/// `=` or surrounding whitespace and whose value has no `;`: the value (its
/// trailing whitespace and surrounding quotes removed) when the key is exactly
/// `name`; any other key (`filename` among them) leaves the name as it was.
pub proof fn lemma_param_name_single(key: Seq<char>, value: Seq<char>, cur: Seq<char>)
    requires
        forall|i: int| 0 <= i < key.len() ==> #[trigger] key[i] != ';' && key[i] != '=',
        key.len() == 0 || (!is_whitespace(key[0]) && !is_whitespace(key.last())),
        forall|i: int| 0 <= i < value.len() ==> #[trigger] value[i] != ';',
    ensures
        param_name_from(key + seq!['='] + value, 0, cur) == if key == "name"@ {
            trim_quotes(trim_end_where(value, ws_pred()))
        } else {
            cur
        },
{
    let a = key + seq!['='];
    let d = a + value;
    assert(d.len() > 0);
    lemma_scan_char(d, ';', 0);
    let e = scan_char(d, ';', 0);
    if e < d.len() {
        if e < key.len() {
            assert(d[e] == key[e]);
        } else if e == key.len() {
            assert(d[e] == '=');
        } else {
            assert(d[e] == value[e - a.len()]);
        }
    }
    assert(e == d.len());
    assert(d.subrange(0, e) =~= d);
    assert(d[0] == a[0]);
    if key.len() > 0 {
        assert(d[0] == key[0]);
    }
    assert(trim_start_where(d, ws_pred()) == d);
    assert(a.last() == '=');
    lemma_trim_end_after(a, value);
    let tt = a + trim_end_where(value, ws_pred());
    assert(trim_ws(d) == tt);
    lemma_scan_char(tt, '=', 0);
    let q = scan_char(tt, '=', 0);
    assert(tt[key.len() as int] == '=');
    if q < key.len() {
        assert(tt[q] == key[q]);
    }
    assert(q == key.len());
    assert(tt.subrange(0, q) =~= key);
    if key.len() > 0 {
        assert(trim_start_where(key, ws_pred()) == key);
        assert(trim_end_where(key, ws_pred()) == key);
    } else {
        assert(trim_start_where(key, ws_pred()) == key);
    }
    assert(tt.subrange(q + 1, tt.len() as int) =~= trim_end_where(value, ws_pred()));
    assert(trim_ws(tt.subrange(0, q)) == key);
    let cur2 = if key == "name"@ {
        trim_quotes(trim_end_where(value, ws_pred()))
    } else {
        cur
    };
    assert(param_name_from(d, 0, cur) == param_name_from(d, e + 1, cur2));
    assert(param_name_from(d, e + 1, cur2) == cur2);
    assert(key + seq!['='] + value == d);
}

/// The field name after looking at one head line. A line whose lower-cased form
/// holds `content-disposition` is cut, at the byte offset where that word ends in
/// the lower-cased form, and its rest read as `;`-separated parameters; `None`
/// when that offset is not a character boundary of the line itself.
pub open spec fn line_field_name(line: Seq<char>, cur: Seq<char>) -> Option<Seq<char>> {
    match first_occurrence(utf8(lower_text(line)), utf8("content-disposition"@)) {
        None => Some(cur),
        Some(idx) => {
            let lb = utf8(line);
            let cut = idx + utf8("content-disposition"@).len();
            if cut <= lb.len() && vstd::utf8::is_char_boundary(lb, cut) {
                Some(param_name_from(vstd::utf8::decode_utf8(lb.subrange(cut, lb.len() as int)), 0, cur))
            } else {
                None
            }
        },
    }
}

/// The field name stated by the lines of a part head from `pos` on.
pub open spec fn field_name_from(s: Seq<char>, pos: int, cur: Seq<char>) -> Option<Seq<char>>
    decreases s.len() + 1 - pos,
{
    if pos < 0 || pos >= s.len() {
        Some(cur)
    } else {
        let e = scan_char(s, '\n', pos);
        proof {
            lemma_scan_char(s, '\n', pos);
        }
        match line_field_name(text_line(s, pos), cur) {
            None => None,
            Some(c2) => field_name_from(s, e + 1, c2),
        }
    }
}

/// A part body without one trailing `\r\n` or `\n`.
pub open spec fn strip_newline(b: Seq<u8>) -> Seq<u8> {
    if b.len() >= 2 && b.subrange(b.len() - 2, b.len() as int) == seq![13u8, 10u8] {
        b.subrange(0, b.len() - 2)
    } else if b.len() >= 1 && b.last() == 10u8 {
        b.drop_last()
    } else {
        b
    }
}

/// The next part at or after `pos`: where its head starts and ends and where its
/// body ends. `None` when no further part follows (no boundary, nothing after
/// it, a closing `--`, or a head without a blank line).
pub open spec fn next_part(body: Seq<u8>, bb: Seq<u8>, pos: int) -> Option<(int, int, int)> {
    match find_from(body, bb, pos) {
        None => None,
        Some(p) => {
            let ps0 = p + bb.len();
            let after = body.subrange(ps0, body.len() as int);
            let crlf = seq_starts_with(after, seq![13u8, 10u8]);
            let lf = seq_starts_with(after, seq![10u8]);
            if ps0 >= body.len() || (!crlf && !lf && seq_starts_with(after, seq![45u8, 45u8])) {
                None
            } else {
                let ps = if crlf {
                    ps0 + 2
                } else if lf {
                    ps0 + 1
                } else {
                    ps0
                };
                match part_head_end(body, ps) {
                    None => None,
                    Some(he) => Some(
                        (
                            ps,
                            he,
                            match find_from(body, bb, he) {
                                Some(q) => q,
                                None => body.len() as int,
                            },
                        ),
                    ),
                }
            }
        },
    }
}

proof fn lemma_part_head_end(body: Seq<u8>, ps: int)
    requires
        0 <= ps <= body.len(),
    ensures
        match part_head_end(body, ps) {
            Some(he) => ps + 2 <= he <= body.len(),
            None => true,
        },
{
    assert(crlf_crlf().len() == 4);
    assert(lf_lf().len() == 2);
    lemma_find_from(body, crlf_crlf(), ps);
    lemma_find_from(body, lf_lf(), ps);
}

#[verifier::rlimit(30)]
pub proof fn lemma_next_part(body: Seq<u8>, bb: Seq<u8>, pos: int)
    requires
        0 <= pos < body.len(),
        bb.len() > 0,
    ensures
        match next_part(body, bb, pos) {
            Some((ps, he, be)) => pos < ps <= he <= be <= body.len(),
            None => true,
        },
{
    lemma_find_from(body, bb, pos);
    match find_from(body, bb, pos) {
        None => {},
        Some(p) => {
            let ps0 = p + bb.len();
            let after = body.subrange(ps0, body.len() as int);
            if ps0 < body.len() {
                let crlf = seq_starts_with(after, seq![13u8, 10u8]);
                let lf = seq_starts_with(after, seq![10u8]);
                let ps = if crlf {
                    ps0 + 2
                } else if lf {
                    ps0 + 1
                } else {
                    ps0
                };
                assert(ps <= body.len()) by {
                    if crlf {
                        assert(after.len() >= 2);
                    } else if lf {
                        assert(after.len() >= 1);
                    }
                }
                lemma_part_head_end(body, ps);
                match part_head_end(body, ps) {
                    None => {},
                    Some(he) => {
                        lemma_find_from(body, bb, he);
                    },
                }
            }
        },
    }
}

/// The fields of a multipart body from `pos` on, over `m`; `None` where a part
/// head cannot be cut as described for `line_field_name`.
pub open spec fn multipart_from(body: Seq<u8>, bb: Seq<u8>, pos: int, m: Map<Seq<char>, Seq<char>>) -> Option<Map<Seq<char>, Seq<char>>>
    decreases body.len() + 1 - pos,
{
    if pos < 0 || pos >= body.len() || bb.len() == 0 {
        Some(m)
    } else {
        match next_part(body, bb, pos) {
            None => Some(m),
            Some((ps, he, be)) => {
                match field_name_from(lossy_text(body.subrange(ps, he)), 0, Seq::empty()) {
                    None => None,
                    Some(name) => {
                        let m2 = if name.len() > 0 {
                            m.insert(name, lossy_text(strip_newline(body.subrange(he, be))))
                        } else {
                            m
                        };
                        proof {
                            lemma_next_part(body, bb, pos);
                        }
                        multipart_from(body, bb, be, m2)
                    },
                }
            },
        }
    }
}

/// The fields of a multipart body split by the boundary delimiter `bb`.
pub open spec fn multipart_map(body: Seq<u8>, bb: Seq<u8>) -> Option<Map<Seq<char>, Seq<char>>> {
    if bb.len() == 0 || body.len() == 0 {
        Some(Map::empty())
    } else {
        multipart_from(body, bb, 0, Map::empty())
    }
}

/// The field name carried by the parameters `d`, starting from `cur`.
fn param_name(d: &[char], cur: String) -> (r: String)
    ensures
        r@ == param_name_from(d@, 0, cur@),
{
    let n = d.len();
    let mut cur = cur;
    let ghost cur0 = cur@;
    let mut pos: usize = 0;
    while pos < n
        invariant
            n == d@.len(),
            pos <= n,
            param_name_from(d@, 0, cur0) == param_name_from(d@, pos as int, cur@),
        decreases n - pos,
    {
        let e = find_char_from(d, ';', pos);
        let (a, b) = trim_ws_range(d, pos, e);
        let t = &d[a..b];
        let q = find_char_from(t, '=', 0);
        let ghost c_old = cur@;
        if q < t.len() {
            let (ka, kb) = trim_ws_range(t, 0, q);
            let key = string_from_char_range(t, ka, kb);
            if str_equal(key.as_str(), "name") {
                let (va, vb) = trim_quotes_range(t, q + 1, t.len());
                cur = string_from_char_range(t, va, vb);
            }
        }
        assert(param_name_from(d@, pos as int, c_old) == param_name_from(d@, e + 1, cur@));
        if e >= n {
            pos = n;
        } else {
            pos = e + 1;
        }
    }
    cur
}

/// The field name after looking at one part head line.
fn line_name(line: &str, cur: String) -> (r: Option<String>)
    ensures
        match r {
            Some(v) => line_field_name(line@, cur@) == Some(v@),
            None => line_field_name(line@, cur@) is None,
        },
{
    let lower = to_lowercase(line);
    let pat = "content-disposition".as_bytes();
    let lb = lower.as_str().as_bytes();
    assert(lb@ == utf8(lower_text(line@)));
    proof {
        reveal_strlit("content-disposition");
        assert(pat@.len() > 0) by {
            assert(vstd::utf8::is_ascii_chars("content-disposition"@));
            vstd::utf8::is_ascii_chars_encode_utf8("content-disposition"@);
        }
    }
    match find_bytes(lb, pat) {
        None => Some(cur),
        Some(idx) => {
            let ll = line.as_bytes().len();
            assert(ll == utf8(line@).len());
            if idx > ll || ll - idx < pat.len() {
                assert(pat@ == utf8("content-disposition"@));
                return None;
            }
            let cut = idx + pat.len();
            assert(pat@ == utf8("content-disposition"@));
            if !line.is_char_boundary(cut) {
                return None;
            }
            let (_, disp) = line.split_at(cut);
            proof {
                vstd::utf8::encode_utf8_decode_utf8(disp@);
            }
            let dc = chars_of(disp);
            Some(param_name(dc.as_slice(), cur))
        },
    }
}

/// The field name that a part head states, or `None` where a line cannot be cut.
fn field_name_of(head: &str) -> (r: Option<String>)
    ensures
        match r {
            Some(v) => field_name_from(head@, 0, Seq::empty()) == Some(v@),
            None => field_name_from(head@, 0, Seq::empty()) is None,
        },
{
    let s = chars_of(head);
    let n = s.len();
    let mut cur = String::new();
    let mut pos: usize = 0;
    while pos < n
        invariant
            n == s@.len(),
            s@ == head@,
            pos <= n,
            field_name_from(head@, 0, Seq::empty()) == field_name_from(s@, pos as int, cur@),
        decreases n - pos,
    {
        let e = find_char_from(s.as_slice(), '\n', pos);
        let hi = if e < n && e > pos && s[e - 1] == '\r' {
            e - 1
        } else {
            e
        };
        if e < n && e > pos {
            assert(s@.subrange(pos as int, e as int).drop_last() =~= s@.subrange(pos as int, e - 1));
        }
        let line = string_from_char_range(s.as_slice(), pos, hi);
        assert(line@ == text_line(s@, pos as int));
        let ghost c_old = cur@;
        match line_name(line.as_str(), cur) {
            None => {
                return None;
            },
            Some(c2) => {
                cur = c2;
            },
        }
        assert(field_name_from(s@, pos as int, c_old) == field_name_from(s@, e + 1, cur@));
        if e >= n {
            pos = n;
        } else {
            pos = e + 1;
        }
    }
    Some(cur)
}

fn crlf_crlf_bytes() -> (r: Vec<u8>)
    ensures
        r@ == crlf_crlf(),
{
    let mut v: Vec<u8> = Vec::new();
    v.push(13u8);
    v.push(10u8);
    v.push(13u8);
    v.push(10u8);
    assert(v@ =~= crlf_crlf());
    v
}

fn lf_lf_bytes() -> (r: Vec<u8>)
    ensures
        r@ == lf_lf(),
{
    let mut v: Vec<u8> = Vec::new();
    v.push(10u8);
    v.push(10u8);
    assert(v@ =~= lf_lf());
    v
}

fn part_head_end_exec(body: &[u8], ps: usize) -> (r: Option<usize>)
    requires
        ps <= body@.len(),
    ensures
        match r {
            Some(he) => part_head_end(body@, ps as int) == Some(he as int),
            None => part_head_end(body@, ps as int) is None,
        },
{
    let a = crlf_crlf_bytes();
    let bl = body.len();
    assert(crlf_crlf().len() == 4);
    assert(lf_lf().len() == 2);
    match find_bytes_from(body, a.as_slice(), ps) {
        Some(q) => {
            assert(q + 4 <= bl);
            Some(q + 4)
        },
        None => {
            let b = lf_lf_bytes();
            match find_bytes_from(body, b.as_slice(), ps) {
                Some(q) => {
                    assert(q + 2 <= bl);
                    Some(q + 2)
                },
                None => None,
            }
        },
    }
}

/// Whether `h[from..]` starts with the given bytes.
fn starts_at(h: &[u8], from: usize, p: &[u8]) -> (r: bool)
    requires
        from <= h@.len(),
    ensures
        r == seq_starts_with(h@.subrange(from as int, h@.len() as int), p@),
{
    let hl = h.len();
    bytes_start_with(&h[from..hl], p)
}

fn next_part_exec(body: &[u8], bb: &[u8], pos: usize) -> (r: Option<(usize, usize, usize)>)
    requires
        pos <= body@.len(),
        bb@.len() > 0,
    ensures
        match r {
            Some((ps, he, be)) => next_part(body@, bb@, pos as int) == Some((ps as int, he as int, be as int)),
            None => next_part(body@, bb@, pos as int) is None,
        },
{
    let n = body.len();
    let p = match find_bytes_from(body, bb, pos) {
        Some(p) => p,
        None => return None,
    };
    let ps0 = p + bb.len();
    if ps0 >= n {
        return None;
    }
    let mut crlf_v: Vec<u8> = Vec::new();
    crlf_v.push(13u8);
    crlf_v.push(10u8);
    let mut lf_v: Vec<u8> = Vec::new();
    lf_v.push(10u8);
    let mut dd_v: Vec<u8> = Vec::new();
    dd_v.push(45u8);
    dd_v.push(45u8);
    assert(crlf_v@ =~= seq![13u8, 10u8]);
    assert(lf_v@ =~= seq![10u8]);
    assert(dd_v@ =~= seq![45u8, 45u8]);
    let crlf = starts_at(body, ps0, crlf_v.as_slice());
    let lf = starts_at(body, ps0, lf_v.as_slice());
    if !crlf && !lf && starts_at(body, ps0, dd_v.as_slice()) {
        return None;
    }
    let ps = if crlf {
        ps0 + 2
    } else if lf {
        ps0 + 1
    } else {
        ps0
    };
    let he = match part_head_end_exec(body, ps) {
        Some(he) => he,
        None => return None,
    };
    proof {
        lemma_part_head_end(body@, ps as int);
    }
    let be = match find_bytes_from(body, bb, he) {
        Some(q) => q,
        None => n,
    };
    Some((ps, he, be))
}

/// The fields of a `multipart/form-data` body split by the delimiter
/// `boundary`: each part names its field in a `Content-Disposition` line and
/// carries its value as the part body. `None` where a head line cannot be cut
/// where its field name starts (see `line_field_name`).
pub fn parse_multipart(body: &[u8], boundary: &str) -> (r: Option<StrMap<String>>)
    ensures
        match r {
            Some(m) => multipart_map(body@, utf8(boundary@)) == Some(m@),
            None => multipart_map(body@, utf8(boundary@)) is None,
        },
{
    let mut result: StrMap<String> = StrMap::new();
    let bb = boundary.as_bytes();
    let n = body.len();
    if bb.len() == 0 || n == 0 {
        return Some(result);
    }
    let mut pos: usize = 0;
    while pos < n
        invariant
            n == body@.len(),
            bb@ == utf8(boundary@),
            bb@.len() > 0,
            pos <= n,
            multipart_map(body@, bb@) == multipart_from(body@, bb@, pos as int, result@),
        decreases n - pos,
    {
        let (ps, he, be) = match next_part_exec(body, bb, pos) {
            Some(t) => t,
            None => return Some(result),
        };
        proof {
            lemma_next_part(body@, bb@, pos as int);
        }
        let head = lossy_string(&body[ps..he]);
        let name = match field_name_of(head.as_str()) {
            Some(nm) => nm,
            None => return None,
        };
        let ghost m0 = result@;
        let part = &body[he..be];
        let pl = part.len();
        let mut crlf_v: Vec<u8> = Vec::new();
        crlf_v.push(13u8);
        crlf_v.push(10u8);
        let mut lf_v: Vec<u8> = Vec::new();
        lf_v.push(10u8);
        assert(crlf_v@ =~= seq![13u8, 10u8]);
        assert(lf_v@ =~= seq![10u8]);
        let end = if bytes_end_with(part, crlf_v.as_slice()) {
            assert(strip_newline(part@) == part@.subrange(0, pl - 2));
            pl - 2
        } else if bytes_end_with(part, lf_v.as_slice()) {
            assert(part@.subrange(pl - 1, pl as int)[0] == 10u8);
            assert(part@.last() == 10u8);
            assert(part@.drop_last() =~= part@.subrange(0, pl - 1));
            assert(strip_newline(part@) == part@.subrange(0, pl - 1));
            pl - 1
        } else {
            assert(pl >= 1 ==> part@.subrange(pl - 1, pl as int) =~= seq![part@.last()]);
            assert(part@.subrange(0, pl as int) =~= part@);
            assert(strip_newline(part@) == part@.subrange(0, pl as int));
            pl
        };
        if !name.as_str().is_empty() {
            let value = lossy_string(&part[0..end]);
            result.insert(name, value);
        }
        assert(multipart_from(body@, bb@, pos as int, m0) == multipart_from(body@, bb@, be as int, result@));
        pos = be;
    }
    Some(result)
}

} // verus!

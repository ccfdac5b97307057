//! Character and byte helpers shared by the parsers.
use vstd::prelude::*;
use vstd::std_specs::iter::IteratorSpec;

verus! {

broadcast use vstd::string::group_string_axioms;

// ------------------------------------------------------------------
// Scanning bytes
// ------------------------------------------------------------------

/// The first index at or after `from` holding `b`, or `h.len()` when there is none.
pub open spec fn scan_byte(h: Seq<u8>, b: u8, from: int) -> int
    recommends
        0 <= from,
    decreases h.len() - from,
{
    if from >= h.len() {
        h.len() as int
    } else if h[from] == b {
        from
    } else {
        scan_byte(h, b, from + 1)
    }
}

pub proof fn lemma_scan_byte(h: Seq<u8>, b: u8, from: int)
    requires
        0 <= from <= h.len(),
    ensures
        from <= scan_byte(h, b, from) <= h.len(),
        scan_byte(h, b, from) < h.len() ==> h[scan_byte(h, b, from)] == b,
        forall|k: int| from <= k < scan_byte(h, b, from) ==> h[k] != b,
    decreases h.len() - from,
{
    if from < h.len() && h[from] != b {
        lemma_scan_byte(h, b, from + 1);
    }
}

pub proof fn lemma_scan_byte_unique(h: Seq<u8>, b: u8, from: int, k: int)
    requires
        0 <= from <= k <= h.len(),
        k < h.len() ==> h[k] == b,
        forall|j: int| from <= j < k ==> h[j] != b,
    ensures
        scan_byte(h, b, from) == k,
    decreases k - from,
{
    if from < k {
        lemma_scan_byte_unique(h, b, from + 1, k);
    }
}

/// `memchr::memchr`: the index of the first occurrence of `needle` in
/// `haystack`, or `None` when it does not occur, as the crate documents it
/// (the same as `haystack.iter().position(|&b| b == needle)`).
pub assume_specification[ memchr::memchr ](needle: u8, haystack: &[u8]) -> (r: Option<usize>)
    ensures
        match r {
            Some(i) => {
                &&& i < haystack@.len()
                &&& haystack@[i as int] == needle
                &&& forall|j: int| 0 <= j < i ==> haystack@[j] != needle
            },
            None => forall|j: int| 0 <= j < haystack@.len() ==> haystack@[j] != needle,
        },
;

/// First index at or after `from` holding `b`, or `h.len()`.
pub fn find_byte_from(h: &[u8], b: u8, from: usize) -> (r: usize)
    requires
        from <= h@.len(),
    ensures
        r == scan_byte(h@, b, from as int),
{
    let tail = &h[from..h.len()];
    assert forall|j: int| 0 <= j < tail@.len() implies tail@[j] == h@[from + j] by {}
    match memchr::memchr(b, tail) {
        Some(i) => {
            proof {
                assert forall|j: int| from <= j < from + i implies h@[j] != b by {
                    assert(tail@[j - from] != b);
                }
                lemma_scan_byte_unique(h@, b, from as int, from + i);
            }
            from + i
        },
        None => {
            proof {
                assert forall|j: int| from <= j < h@.len() implies h@[j] != b by {
                    assert(tail@[j - from] != b);
                }
                lemma_scan_byte_unique(h@, b, from as int, h@.len() as int);
            }
            h.len()
        },
    }
}

/// The first index at or after `from` holding `c`, or `s.len()` when there is none.
pub open spec fn scan_char(s: Seq<char>, c: char, from: int) -> int
    recommends
        0 <= from,
    decreases s.len() - from,
{
    if from >= s.len() {
        s.len() as int
    } else if s[from] == c {
        from
    } else {
        scan_char(s, c, from + 1)
    }
}

pub proof fn lemma_scan_char(s: Seq<char>, c: char, from: int)
    requires
        0 <= from <= s.len(),
    ensures
        from <= scan_char(s, c, from) <= s.len(),
        scan_char(s, c, from) < s.len() ==> s[scan_char(s, c, from)] == c,
        forall|k: int| from <= k < scan_char(s, c, from) ==> s[k] != c,
    decreases s.len() - from,
{
    if from < s.len() && s[from] != c {
        lemma_scan_char(s, c, from + 1);
    }
}

/// First index at or after `from` holding `c`, or `s.len()`.
pub fn find_char_from(s: &[char], c: char, from: usize) -> (r: usize)
    requires
        from <= s@.len(),
    ensures
        r == scan_char(s@, c, from as int),
        from <= r <= s@.len(),
{
    proof {
        lemma_scan_char(s@, c, from as int);
    }
    let mut i = from;
    while i < s.len()
        invariant
            from <= i <= s@.len(),
            scan_char(s@, c, from as int) == scan_char(s@, c, i as int),
        decreases s@.len() - i,
    {
        if s[i] == c {
            return i;
        }
        i = i + 1;
    }
    i
}

/// The character views of a list of strings.
pub open spec fn strings_view(v: Seq<String>) -> Seq<Seq<char>> {
    v.map_values(|s: String| s@)
}

/// `n` occurs in `h` at index `i`.
pub open spec fn occurs_at<T>(h: Seq<T>, n: Seq<T>, i: int) -> bool {
    0 <= i && i + n.len() <= h.len() && h.subrange(i, i + n.len()) == n
}

/// The first index where `n` occurs in `h`, if any.
#[verifier::opaque]
pub open spec fn first_occurrence<T>(h: Seq<T>, n: Seq<T>) -> Option<int> {
    if exists|i: int| occurs_at(h, n, i) {
        Some(choose|i: int| occurs_at(h, n, i) && forall|j: int| 0 <= j < i ==> !occurs_at(h, n, j))
    } else {
        None
    }
}

pub proof fn lemma_first_occurrence<T>(h: Seq<T>, n: Seq<T>, i: int)
    requires
        occurs_at(h, n, i),
        forall|j: int| 0 <= j < i ==> !occurs_at(h, n, j),
    ensures
        first_occurrence(h, n) == Some(i),
{
    reveal(first_occurrence);
    let k = choose|k: int| occurs_at(h, n, k) && forall|j: int| 0 <= j < k ==> !occurs_at(h, n, j);
    assert(occurs_at(h, n, k) && forall|j: int| 0 <= j < k ==> !occurs_at(h, n, j));
    if k < i {
        assert(!occurs_at(h, n, k));
    }
    if i < k {
        assert(!occurs_at(h, n, i));
    }
}

proof fn lemma_min_occurrence_exists<T>(h: Seq<T>, n: Seq<T>, i: int)
    requires
        occurs_at(h, n, i),
    ensures
        exists|k: int| occurs_at(h, n, k) && forall|j: int| 0 <= j < k ==> !occurs_at(h, n, j),
    decreases i,
{
    if exists|j: int| 0 <= j < i && occurs_at(h, n, j) {
        let j = choose|j: int| 0 <= j < i && occurs_at(h, n, j);
        lemma_min_occurrence_exists(h, n, j);
    } else {
        assert(forall|j: int| 0 <= j < i ==> !occurs_at(h, n, j));
    }
}

pub proof fn lemma_no_occurrence<T>(h: Seq<T>, n: Seq<T>)
    requires
        forall|j: int| !occurs_at(h, n, j),
    ensures
        first_occurrence(h, n) is None,
{
    reveal(first_occurrence);
}

/// What `first_occurrence` means: the least index of an occurrence, or none at all.
pub proof fn lemma_first_occurrence_meaning<T>(h: Seq<T>, n: Seq<T>)
    ensures
        match first_occurrence(h, n) {
            Some(i) => occurs_at(h, n, i) && forall|j: int| 0 <= j < i ==> !occurs_at(h, n, j),
            None => forall|j: int| !occurs_at(h, n, j),
        },
{
    reveal(first_occurrence);
    if exists|i: int| occurs_at(h, n, i) {
        let i = choose|i: int| occurs_at(h, n, i);
        lemma_min_occurrence_exists(h, n, i);
    }
}

/// Whether `n` is found at index `i` of `h`.
fn matches_at(h: &[u8], n: &[u8], i: usize) -> (r: bool)
    requires
        i + n@.len() <= h@.len(),
    ensures
        r == occurs_at(h@, n@, i as int),
{
    let mut k: usize = 0;
    let hl = h.len();
    while k < n.len()
        invariant
            hl == h@.len(),
            k <= n@.len(),
            i + n@.len() <= h@.len(),
            forall|j: int| 0 <= j < k ==> h@[i + j] == n@[j],
        decreases n@.len() - k,
    {
        if h[i + k] != n[k] {
            assert(h@.subrange(i as int, i + n@.len())[k as int] != n@[k as int]);
            return false;
        }
        k = k + 1;
    }
    assert(h@.subrange(i as int, i + n@.len()) =~= n@);
    true
}

/// The first index where the non-empty `needle` occurs in `haystack`.
pub fn find_bytes(haystack: &[u8], needle: &[u8]) -> (r: Option<usize>)
    requires
        needle@.len() > 0,
    ensures
        match r {
            Some(i) => first_occurrence(haystack@, needle@) == Some(i as int) && i + needle@.len() <= haystack@.len(),
            None => first_occurrence(haystack@, needle@) is None,
        },
{
    let n = needle.len();
    if n > haystack.len() {
        assert forall|j: int| !occurs_at(haystack@, needle@, j) by {}
        proof {
            lemma_no_occurrence(haystack@, needle@);
        }
        return None;
    }
    let mut i: usize = 0;
    let last = haystack.len() - n;
    assert(last < usize::MAX);
    while i <= last
        invariant
            last < usize::MAX,
            n == needle@.len(),
            n <= haystack@.len(),
            last == haystack@.len() - n,
            i <= last + 1,
            forall|j: int| 0 <= j < i ==> !occurs_at(haystack@, needle@, j),
        decreases last + 1 - i,
    {
        if matches_at(haystack, needle, i) {
            proof {
                lemma_first_occurrence(haystack@, needle@, i as int);
            }
            return Some(i);
        }
        i = i + 1;
    }
    assert forall|j: int| !occurs_at(haystack@, needle@, j) by {
        if 0 <= j < i {
        }
    }
    proof {
        lemma_no_occurrence(haystack@, needle@);
    }
    None
}

/// Whether the characters `n` are found at index `i` of `h`.
fn chars_match_at(h: &[char], n: &[char], i: usize) -> (r: bool)
    requires
        i + n@.len() <= h@.len(),
    ensures
        r == occurs_at(h@, n@, i as int),
{
    let mut k: usize = 0;
    let hl = h.len();
    while k < n.len()
        invariant
            hl == h@.len(),
            k <= n@.len(),
            i + n@.len() <= h@.len(),
            forall|j: int| 0 <= j < k ==> h@[i + j] == n@[j],
        decreases n@.len() - k,
    {
        if h[i + k] != n[k] {
            assert(h@.subrange(i as int, i + n@.len())[k as int] != n@[k as int]);
            return false;
        }
        k = k + 1;
    }
    assert(h@.subrange(i as int, i + n@.len()) =~= n@);
    true
}

/// The first index where the non-empty character sequence `needle` occurs in `haystack`.
pub fn find_chars(haystack: &[char], needle: &[char]) -> (r: Option<usize>)
    requires
        needle@.len() > 0,
    ensures
        match r {
            Some(i) => first_occurrence(haystack@, needle@) == Some(i as int),
            None => first_occurrence(haystack@, needle@) is None,
        },
{
    let n = needle.len();
    if n > haystack.len() {
        assert forall|j: int| !occurs_at(haystack@, needle@, j) by {}
        proof {
            lemma_no_occurrence(haystack@, needle@);
        }
        return None;
    }
    let mut i: usize = 0;
    let last = haystack.len() - n;
    assert(last < usize::MAX);
    while i <= last
        invariant
            last < usize::MAX,
            n == needle@.len(),
            n <= haystack@.len(),
            last == haystack@.len() - n,
            i <= last + 1,
            forall|j: int| 0 <= j < i ==> !occurs_at(haystack@, needle@, j),
        decreases last + 1 - i,
    {
        if chars_match_at(haystack, needle, i) {
            proof {
                lemma_first_occurrence(haystack@, needle@, i as int);
            }
            return Some(i);
        }
        i = i + 1;
    }
    assert forall|j: int| !occurs_at(haystack@, needle@, j) by {
        if 0 <= j < i {
        }
    }
    proof {
        lemma_no_occurrence(haystack@, needle@);
    }
    None
}

/// The first index of character `c` in `h`, if any.
pub open spec fn char_index(h: Seq<char>, c: char) -> Option<int> {
    first_occurrence(h, seq![c])
}

/// The first index of character `c` in `h`, if any.
pub fn find_char(h: &[char], c: char) -> (r: Option<usize>)
    ensures
        match r {
            Some(i) => char_index(h@, c) == Some(i as int) && i < h@.len() && h@[i as int] == c,
            None => char_index(h@, c) is None,
        },
{
    proof {
        lemma_first_occurrence_meaning(h@, seq![c]);
    }
    let mut v: Vec<char> = Vec::new();
    v.push(c);
    assert(v@ =~= seq![c]);
    let r = find_chars(h, v.as_slice());
    match r {
        Some(i) => {
            assert(occurs_at(h@, seq![c], i as int));
            assert(h@.subrange(i as int, i + 1)[0] == c);
        },
        None => {},
    }
    r
}

/// Appends the bytes `s` to `v`.
pub fn append_bytes(v: &mut Vec<u8>, s: &[u8])
    ensures
        final(v)@ == old(v)@ + s@,
{
    let ghost v0 = v@;
    let mut i: usize = 0;
    while i < s.len()
        invariant
            i <= s@.len(),
            v@ == v0 + s@.subrange(0, i as int),
        decreases s@.len() - i,
    {
        v.push(s[i]);
        assert(v0 + s@.subrange(0, i + 1) =~= (v0 + s@.subrange(0, i as int)).push(s@[i as int]));
        i = i + 1;
    }
    assert(s@.subrange(0, s@.len() as int) =~= s@);
}

/// Whether `h` starts with `p`.
pub fn bytes_start_with(h: &[u8], p: &[u8]) -> (r: bool)
    ensures
        r == (p@.len() <= h@.len() && h@.subrange(0, p@.len() as int) == p@),
{
    if p.len() > h.len() {
        return false;
    }
    matches_at(h, p, 0)
}

/// Whether `h` ends with `p`.
pub fn bytes_end_with(h: &[u8], p: &[u8]) -> (r: bool)
    ensures
        r == (p@.len() <= h@.len() && h@.subrange(h@.len() - p@.len(), h@.len() as int) == p@),
{
    if p.len() > h.len() {
        return false;
    }
    matches_at(h, p, h.len() - p.len())
}

/// Byte-wise equality.
pub fn bytes_equal(a: &[u8], b: &[u8]) -> (r: bool)
    ensures
        r == (a@ == b@),
{
    if a.len() != b.len() {
        return false;
    }
    let r = matches_at(a, b, 0);
    assert(a@.subrange(0, b@.len() as int) =~= a@);
    r
}

// ------------------------------------------------------------------
// ASCII helpers
// ------------------------------------------------------------------

/// `u8::is_ascii_whitespace`: space, tab, line feed, form feed and carriage return.
pub open spec fn is_ascii_ws(b: u8) -> bool {
    b == 0x20u8 || b == 0x09u8 || b == 0x0au8 || b == 0x0cu8 || b == 0x0du8
}

/// `<[u8]>::trim_ascii_start`.
pub open spec fn trim_ascii_start(s: Seq<u8>) -> Seq<u8>
    decreases s.len(),
{
    if s.len() > 0 && is_ascii_ws(s[0]) {
        trim_ascii_start(s.drop_first())
    } else {
        s
    }
}

/// `<[u8]>::trim_ascii_end`.
pub open spec fn trim_ascii_end(s: Seq<u8>) -> Seq<u8>
    decreases s.len(),
{
    if s.len() > 0 && is_ascii_ws(s.last()) {
        trim_ascii_end(s.drop_last())
    } else {
        s
    }
}

/// `<[u8]>::trim_ascii`.
pub open spec fn trim_ascii(s: Seq<u8>) -> Seq<u8> {
    trim_ascii_end(trim_ascii_start(s))
}

/// Bounds `(lo, hi)` such that `s[lo..hi]` is `s` without ASCII whitespace at either end.
pub fn trim_ascii_bounds(s: &[u8]) -> (r: (usize, usize))
    ensures
        r.0 <= r.1 <= s@.len(),
        s@.subrange(r.0 as int, r.1 as int) == trim_ascii(s@),
{
    let mut lo: usize = 0;
    assert(s@.subrange(0, s@.len() as int) =~= s@);
    while lo < s.len() && is_ascii_whitespace_byte(s[lo])
        invariant
            lo <= s@.len(),
            trim_ascii_start(s@) == trim_ascii_start(s@.subrange(lo as int, s@.len() as int)),
        decreases s@.len() - lo,
    {
        assert(s@.subrange(lo as int, s@.len() as int).drop_first() =~= s@.subrange(lo + 1, s@.len() as int));
        lo = lo + 1;
    }
    assert(trim_ascii_start(s@.subrange(lo as int, s@.len() as int)) == s@.subrange(lo as int, s@.len() as int));
    let mut hi: usize = s.len();
    while hi > lo && is_ascii_whitespace_byte(s[hi - 1])
        invariant
            lo <= hi <= s@.len(),
            trim_ascii(s@) == trim_ascii_end(s@.subrange(lo as int, hi as int)),
        decreases hi,
    {
        assert(s@.subrange(lo as int, hi as int).drop_last() =~= s@.subrange(lo as int, hi - 1));
        hi = hi - 1;
    }
    (lo, hi)
}

pub fn is_ascii_whitespace_byte(b: u8) -> (r: bool)
    ensures
        r == is_ascii_ws(b),
{
    b == 0x20u8 || b == 0x09u8 || b == 0x0au8 || b == 0x0cu8 || b == 0x0du8
}

/// `u8::to_ascii_lowercase`.
pub open spec fn ascii_lower(b: u8) -> u8 {
    if 0x41u8 <= b <= 0x5au8 {
        (b + 32) as u8
    } else {
        b
    }
}

/// Byte-wise ASCII lower-casing of a sequence.
pub open spec fn ascii_lower_seq(s: Seq<u8>) -> Seq<u8> {
    s.map_values(|b: u8| ascii_lower(b))
}

pub fn ascii_lower_byte(b: u8) -> (r: u8)
    ensures
        r == ascii_lower(b),
{
    if 0x41u8 <= b && b <= 0x5au8 {
        b + 32
    } else {
        b
    }
}

/// ASCII case-insensitive equality of two byte strings.
pub fn bytes_eq_ignore_ascii_case(a: &[u8], b: &[u8]) -> (r: bool)
    ensures
        r == (ascii_lower_seq(a@) == ascii_lower_seq(b@)),
{
    if a.len() != b.len() {
        assert(ascii_lower_seq(a@).len() != ascii_lower_seq(b@).len());
        return false;
    }
    let mut i: usize = 0;
    while i < a.len()
        invariant
            a@.len() == b@.len(),
            i <= a@.len(),
            forall|j: int| 0 <= j < i ==> ascii_lower(a@[j]) == ascii_lower(b@[j]),
        decreases a@.len() - i,
    {
        if ascii_lower_byte(a[i]) != ascii_lower_byte(b[i]) {
            assert(ascii_lower_seq(a@)[i as int] != ascii_lower_seq(b@)[i as int]);
            return false;
        }
        i = i + 1;
    }
    assert(ascii_lower_seq(a@) =~= ascii_lower_seq(b@));
    true
}

// ------------------------------------------------------------------
// Strings
// ------------------------------------------------------------------

/// `char::is_whitespace`: the Unicode `White_Space` characters.
pub open spec fn is_whitespace(c: char) -> bool {
    let u = c as u32;
    (0x09u32 <= u <= 0x0du32) || u == 0x20u32 || u == 0x85u32 || u == 0xa0u32 || u == 0x1680u32
        || (0x2000u32 <= u <= 0x200au32) || u == 0x2028u32 || u == 0x2029u32 || u == 0x202fu32
        || u == 0x205fu32 || u == 0x3000u32
}

pub fn is_whitespace_char(c: char) -> (r: bool)
    ensures
        r == is_whitespace(c),
{
    let u = c as u32;
    (0x09u32 <= u && u <= 0x0du32) || u == 0x20u32 || u == 0x85u32 || u == 0xa0u32 || u == 0x1680u32
        || (0x2000u32 <= u && u <= 0x200au32) || u == 0x2028u32 || u == 0x2029u32 || u == 0x202fu32
        || u == 0x205fu32 || u == 0x3000u32
}

/// `s` without leading characters satisfying `p`.
pub open spec fn trim_start_where(s: Seq<char>, p: spec_fn(char) -> bool) -> Seq<char>
    decreases s.len(),
{
    if s.len() > 0 && p(s[0]) {
        trim_start_where(s.drop_first(), p)
    } else {
        s
    }
}

/// `s` without trailing characters satisfying `p`.
pub open spec fn trim_end_where(s: Seq<char>, p: spec_fn(char) -> bool) -> Seq<char>
    decreases s.len(),
{
    if s.len() > 0 && p(s.last()) {
        trim_end_where(s.drop_last(), p)
    } else {
        s
    }
}

/// `str::trim`: without surrounding whitespace.
pub open spec fn trim_ws(s: Seq<char>) -> Seq<char> {
    trim_end_where(trim_start_where(s, ws_pred()), ws_pred())
}

pub open spec fn ws_pred() -> spec_fn(char) -> bool {
    |c: char| is_whitespace(c)
}

pub open spec fn quote_pred() -> spec_fn(char) -> bool {
    |c: char| c == '"'
}

/// `str::trim_matches('"')`: without surrounding double quotes.
pub open spec fn trim_quotes(s: Seq<char>) -> Seq<char> {
    trim_end_where(trim_start_where(s, quote_pred()), quote_pred())
}

/// Bounds of `cs[lo..hi]` without surrounding whitespace.
pub fn trim_ws_range(cs: &[char], lo: usize, hi: usize) -> (r: (usize, usize))
    requires
        lo <= hi <= cs@.len(),
    ensures
        lo <= r.0 <= r.1 <= hi,
        cs@.subrange(r.0 as int, r.1 as int) == trim_ws(cs@.subrange(lo as int, hi as int)),
{
    let mut a = lo;
    while a < hi && is_whitespace_char(cs[a])
        invariant
            lo <= a <= hi <= cs@.len(),
            trim_start_where(cs@.subrange(lo as int, hi as int), ws_pred()) == trim_start_where(cs@.subrange(a as int, hi as int), ws_pred()),
        decreases hi - a,
    {
        assert(ws_pred()(cs@[a as int]));
        assert(cs@.subrange(a as int, hi as int).drop_first() =~= cs@.subrange(a + 1, hi as int));
        a = a + 1;
    }
    let mut b = hi;
    while b > a && is_whitespace_char(cs[b - 1])
        invariant
            lo <= a <= b <= hi <= cs@.len(),
            trim_ws(cs@.subrange(lo as int, hi as int)) == trim_end_where(cs@.subrange(a as int, b as int), ws_pred()),
        decreases b,
    {
        assert(ws_pred()(cs@[b - 1]));
        assert(cs@.subrange(a as int, b as int).drop_last() =~= cs@.subrange(a as int, b - 1));
        b = b - 1;
    }
    (a, b)
}

/// Bounds of `cs[lo..hi]` without surrounding double quotes.
pub fn trim_quotes_range(cs: &[char], lo: usize, hi: usize) -> (r: (usize, usize))
    requires
        lo <= hi <= cs@.len(),
    ensures
        lo <= r.0 <= r.1 <= hi,
        cs@.subrange(r.0 as int, r.1 as int) == trim_quotes(cs@.subrange(lo as int, hi as int)),
{
    let mut a = lo;
    while a < hi && cs[a] == '"'
        invariant
            lo <= a <= hi <= cs@.len(),
            trim_start_where(cs@.subrange(lo as int, hi as int), quote_pred()) == trim_start_where(cs@.subrange(a as int, hi as int), quote_pred()),
        decreases hi - a,
    {
        assert(quote_pred()(cs@[a as int]));
        assert(cs@.subrange(a as int, hi as int).drop_first() =~= cs@.subrange(a + 1, hi as int));
        a = a + 1;
    }
    let mut b = hi;
    while b > a && cs[b - 1] == '"'
        invariant
            lo <= a <= b <= hi <= cs@.len(),
            trim_quotes(cs@.subrange(lo as int, hi as int)) == trim_end_where(cs@.subrange(a as int, b as int), quote_pred()),
        decreases b,
    {
        assert(quote_pred()(cs@[b - 1]));
        assert(cs@.subrange(a as int, b as int).drop_last() =~= cs@.subrange(a as int, b - 1));
        b = b - 1;
    }
    (a, b)
}

/// The characters of a string slice, in order.
pub fn chars_of(s: &str) -> (r: Vec<char>)
    ensures
        r@ == s@,
{
    let mut out: Vec<char> = Vec::new();
    let mut it = s.chars();
    assert(it.remaining() == s@);
    loop
        invariant
            it.obeys_prophetic_iter_laws(),
            it.decrease() is Some,
            out@ + it.remaining() == s@,
        ensures
            out@ == s@,
        decreases it.decrease()->0,
    {
        match it.next() {
            Some(c) => {
                out.push(c);
            },
            None => {
                break;
            },
        }
    }
    out
}

/// The decoding that `String::from_utf8_lossy` gives a byte sequence.
pub uninterp spec fn utf8_lossy(bytes: Seq<u8>) -> Seq<char>;

/// Calls `String::from_utf8_lossy` and owns the result. The contract names the
/// result and states the documented case: valid UTF-8 decodes unchanged. How
/// invalid sequences are replaced is left unsaid.
#[verifier::external_body]
pub(crate) fn lossy_string(bytes: &[u8]) -> (r: String)
    ensures
        r@ == utf8_lossy(bytes@),
        vstd::utf8::valid_utf8(bytes@) ==> r@ == vstd::utf8::decode_utf8(bytes@),
{
    String::from_utf8_lossy(bytes).into_owned()
}

/// What `String::from_utf8_lossy` gives: the decoded text for valid UTF-8,
/// and the library's replacement decoding otherwise.
pub open spec fn lossy_text(bytes: Seq<u8>) -> Seq<char> {
    if vstd::utf8::valid_utf8(bytes) {
        vstd::utf8::decode_utf8(bytes)
    } else {
        utf8_lossy(bytes)
    }
}

/// What `str::to_lowercase` gives a string.
pub uninterp spec fn unicode_lower(s: Seq<char>) -> Seq<char>;

/// `char::to_ascii_lowercase`: `A` to `Z` become `a` to `z`, every other character stays.
pub open spec fn ascii_lower_char(c: char) -> char {
    if 'A' <= c && c <= 'Z' {
        ((c as u32) + 32) as char
    } else {
        c
    }
}

/// Every character is ASCII.
pub open spec fn all_ascii(s: Seq<char>) -> bool {
    forall|i: int| 0 <= i < s.len() ==> (#[trigger] s[i] as u32) < 128
}

/// Calls `str::to_lowercase`. The result is named; of the Unicode case
/// mapping only the ASCII part is stated: on an all-ASCII string each of `A`
/// to `Z` becomes its lower-case letter and every other character stays
/// (the Unicode lower-case mapping of the ASCII range, which has no
/// context-dependent rule). The rest of the mapping is left unsaid.
#[verifier::external_body]
pub(crate) fn to_lowercase(s: &str) -> (r: String)
    ensures
        r@ == unicode_lower(s@),
        all_ascii(s@) ==> r@ == s@.map_values(|c: char| ascii_lower_char(c)),
{
    s.to_lowercase()
}

/// What `str::to_lowercase` gives: the ASCII lower-casing for an all-ASCII
/// string, and the library's Unicode mapping otherwise.
pub open spec fn lower_text(s: Seq<char>) -> Seq<char> {
    if all_ascii(s) {
        s.map_values(|c: char| ascii_lower_char(c))
    } else {
        unicode_lower(s)
    }
}

/// Calls `String::push`: appends one character.
#[verifier::external_body]
pub(crate) fn push_char(s: &mut String, c: char)
    ensures
        final(s)@ == old(s)@.push(c),
{
    s.push(c);
}

/// Calls `String::push_str`: appends a string slice.
#[verifier::external_body]
pub(crate) fn push_str(s: &mut String, t: &str)
    ensures
        final(s)@ == old(s)@ + t@,
{
    s.push_str(t);
}

/// A string holding exactly the given characters.
pub fn string_from_chars(cs: &[char]) -> (r: String)
    ensures
        r@ == cs@,
{
    let mut s = String::new();
    let mut i: usize = 0;
    while i < cs.len()
        invariant
            i <= cs@.len(),
            s@ == cs@.subrange(0, i as int),
        decreases cs@.len() - i,
    {
        push_char(&mut s, cs[i]);
        assert(cs@.subrange(0, i + 1) =~= cs@.subrange(0, i as int).push(cs@[i as int]));
        i = i + 1;
    }
    assert(cs@.subrange(0, cs@.len() as int) =~= cs@);
    s
}

/// A string holding the characters `cs[lo..hi]`.
pub fn string_from_char_range(cs: &[char], lo: usize, hi: usize) -> (r: String)
    requires
        lo <= hi <= cs@.len(),
    ensures
        r@ == cs@.subrange(lo as int, hi as int),
{
    string_from_chars(&cs[lo..hi])
}

/// Equality of two string slices by their characters.
pub fn str_equal(a: &str, b: &str) -> (r: bool)
    ensures
        r == (a@ == b@),
{
    let x = a.to_owned();
    let y = b.to_owned();
    x == y
}

/// The characters of `s` start with those of `p`.
pub open spec fn seq_starts_with<T>(s: Seq<T>, p: Seq<T>) -> bool {
    p.len() <= s.len() && s.subrange(0, p.len() as int) == p
}

/// Whether the character sequence `s` starts with `p`.
pub fn chars_start_with(s: &[char], p: &[char]) -> (r: bool)
    ensures
        r == seq_starts_with(s@, p@),
{
    if p.len() > s.len() {
        return false;
    }
    let mut i: usize = 0;
    while i < p.len()
        invariant
            p@.len() <= s@.len(),
            i <= p@.len(),
            forall|j: int| 0 <= j < i ==> s@[j] == p@[j],
        decreases p@.len() - i,
    {
        if s[i] != p[i] {
            assert(s@.subrange(0, p@.len() as int)[i as int] != p@[i as int]);
            return false;
        }
        i = i + 1;
    }
    assert(s@.subrange(0, p@.len() as int) =~= p@);
    true
}

/// Whether the string slice `s` starts with `p`.
pub fn str_starts_with(s: &str, p: &str) -> (r: bool)
    ensures
        r == seq_starts_with(s@, p@),
{
    let sc = chars_of(s);
    let pc = chars_of(p);
    chars_start_with(sc.as_slice(), pc.as_slice())
}

// ------------------------------------------------------------------
// Decimal and hexadecimal numerals
// ------------------------------------------------------------------

/// The digit character for `d` in `0..16`, lower-case.
pub open spec fn digit_char(d: nat) -> char {
    if d < 10 {
        ((d + 48) as u8) as char
    } else {
        ((d + 87) as u8) as char
    }
}

/// The decimal numeral of `n` without leading zeros.
pub open spec fn decimal(n: nat) -> Seq<char>
    decreases n,
{
    if n < 10 {
        seq![digit_char(n)]
    } else {
        decimal(n / 10).push(digit_char(n % 10))
    }
}

/// The decimal numeral of a signed integer, with a leading `-` when negative.
pub open spec fn signed_decimal(i: int) -> Seq<char> {
    if i < 0 {
        seq!['-'] + decimal((-i) as nat)
    } else {
        decimal(i as nat)
    }
}

/// The lower-case hexadecimal numeral of `n` without leading zeros.
pub open spec fn hex(n: nat) -> Seq<char>
    decreases n,
{
    if n < 16 {
        seq![digit_char(n)]
    } else {
        hex(n / 16).push(digit_char(n % 16))
    }
}

/// Calls `itoa::Buffer::format` on an unsigned integer; the result is its decimal numeral.
#[verifier::external_body]
pub(crate) fn itoa_u64(n: u64) -> (r: String)
    ensures
        r@ == decimal(n as nat),
{
    itoa::Buffer::new().format(n).to_owned()
}

/// Calls `itoa::Buffer::format` on a signed integer; the result is its decimal numeral.
#[verifier::external_body]
pub(crate) fn itoa_i64(n: i64) -> (r: String)
    ensures
        r@ == signed_decimal(n as int),
{
    itoa::Buffer::new().format(n).to_owned()
}

/// The digit character for `d < 16`.
fn digit(d: u8) -> (c: char)
    requires
        d < 16,
    ensures
        c == digit_char(d as nat),
{
    if d < 10 {
        (d + 48) as char
    } else {
        (d + 87) as char
    }
}

/// The lower-case hexadecimal numeral of `n`, as `format!("{:x}", n)` writes it.
pub fn hex_string(n: u128) -> (r: String)
    ensures
        r@ == hex(n as nat),
    decreases n,
{
    if n < 16 {
        let mut s = String::new();
        push_char(&mut s, digit(n as u8));
        assert(s@ =~= hex(n as nat));
        s
    } else {
        let mut s = hex_string(n / 16);
        push_char(&mut s, digit((n % 16) as u8));
        s
    }
}

} // verus!

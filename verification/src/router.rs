//! Route lookup: a tree of path segments in which a segment `:name` matches
//! any one segment and binds it to `name`, and an exact segment is always
//! tried before a parameter.
use vstd::prelude::*;
use crate::strmap::StrMap;
use crate::text::{
    chars_of, find_char_from, lemma_scan_char, scan_char, seq_starts_with, str_equal,
    string_from_char_range, strings_view,
};
use crate::Method;

verus! {

broadcast use vstd::string::group_string_axioms;

/// The non-empty `/`-separated segments of `s` from `pos` on.
pub open spec fn segments_from(s: Seq<char>, pos: int) -> Seq<Seq<char>>
    decreases s.len() + 1 - pos,
{
    if pos < 0 || pos >= s.len() {
        Seq::empty()
    } else {
        let e = scan_char(s, '/', pos);
        proof {
            lemma_scan_char(s, '/', pos);
        }
        if e == pos {
            segments_from(s, e + 1)
        } else {
            seq![s.subrange(pos, e)] + segments_from(s, e + 1)
        }
    }
}

/// The segments of a path: its parts between slashes, empty parts left out.
pub open spec fn segments(s: Seq<char>) -> Seq<Seq<char>> {
    segments_from(s, 0)
}

/// Splits a path into its non-empty `/`-separated segments.
pub fn split_path(path: &str) -> (r: Vec<String>)
    ensures
        strings_view(r@) == segments(path@),
{
    let s = chars_of(path);
    let n = s.len();
    let mut out: Vec<String> = Vec::new();
    let mut pos: usize = 0;
    while pos < n
        invariant
            n == s@.len(),
            s@ == path@,
            pos <= n,
            strings_view(out@) + segments_from(s@, pos as int) == segments(path@),
        decreases n - pos,
    {
        let e = find_char_from(s.as_slice(), '/', pos);
        proof {
            lemma_scan_char(s@, '/', pos as int);
        }
        let ghost before = strings_view(out@);
        if e > pos {
            let seg = string_from_char_range(s.as_slice(), pos, e);
            out.push(seg);
            assert(strings_view(out@) =~= before.push(s@.subrange(pos as int, e as int)));
            assert(before + (seq![s@.subrange(pos as int, e as int)] + segments_from(s@, e + 1))
                =~= before.push(s@.subrange(pos as int, e as int)) + segments_from(s@, e + 1));
        } else {
            assert(strings_view(out@) == before);
        }
        if e < n {
            pos = e + 1;
        } else {
            assert(segments_from(s@, e + 1) =~= segments_from(s@, n as int));
            pos = n;
        }
    }
    assert(strings_view(out@) + segments_from(s@, n as int) =~= strings_view(out@));
    out
}

/// A segment that names a parameter: it starts with `:`.
pub open spec fn is_param(seg: Seq<char>) -> bool {
    seq_starts_with(seg, ":"@)
}

/// No segment of the pattern names a parameter.
pub open spec fn all_static(pat: Seq<Seq<char>>) -> bool {
    forall|i: int| 0 <= i < pat.len() ==> !is_param(#[trigger] pat[i])
}

/// `vals` fits the pattern: as many segments, equal wherever the pattern is not a parameter.
pub open spec fn fits(pat: Seq<Seq<char>>, vals: Seq<Seq<char>>) -> bool {
    &&& pat.len() == vals.len()
    &&& forall|i: int| 0 <= i < pat.len() && !is_param(#[trigger] pat[i]) ==> vals[i] == pat[i]
}

/// `params` with each parameter of the pattern bound, in order, to the segment of `vals` at its place.
pub open spec fn bind(pat: Seq<Seq<char>>, vals: Seq<Seq<char>>, params: Map<Seq<char>, Seq<char>>) -> Map<Seq<char>, Seq<char>>
    decreases pat.len(),
{
    if pat.len() == 0 {
        params
    } else {
        let p1 = if is_param(pat[0]) {
            params.insert(pat[0].drop_first(), vals[0])
        } else {
            params
        };
        bind(pat.drop_first(), vals.drop_first(), p1)
    }
}

/// `q` goes the same way through a route tree as `pat`: as long, with a
/// parameter where `pat` has one and the same fixed segment elsewhere.
pub open spec fn same_shape(q: Seq<Seq<char>>, pat: Seq<Seq<char>>) -> bool
    decreases pat.len(),
{
    if q.len() == 0 || pat.len() == 0 {
        q.len() == 0 && pat.len() == 0
    } else {
        &&& is_param(q[0]) == is_param(pat[0])
        &&& (!is_param(q[0]) ==> q[0] == pat[0])
        &&& same_shape(q.drop_first(), pat.drop_first())
    }
}

/// Registering `pat` puts an exact child in the way of the path `vals` that
/// follows `q`: after a common stretch, `q` has a parameter where `pat` has
/// a fixed segment equal to the segment of `vals`.
pub open spec fn competes(pat: Seq<Seq<char>>, q: Seq<Seq<char>>, vals: Seq<Seq<char>>) -> bool
    decreases pat.len(),
{
    if pat.len() == 0 || q.len() == 0 {
        false
    } else if is_param(q[0]) && !is_param(pat[0]) {
        vals[0] == pat[0]
    } else if is_param(q[0]) == is_param(pat[0]) && (!is_param(q[0]) ==> q[0] == pat[0]) {
        competes(pat.drop_first(), q.drop_first(), vals.drop_first())
    } else {
        false
    }
}

/// Registering `pat` may rename a parameter that `q` relies on: after a
/// common stretch, both have a parameter at the same place, named differently.
pub open spec fn name_clash(pat: Seq<Seq<char>>, q: Seq<Seq<char>>) -> bool
    decreases pat.len(),
{
    if pat.len() == 0 || q.len() == 0 {
        false
    } else if is_param(pat[0]) && is_param(q[0]) {
        pat[0].drop_first() != q[0].drop_first() || name_clash(pat.drop_first(), q.drop_first())
    } else if !is_param(pat[0]) && !is_param(q[0]) && pat[0] == q[0] {
        name_clash(pat.drop_first(), q.drop_first())
    } else {
        false
    }
}

/// The first index at or after `from` whose method is `m`, or the length.
pub open spec fn scan_method<H>(hs: Seq<(Method, H)>, m: Method, from: int) -> int
    recommends
        0 <= from,
    decreases hs.len() - from,
{
    if from >= hs.len() {
        hs.len() as int
    } else if hs[from].0 == m {
        from
    } else {
        scan_method(hs, m, from + 1)
    }
}

pub proof fn lemma_scan_method<H>(hs: Seq<(Method, H)>, m: Method, from: int)
    requires
        0 <= from <= hs.len(),
    ensures
        from <= scan_method(hs, m, from) <= hs.len(),
        scan_method(hs, m, from) < hs.len() ==> hs[scan_method(hs, m, from)].0 == m,
        forall|k: int| from <= k < scan_method(hs, m, from) ==> hs[k].0 != m,
    decreases hs.len() - from,
{
    if from < hs.len() && hs[from].0 != m {
        lemma_scan_method(hs, m, from + 1);
    }
}

/// The scan only looks at the methods.
proof fn lemma_scan_method_same<H>(a: Seq<(Method, H)>, b: Seq<(Method, H)>, m: Method, from: int)
    requires
        0 <= from <= a.len(),
        a.len() == b.len(),
        forall|k: int| 0 <= k < a.len() ==> a[k].0 == b[k].0,
    ensures
        scan_method(a, m, from) == scan_method(b, m, from),
    decreases a.len() - from,
{
    if from < a.len() {
        lemma_scan_method_same(a, b, m, from + 1);
    }
}

/// Pushing a handler leaves an earlier match where it was; otherwise the scan
/// finds the pushed handler when it has the method, and nothing when it has not.
proof fn lemma_scan_method_push<H>(hs: Seq<(Method, H)>, x: (Method, H), m: Method, from: int)
    requires
        0 <= from <= hs.len(),
    ensures
        scan_method(hs.push(x), m, from) == if scan_method(hs, m, from) < hs.len() {
            scan_method(hs, m, from)
        } else if x.0 == m {
            hs.len() as int
        } else {
            hs.len() as int + 1
        },
    decreases hs.len() - from,
{
    if from < hs.len() {
        assert(hs.push(x)[from] == hs[from]);
        lemma_scan_method_push(hs, x, m, from + 1);
    } else {
        assert(hs.push(x)[hs.len() as int] == x);
        assert(scan_method(hs, m, from) == hs.len());
        assert(scan_method(hs.push(x), m, from + 1) == hs.len() + 1);
    }
}

/// The first index at or after `from` whose key is `seg`, or the length.
pub open spec fn scan_key<T>(cs: Seq<(String, T)>, seg: Seq<char>, from: int) -> int
    recommends
        0 <= from,
    decreases cs.len() - from,
{
    if from >= cs.len() {
        cs.len() as int
    } else if cs[from].0@ == seg {
        from
    } else {
        scan_key(cs, seg, from + 1)
    }
}

pub proof fn lemma_scan_key<T>(cs: Seq<(String, T)>, seg: Seq<char>, from: int)
    requires
        0 <= from <= cs.len(),
    ensures
        from <= scan_key(cs, seg, from) <= cs.len(),
        scan_key(cs, seg, from) < cs.len() ==> cs[scan_key(cs, seg, from)].0@ == seg,
        forall|k: int| from <= k < scan_key(cs, seg, from) ==> cs[k].0@ != seg,
    decreases cs.len() - from,
{
    if from < cs.len() && cs[from].0@ != seg {
        lemma_scan_key(cs, seg, from + 1);
    }
}

/// The scan only looks at the keys.
proof fn lemma_scan_key_same_keys<T>(a: Seq<(String, T)>, b: Seq<(String, T)>, seg: Seq<char>, from: int)
    requires
        0 <= from <= a.len(),
        a.len() == b.len(),
        forall|k: int| 0 <= k < a.len() ==> a[k].0@ == b[k].0@,
    ensures
        scan_key(a, seg, from) == scan_key(b, seg, from),
    decreases a.len() - from,
{
    if from < a.len() {
        lemma_scan_key_same_keys(a, b, seg, from + 1);
    }
}

/// Pushing an entry leaves an earlier match where it was; otherwise the scan
/// finds the pushed entry when it has the key, and nothing when it has not.
proof fn lemma_scan_key_push<T>(cs: Seq<(String, T)>, x: (String, T), seg: Seq<char>, from: int)
    requires
        0 <= from <= cs.len(),
    ensures
        scan_key(cs.push(x), seg, from) == if scan_key(cs, seg, from) < cs.len() {
            scan_key(cs, seg, from)
        } else if x.0@ == seg {
            cs.len() as int
        } else {
            cs.len() as int + 1
        },
    decreases cs.len() - from,
{
    if from < cs.len() {
        assert(cs.push(x)[from] == cs[from]);
        lemma_scan_key_push(cs, x, seg, from + 1);
    } else {
        assert(cs.push(x)[cs.len() as int] == x);
        assert(scan_key(cs, seg, from) == cs.len());
        assert(scan_key(cs.push(x), seg, from + 1) == cs.len() + 1);
    }
}

/// The scan stops at the first match.
proof fn lemma_scan_method_at<H>(hs: Seq<(Method, H)>, m: Method, i: int)
    requires
        0 <= i < hs.len(),
        hs[i].0 == m,
        forall|k: int| 0 <= k < i ==> hs[k].0 != m,
    ensures
        scan_method(hs, m, 0) == i,
{
    lemma_scan_method(hs, m, 0);
}

/// Index of the first entry of `cs` whose key is `seg`, or the length.
fn find_key<T>(cs: &Vec<(String, T)>, seg: &str) -> (r: usize)
    ensures
        r == scan_key(cs@, seg@, 0),
        r <= cs@.len(),
{
    proof {
        lemma_scan_key(cs@, seg@, 0);
    }
    let n = cs.len();
    let mut i: usize = 0;
    while i < n
        invariant
            n == cs@.len(),
            i <= n,
            scan_key(cs@, seg@, 0) == scan_key(cs@, seg@, i as int),
        decreases n - i,
    {
        if str_equal(cs[i].0.as_str(), seg) {
            return i;
        }
        i = i + 1;
    }
    i
}

/// Index of the first handler for `m`, or the length.
fn find_method<H>(hs: &Vec<(Method, H)>, m: Method) -> (r: usize)
    ensures
        r == scan_method(hs@, m, 0),
        r <= hs@.len(),
{
    proof {
        lemma_scan_method(hs@, m, 0);
    }
    let n = hs.len();
    let mut i: usize = 0;
    while i < n
        invariant
            n == hs@.len(),
            i <= n,
            scan_method(hs@, m, 0) == scan_method(hs@, m, i as int),
        decreases n - i,
    {
        if hs[i].0 == m {
            return i;
        }
        i = i + 1;
    }
    i
}

/// A node of the route tree: handlers by method for the path that ends here,
/// children by exact segment, and at most one parameter child with its name.
pub struct RouterNode<H> {
    handlers: Vec<(Method, H)>,
    children: Vec<(String, RouterNode<H>)>,
    param_child: Option<Box<RouterNode<H>>>,
    param_name: Option<String>,
}

impl<H> RouterNode<H> {
    /// The node holds no route at all.
    pub closed spec fn is_blank(self) -> bool {
        &&& self.handlers@.len() == 0
        &&& self.children@.len() == 0
        &&& self.param_child is None
    }

    /// The handler for method `m` at the end of the pattern `pat`, followed
    /// from this node the way registering it goes: the exact child for a fixed
    /// segment, the parameter child for a `:name` segment.
    pub closed spec fn pattern_handler(self, m: Method, pat: Seq<Seq<char>>) -> Option<H>
        decreases self,
    {
        if pat.len() == 0 {
            let i = scan_method(self.handlers@, m, 0);
            if 0 <= i < self.handlers@.len() {
                Some(self.handlers@[i].1)
            } else {
                None
            }
        } else if is_param(pat[0]) {
            match self.param_child {
                Some(pc) => pc.pattern_handler(m, pat.drop_first()),
                None => None,
            }
        } else {
            let ci = scan_key(self.children@, pat[0], 0);
            if 0 <= ci < self.children@.len() {
                self.children@[ci].1.pattern_handler(m, pat.drop_first())
            } else {
                None
            }
        }
    }

    /// Along the pattern, each parameter segment meets a parameter child
    /// named as the segment names it.
    pub closed spec fn names_match(self, pat: Seq<Seq<char>>) -> bool
        decreases self,
    {
        if pat.len() == 0 {
            true
        } else if is_param(pat[0]) {
            match self.param_child {
                Some(pc) => match self.param_name {
                    Some(pn) => pn@ == pat[0].drop_first() && pc.names_match(pat.drop_first()),
                    None => false,
                },
                None => false,
            }
        } else {
            let ci = scan_key(self.children@, pat[0], 0);
            if 0 <= ci < self.children@.len() {
                self.children@[ci].1.names_match(pat.drop_first())
            } else {
                false
            }
        }
    }

    /// Along the pattern, as far as the tree goes, each parameter child that
    /// exists is named as the segment names it.
    pub closed spec fn names_compatible(self, pat: Seq<Seq<char>>) -> bool
        decreases self,
    {
        if pat.len() == 0 {
            true
        } else if is_param(pat[0]) {
            match self.param_child {
                Some(pc) => match self.param_name {
                    Some(pn) => pn@ == pat[0].drop_first() && pc.names_compatible(pat.drop_first()),
                    None => false,
                },
                None => true,
            }
        } else {
            let ci = scan_key(self.children@, pat[0], 0);
            if 0 <= ci < self.children@.len() {
                self.children@[ci].1.names_compatible(pat.drop_first())
            } else {
                true
            }
        }
    }

    /// Along the pattern, no exact child matches a segment of `vals` that
    /// stands at a parameter position.
    pub closed spec fn uncontested(self, pat: Seq<Seq<char>>, vals: Seq<Seq<char>>) -> bool
        decreases self,
    {
        if pat.len() == 0 {
            true
        } else if is_param(pat[0]) {
            let ce = scan_key(self.children@, vals[0], 0);
            &&& !(0 <= ce < self.children@.len())
            &&& match self.param_child {
                Some(pc) => pc.uncontested(pat.drop_first(), vals.drop_first()),
                None => false,
            }
        } else {
            let ci = scan_key(self.children@, pat[0], 0);
            if 0 <= ci < self.children@.len() {
                self.children@[ci].1.uncontested(pat.drop_first(), vals.drop_first())
            } else {
                false
            }
        }
    }

    /// Along the pattern, as far as the tree goes, no exact child matches a
    /// segment of `vals` that stands at a parameter position of the pattern.
    pub closed spec fn free_at_params(self, pat: Seq<Seq<char>>, vals: Seq<Seq<char>>) -> bool
        decreases self,
    {
        if pat.len() == 0 {
            true
        } else if is_param(pat[0]) {
            let ce = scan_key(self.children@, vals[0], 0);
            &&& !(0 <= ce < self.children@.len())
            &&& match self.param_child {
                Some(pc) => pc.free_at_params(pat.drop_first(), vals.drop_first()),
                None => true,
            }
        } else {
            let ci = scan_key(self.children@, pat[0], 0);
            if 0 <= ci < self.children@.len() {
                self.children@[ci].1.free_at_params(pat.drop_first(), vals.drop_first())
            } else {
                true
            }
        }
    }

    /// The handler for method `m` reached from this node through exact
    /// children only, one per segment of `parts`.
    pub closed spec fn exact_lookup(self, m: Method, parts: Seq<Seq<char>>) -> Option<H>
        decreases self,
    {
        if parts.len() == 0 {
            let i = scan_method(self.handlers@, m, 0);
            if 0 <= i < self.handlers@.len() {
                Some(self.handlers@[i].1)
            } else {
                None
            }
        } else {
            let ci = scan_key(self.children@, parts[0], 0);
            if 0 <= ci < self.children@.len() {
                self.children@[ci].1.exact_lookup(m, parts.drop_first())
            } else {
                None
            }
        }
    }

    /// What looking up method `m` along the segments `parts` gives, starting
    /// with the bindings `params`: the handler, if any, and the bindings after
    /// the search. An exact child is searched first; when it yields nothing,
    /// the parameter child is searched with the segment bound to its name,
    /// keeping whatever the exact search bound.
    pub closed spec fn lookup(self, m: Method, parts: Seq<Seq<char>>, params: Map<Seq<char>, Seq<char>>) -> (Option<H>, Map<Seq<char>, Seq<char>>)
        decreases self,
    {
        if parts.len() == 0 {
            let i = scan_method(self.handlers@, m, 0);
            if 0 <= i < self.handlers@.len() {
                (Some(self.handlers@[i].1), params)
            } else {
                (None, params)
            }
        } else {
            let seg = parts[0];
            let rest = parts.drop_first();
            let ci = scan_key(self.children@, seg, 0);
            let exact = if 0 <= ci < self.children@.len() {
                self.children@[ci].1.lookup(m, rest, params)
            } else {
                (None, params)
            };
            if exact.0 is Some {
                exact
            } else {
                match self.param_child {
                    Some(pc) => match self.param_name {
                        Some(pn) => pc.lookup(m, rest, exact.1.insert(pn@, seg)),
                        None => (None, exact.1),
                    },
                    None => (None, exact.1),
                }
            }
        }
    }

    /// A node without routes.
    pub fn new() -> (r: RouterNode<H>)
        ensures
            r.is_blank(),
    {
        RouterNode { handlers: Vec::new(), children: Vec::new(), param_child: None, param_name: None }
    }

    /// Looks up method `m` along `parts[idx..]`, adding the bindings made on
    /// the way to `params`.
    pub fn find_parts(&self, m: Method, parts: &Vec<String>, idx: usize, params: &mut StrMap<String>) -> (r: Option<&H>)
        requires
            idx <= parts@.len(),
        ensures
            ({
                let res = self.lookup(m, strings_view(parts@).skip(idx as int), old(params)@);
                &&& final(params)@ == res.1
                &&& match r {
                    Some(h) => res.0 == Some(*h),
                    None => res.0 is None,
                }
            }),
        decreases parts@.len() - idx,
    {
        let ghost pat = strings_view(parts@).skip(idx as int);
        if idx >= parts.len() {
            let i = find_method(&self.handlers, m);
            if i < self.handlers.len() {
                return Some(&self.handlers[i].1);
            } else {
                return None;
            }
        }
        let seg = parts[idx].as_str();
        assert(pat[0] == seg@);
        assert(pat.drop_first() =~= strings_view(parts@).skip(idx + 1));
        let ci = find_key(&self.children, seg);
        if ci < self.children.len() {
            let found = self.children[ci].1.find_parts(m, parts, idx + 1, params);
            match found {
                Some(h) => {
                    return Some(h);
                },
                None => {},
            }
        }
        match &self.param_child {
            Some(pc) => match &self.param_name {
                Some(pn) => {
                    params.insert(pn.clone(), parts[idx].clone());
                    pc.find_parts(m, parts, idx + 1, params)
                },
                None => None,
            },
            None => None,
        }
    }

    /// Adds `handler` for method `m` at the pattern `parts[idx..]`, replacing
    /// the handler of an equal route. A parameter segment reuses this node's
    /// parameter child, which keeps the name it was first given.
    #[verifier::rlimit(60)]
    pub fn insert_parts(&mut self, m: Method, parts: &Vec<String>, idx: usize, handler: H)
        requires
            idx <= parts@.len(),
        ensures
            all_static(strings_view(parts@).skip(idx as int)) ==> forall|p: Map<Seq<char>, Seq<char>>|
                #[trigger] final(self).lookup(m, strings_view(parts@).skip(idx as int), p) == (Some(handler), p),
            old(self).is_blank() ==> forall|vals: Seq<Seq<char>>, p: Map<Seq<char>, Seq<char>>|
                fits(strings_view(parts@).skip(idx as int), vals) ==> #[trigger] final(self).lookup(m, vals, p)
                    == (Some(handler), bind(strings_view(parts@).skip(idx as int), vals, p)),
            forall|m2: Method, q: Seq<Seq<char>>| #[trigger] final(self).exact_lookup(m2, q) == if m2 == m
                && q == strings_view(parts@).skip(idx as int) && all_static(strings_view(parts@).skip(idx as int)) {
                Some(handler)
            } else {
                old(self).exact_lookup(m2, q)
            },
            final(self).pattern_handler(m, strings_view(parts@).skip(idx as int)) == Some(handler),
            old(self).names_compatible(strings_view(parts@).skip(idx as int))
                ==> final(self).names_match(strings_view(parts@).skip(idx as int)),
            forall|m2: Method, q: Seq<Seq<char>>| #[trigger] final(self).pattern_handler(m2, q) == if m2 == m
                && same_shape(q, strings_view(parts@).skip(idx as int)) {
                Some(handler)
            } else {
                old(self).pattern_handler(m2, q)
            },
            forall|q: Seq<Seq<char>>| old(self).names_match(q) ==> #[trigger] final(self).names_match(q),
            forall|q: Seq<Seq<char>>, v: Seq<Seq<char>>| old(self).uncontested(q, v)
                && !competes(strings_view(parts@).skip(idx as int), q, v) ==> #[trigger] final(self).uncontested(q, v),
            forall|q: Seq<Seq<char>>| old(self).names_compatible(q) && !name_clash(strings_view(parts@).skip(idx as int), q)
                ==> #[trigger] final(self).names_compatible(q),
            forall|q: Seq<Seq<char>>, v: Seq<Seq<char>>| old(self).free_at_params(q, v)
                && !competes(strings_view(parts@).skip(idx as int), q, v) ==> #[trigger] final(self).free_at_params(q, v),
            old(self).names_compatible(strings_view(parts@).skip(idx as int)) ==> forall|vals: Seq<Seq<char>>|
                fits(strings_view(parts@).skip(idx as int), vals) && old(self).free_at_params(strings_view(parts@).skip(idx as int), vals)
                ==> #[trigger] final(self).uncontested(strings_view(parts@).skip(idx as int), vals),
        decreases parts@.len() - idx,
    {
        let ghost pat = strings_view(parts@).skip(idx as int);
        if idx >= parts.len() {
            let i = find_method(&self.handlers, m);
            proof {
                lemma_scan_method(self.handlers@, m, 0);
            }
            if i < self.handlers.len() {
                self.handlers.set(i, (m, handler));
                proof {
                    lemma_scan_method(self.handlers@, m, 0);
                    assert forall|k: int| 0 <= k < i implies self.handlers@[k].0 != m by {
                        assert(old(self).handlers@[k].0 != m);
                    }
                    lemma_scan_method_at(self.handlers@, m, i as int);
                }
            } else {
                self.handlers.push((m, handler));
                proof {
                    assert forall|k: int| 0 <= k < i implies self.handlers@[k].0 != m by {
                        assert(old(self).handlers@[k].0 != m);
                    }
                    lemma_scan_method_at(self.handlers@, m, i as int);
                }
            }
            assert forall|vals: Seq<Seq<char>>, p: Map<Seq<char>, Seq<char>>|
                fits(pat, vals) implies #[trigger] self.lookup(m, vals, p) == (Some(handler), bind(pat, vals, p)) by {
                assert(vals.len() == 0);
            }
            proof {
                let hs0 = old(self).handlers@;
                let hs1 = self.handlers@;
                assert forall|m2: Method, q: Seq<Seq<char>>| #[trigger] self.exact_lookup(m2, q) == if m2 == m
                    && q == pat && all_static(pat) {
                    Some(handler)
                } else {
                    old(self).exact_lookup(m2, q)
                } by {
                    if q.len() == 0 {
                        assert(q =~= pat);
                        if m2 != m {
                            if i < hs0.len() {
                                assert forall|k: int| 0 <= k < hs0.len() implies hs0[k].0 == hs1[k].0 by {}
                                lemma_scan_method_same(hs0, hs1, m2, 0);
                                lemma_scan_method(hs0, m2, 0);
                            } else {
                                lemma_scan_method_push(hs0, (m, handler), m2, 0);
                                lemma_scan_method(hs0, m2, 0);
                            }
                        }
                    } else {
                        assert(q != pat);
                    }
                }
                assert forall|m2: Method, q: Seq<Seq<char>>| #[trigger] self.pattern_handler(m2, q) == if m2 == m
                    && same_shape(q, pat) {
                    Some(handler)
                } else {
                    old(self).pattern_handler(m2, q)
                } by {
                    if q.len() == 0 {
                        assert(same_shape(q, pat));
                        if m2 != m {
                            if i < hs0.len() {
                                assert forall|k: int| 0 <= k < hs0.len() implies hs0[k].0 == hs1[k].0 by {}
                                lemma_scan_method_same(hs0, hs1, m2, 0);
                                lemma_scan_method(hs0, m2, 0);
                            } else {
                                lemma_scan_method_push(hs0, (m, handler), m2, 0);
                                lemma_scan_method(hs0, m2, 0);
                            }
                        }
                    } else {
                        assert(!same_shape(q, pat));
                    }
                }
            }
            return;
        }
        let seg = parts[idx].as_str();
        assert(pat[0] == seg@);
        assert(pat.drop_first() =~= strings_view(parts@).skip(idx + 1));
        let ghost rest = pat.drop_first();
        if crate::text::str_starts_with(seg, ":") {
            if self.param_child.is_none() {
                let cs = chars_of(seg);
                assert(cs@.len() >= 1) by {
                    reveal_strlit(":");
                }
                let name = string_from_char_range(cs.as_slice(), 1, cs.len());
                assert(name@ =~= seg@.drop_first());
                self.param_child = Some(Box::new(RouterNode::new()));
                self.param_name = Some(name);
            }
            let ghost was_blank = old(self).is_blank();
            let ghost created = old(self).param_child is None;
            let ghost pc_before = *self.param_child->Some_0;
            assert(created ==> pc_before.is_blank());
            assert(!created ==> old(self).param_child == self.param_child);
            let taken = self.param_child.take();
            match taken {
                Some(mut pc) => {
                    let ghost pc_blank = pc.is_blank();
                    assert(was_blank ==> pc_blank);
                    (&mut *pc).insert_parts(m, parts, idx + 1, handler);
                    self.param_child = Some(pc);
                },
                None => {},
            }
            assert(!all_static(pat)) by {
                reveal_strlit(":");
                assert(is_param(pat[0]));
            }
            assert(self.handlers@ == old(self).handlers@);
            assert(self.children@ == old(self).children@);
            proof {
                reveal_strlit(":");
                assert(is_param(pat[0]));
                let pc_after = *self.param_child->Some_0;
                assert(!created ==> old(self).param_name == self.param_name);
                assert forall|m2: Method, q: Seq<Seq<char>>| #[trigger] self.pattern_handler(m2, q) == if m2 == m
                    && same_shape(q, pat) {
                    Some(handler)
                } else {
                    old(self).pattern_handler(m2, q)
                } by {
                    if q.len() > 0 && is_param(q[0]) {
                        assert(self.pattern_handler(m2, q) == pc_after.pattern_handler(m2, q.drop_first()));
                        assert(same_shape(q, pat) == same_shape(q.drop_first(), rest));
                        if created {
                            lemma_blank_has_no_exact(pc_before, m2, q.drop_first());
                        } else {
                            assert(old(self).pattern_handler(m2, q) == pc_before.pattern_handler(m2, q.drop_first()));
                        }
                    } else if q.len() > 0 {
                        assert(!same_shape(q, pat));
                    } else {
                        assert(!same_shape(q, pat));
                    }
                }
                assert forall|q: Seq<Seq<char>>| old(self).names_match(q) implies #[trigger] self.names_match(q) by {
                    if q.len() > 0 && is_param(q[0]) {
                        assert(!created);
                        assert(old(self).param_name == self.param_name);
                        assert(*old(self).param_child->Some_0 == pc_before);
                        assert(pc_before.names_match(q.drop_first()));
                        assert(pc_after.names_match(q.drop_first()));
                        assert(self.param_child is Some);
                        assert(self.param_name is Some);
                    } else if q.len() > 0 {
                        assert(self.children@ == old(self).children@);
                    }
                }
                assert forall|q: Seq<Seq<char>>, v: Seq<Seq<char>>| old(self).uncontested(q, v)
                    && !competes(pat, q, v) implies #[trigger] self.uncontested(q, v) by {
                    if q.len() > 0 && is_param(q[0]) {
                        assert(!created);
                        assert(*old(self).param_child->Some_0 == pc_before);
                        assert(competes(pat, q, v) == competes(rest, q.drop_first(), v.drop_first()));
                        assert(pc_before.uncontested(q.drop_first(), v.drop_first()));
                        assert(pc_after.uncontested(q.drop_first(), v.drop_first()));
                        assert(self.param_child is Some);
                        assert(self.children@ == old(self).children@);
                    } else if q.len() > 0 {
                        assert(self.children@ == old(self).children@);
                    }
                }
            }
            assert forall|m2: Method, q: Seq<Seq<char>>| #[trigger] self.exact_lookup(m2, q) == old(self).exact_lookup(m2, q) by {}
            proof {
                if was_blank {
                    assert forall|vals: Seq<Seq<char>>, p: Map<Seq<char>, Seq<char>>|
                        fits(pat, vals) implies #[trigger] self.lookup(m, vals, p) == (Some(handler), bind(pat, vals, p)) by {
                        reveal_strlit(":");
                        assert(is_param(pat[0]));
                        assert(fits(rest, vals.drop_first())) by {
                            assert forall|i: int| 0 <= i < rest.len() && !is_param(#[trigger] rest[i])
                                implies vals.drop_first()[i] == rest[i] by {
                                assert(pat[i + 1] == rest[i]);
                            }
                        }
                        assert(scan_key(self.children@, vals[0], 0) == 0);
                        let pn = self.param_name->Some_0;
                        assert(pn@ == pat[0].drop_first());
                        let q = p.insert(pn@, vals[0]);
                        assert(bind(pat, vals, p) == bind(rest, vals.drop_first(), q));
                        assert(self.param_child->Some_0.lookup(m, vals.drop_first(), q)
                            == (Some(handler), bind(rest, vals.drop_first(), q)));
                    }
                }
            }
            proof {
                reveal_strlit(":");
                assert(is_param(pat[0]));
                assert(!created ==> old(self).param_name == self.param_name);
                assert(created ==> self.param_name is Some && self.param_name->Some_0@ == pat[0].drop_first());
                lemma_open_after_param_step(*old(self), *self, pat, pc_before, *self.param_child->Some_0);
            }
        } else {
            let ci = find_key(&self.children, seg);
            proof {
                lemma_scan_key(self.children@, seg@, 0);
            }
            let ghost was_blank = old(self).is_blank();
            if ci < self.children.len() {
                let ghost cs0 = self.children@;
                let (k, mut child) = self.children.remove(ci);
                let ghost child0 = child;
                assert(child0 == cs0[ci as int].1);
                child.insert_parts(m, parts, idx + 1, handler);
                self.children.insert(ci, (k, child));
                proof {
                    assert(self.children@.len() == cs0.len());
                    assert forall|j: int| 0 <= j < cs0.len() implies cs0[j].0@ == self.children@[j].0@ by {
                        if j < ci {
                        } else if j > ci {
                        }
                    }
                    lemma_scan_key_same_keys(cs0, self.children@, seg@, 0);
                    assert(self.children@[ci as int].1 == child);
                    let cnew = self.children@;
                    assert forall|j: int| 0 <= j < cs0.len() && j != ci implies cnew[j] == cs0[j] by {
                        if j < ci {
                        } else {
                        }
                    }
                    assert forall|m2: Method, q: Seq<Seq<char>>| #[trigger] self.exact_lookup(m2, q) == if m2 == m
                        && q == pat && all_static(pat) {
                        Some(handler)
                    } else {
                        old(self).exact_lookup(m2, q)
                    } by {
                        if q.len() > 0 {
                            lemma_scan_key_same_keys(cs0, self.children@, q[0], 0);
                            lemma_scan_key(cs0, q[0], 0);
                            let j = scan_key(cs0, q[0], 0);
                            if q[0] == seg@ {
                                assert(j == ci);
                                assert(self.exact_lookup(m2, q) == child.exact_lookup(m2, q.drop_first()));
                                assert(old(self).exact_lookup(m2, q) == child0.exact_lookup(m2, q.drop_first()));
                                assert(q == pat <==> q.drop_first() == rest) by {
                                    if q.drop_first() == rest {
                                        assert forall|i: int| 0 <= i < q.len() implies q[i] == pat[i] by {
                                            if i > 0 {
                                                assert(q[i] == q.drop_first()[i - 1]);
                                                assert(pat[i] == rest[i - 1]);
                                            }
                                        }
                                        assert(q =~= pat);
                                    }
                                }
                                assert(all_static(pat) <==> all_static(rest)) by {
                                    if all_static(rest) {
                                        assert forall|i: int| 0 <= i < pat.len() implies !is_param(#[trigger] pat[i]) by {
                                            if i > 0 {
                                                assert(pat[i] == rest[i - 1]);
                                            }
                                        }
                                    }
                                    if all_static(pat) {
                                        assert forall|i: int| 0 <= i < rest.len() implies !is_param(#[trigger] rest[i]) by {
                                            assert(pat[i + 1] == rest[i]);
                                        }
                                    }
                                }
                            } else {
                                assert(q != pat);
                                if j < cs0.len() {
                                    assert(j != ci);
                                    assert(self.children@[j] == cs0[j]);
                                }
                            }
                        } else {
                            assert(q != pat);
                        }
                    }
                    assert(!is_param(pat[0]));
                    assert forall|m2: Method, q: Seq<Seq<char>>| #[trigger] self.pattern_handler(m2, q) == if m2 == m
                        && same_shape(q, pat) {
                        Some(handler)
                    } else {
                        old(self).pattern_handler(m2, q)
                    } by {
                        if q.len() > 0 && !is_param(q[0]) {
                            lemma_scan_key_same_keys(cs0, self.children@, q[0], 0);
                            lemma_scan_key(cs0, q[0], 0);
                            let j = scan_key(cs0, q[0], 0);
                            if q[0] == seg@ {
                                assert(j == ci);
                                assert(same_shape(q, pat) == same_shape(q.drop_first(), rest));
                                assert(self.pattern_handler(m2, q) == child.pattern_handler(m2, q.drop_first()));
                                assert(old(self).pattern_handler(m2, q) == child0.pattern_handler(m2, q.drop_first()));
                            } else {
                                assert(!same_shape(q, pat));
                                if j < cs0.len() {
                                    assert(self.children@[j] == cs0[j]);
                                }
                            }
                        } else {
                            assert(!same_shape(q, pat));
                        }
                    }
                    assert forall|q: Seq<Seq<char>>| old(self).names_match(q) implies #[trigger] self.names_match(q) by {
                        if q.len() > 0 && !is_param(q[0]) {
                            lemma_scan_key_same_keys(cs0, self.children@, q[0], 0);
                            lemma_scan_key(cs0, q[0], 0);
                            let j = scan_key(cs0, q[0], 0);
                            assert(scan_key(self.children@, q[0], 0) == j);
                            assert(0 <= j < cs0.len());
                            if q[0] == seg@ {
                                assert(j == ci);
                                assert(old(self).children@[j].1 == child0);
                                assert(child0.names_match(q.drop_first()));
                                assert(child.names_match(q.drop_first()));
                                assert(self.children@[j].1 == child);
                            } else {
                                assert(self.children@[j] == cs0[j]);
                                assert(old(self).children@[j].1.names_match(q.drop_first()));
                            }
                        } else if q.len() > 0 {
                            assert(self.param_child == old(self).param_child);
                            assert(self.param_name == old(self).param_name);
                        }
                    }
                    assert forall|q: Seq<Seq<char>>, v: Seq<Seq<char>>| old(self).uncontested(q, v)
                        && !competes(pat, q, v) implies #[trigger] self.uncontested(q, v) by {
                        if q.len() > 0 {
                            if is_param(q[0]) {
                                lemma_scan_key_same_keys(cs0, self.children@, v[0], 0);
                                assert(self.param_child == old(self).param_child);
                            } else {
                                lemma_scan_key_same_keys(cs0, self.children@, q[0], 0);
                                lemma_scan_key(cs0, q[0], 0);
                                let j = scan_key(cs0, q[0], 0);
                                assert(scan_key(self.children@, q[0], 0) == j);
                                assert(0 <= j < cs0.len());
                                if q[0] == seg@ {
                                    assert(j == ci);
                                    assert(old(self).children@[j].1 == child0);
                                    assert(competes(pat, q, v) == competes(rest, q.drop_first(), v.drop_first()));
                                    assert(child0.uncontested(q.drop_first(), v.drop_first()));
                                    assert(child.uncontested(q.drop_first(), v.drop_first()));
                                    assert(self.children@[j].1 == child);
                                } else {
                                    assert(self.children@[j] == cs0[j]);
                                    assert(old(self).children@[j].1.uncontested(q.drop_first(), v.drop_first()));
                                }
                            }
                        }
                    }
                }
                proof {
                    assert(old(self).children@ == cs0);
                    assert(self.param_child == old(self).param_child);
                    assert(self.param_name == old(self).param_name);
                    assert forall|j: int| 0 <= j < cs0.len() implies #[trigger] self.children@[j].0@ == cs0[j].0@ by {
                        if j == ci {
                        } else {
                            assert(self.children@[j] == cs0[j]);
                        }
                    }
                    lemma_open_after_exact_step(*old(self), *self, pat, ci as int, child0, child);
                }
            } else {
                let mut child = RouterNode::new();
                let ghost child_before = child;
                child.insert_parts(m, parts, idx + 1, handler);
                let ghost cs0 = self.children@;
                let key = seg.to_owned();
                let entry = (key, child);
                let ghost e = entry;
                self.children.push(entry);
                proof {
                    lemma_scan_key_push(cs0, e, seg@, 0);
                    lemma_scan_key(cs0, seg@, 0);
                    assert(scan_key(self.children@, seg@, 0) == cs0.len());
                    assert forall|m2: Method, q: Seq<Seq<char>>| #[trigger] self.exact_lookup(m2, q) == if m2 == m
                        && q == pat && all_static(pat) {
                        Some(handler)
                    } else {
                        old(self).exact_lookup(m2, q)
                    } by {
                        if q.len() > 0 {
                            lemma_scan_key_push(cs0, e, q[0], 0);
                            lemma_scan_key(cs0, q[0], 0);
                            let j = scan_key(cs0, q[0], 0);
                            if q[0] == seg@ {
                                assert(j == cs0.len());
                                assert(old(self).exact_lookup(m2, q) is None);
                                assert(self.children@[cs0.len() as int].1 == child);
                                assert(self.exact_lookup(m2, q) == child.exact_lookup(m2, q.drop_first()));
                                assert(q == pat <==> q.drop_first() == rest) by {
                                    if q.drop_first() == rest {
                                        assert forall|i: int| 0 <= i < q.len() implies q[i] == pat[i] by {
                                            if i > 0 {
                                                assert(q[i] == q.drop_first()[i - 1]);
                                                assert(pat[i] == rest[i - 1]);
                                            }
                                        }
                                        assert(q =~= pat);
                                    }
                                }
                                assert(all_static(pat) <==> all_static(rest)) by {
                                    if all_static(rest) {
                                        assert forall|i: int| 0 <= i < pat.len() implies !is_param(#[trigger] pat[i]) by {
                                            if i > 0 {
                                                assert(pat[i] == rest[i - 1]);
                                            }
                                        }
                                    }
                                    if all_static(pat) {
                                        assert forall|i: int| 0 <= i < rest.len() implies !is_param(#[trigger] rest[i]) by {
                                            assert(pat[i + 1] == rest[i]);
                                        }
                                    }
                                }
                                assert(self.children@[j].1 == child);
                                lemma_blank_has_no_exact(child_before, m2, q.drop_first());
                            } else {
                                assert(q != pat);
                                if j < cs0.len() {
                                    assert(self.children@[j] == cs0[j]);
                                }
                            }
                        } else {
                            assert(q != pat);
                        }
                    }
                    assert(!is_param(pat[0]));
                    assert forall|m2: Method, q: Seq<Seq<char>>| #[trigger] self.pattern_handler(m2, q) == if m2 == m
                        && same_shape(q, pat) {
                        Some(handler)
                    } else {
                        old(self).pattern_handler(m2, q)
                    } by {
                        if q.len() > 0 && !is_param(q[0]) {
                            lemma_scan_key_push(cs0, e, q[0], 0);
                            lemma_scan_key(cs0, q[0], 0);
                            let j = scan_key(cs0, q[0], 0);
                            if q[0] == seg@ {
                                assert(j == cs0.len());
                                assert(same_shape(q, pat) == same_shape(q.drop_first(), rest));
                                assert(old(self).pattern_handler(m2, q) is None);
                                assert(self.children@[cs0.len() as int].1 == child);
                                assert(self.pattern_handler(m2, q) == child.pattern_handler(m2, q.drop_first()));
                                lemma_blank_has_no_exact(child_before, m2, q.drop_first());
                            } else {
                                assert(!same_shape(q, pat));
                                if j < cs0.len() {
                                    assert(self.children@[j] == cs0[j]);
                                }
                            }
                        } else {
                            assert(!same_shape(q, pat));
                        }
                    }
                    assert forall|q: Seq<Seq<char>>| old(self).names_match(q) implies #[trigger] self.names_match(q) by {
                        if q.len() > 0 && !is_param(q[0]) {
                            lemma_scan_key_push(cs0, e, q[0], 0);
                            lemma_scan_key(cs0, q[0], 0);
                            let j = scan_key(cs0, q[0], 0);
                            if j < cs0.len() {
                                assert(self.children@[j] == cs0[j]);
                            }
                        }
                    }
                    assert forall|q: Seq<Seq<char>>, v: Seq<Seq<char>>| old(self).uncontested(q, v)
                        && !competes(pat, q, v) implies #[trigger] self.uncontested(q, v) by {
                        if q.len() > 0 {
                            if is_param(q[0]) {
                                lemma_scan_key_push(cs0, e, v[0], 0);
                                lemma_scan_key(cs0, v[0], 0);
                                if v[0] == seg@ {
                                    assert(competes(pat, q, v));
                                }
                            } else {
                                lemma_scan_key_push(cs0, e, q[0], 0);
                                lemma_scan_key(cs0, q[0], 0);
                                let j = scan_key(cs0, q[0], 0);
                                if j < cs0.len() {
                                    assert(self.children@[j] == cs0[j]);
                                }
                            }
                        }
                    }
                }
                proof {
                    assert(self.param_child == old(self).param_child);
                    assert(self.param_name == old(self).param_name);
                    lemma_open_after_new_child(*old(self), *self, pat, e, child_before);
                }
            }
            let ghost ci2 = scan_key(self.children@, seg@, 0);
            assert(0 <= ci2 < self.children@.len());
            assert(self.children@[ci2].0@ == seg@);
            assert forall|p: Map<Seq<char>, Seq<char>>| all_static(pat) implies
                #[trigger] self.lookup(m, pat, p) == (Some(handler), p) by {
                assert(all_static(rest)) by {
                    assert forall|i: int| 0 <= i < rest.len() implies !is_param(#[trigger] rest[i]) by {
                        assert(pat[i + 1] == rest[i]);
                    }
                }
                assert(self.children@[ci2].1.lookup(m, rest, p) == (Some(handler), p));
            }
            proof {
                if was_blank {
                    assert forall|vals: Seq<Seq<char>>, p: Map<Seq<char>, Seq<char>>|
                        fits(pat, vals) implies #[trigger] self.lookup(m, vals, p) == (Some(handler), bind(pat, vals, p)) by {
                        assert(!is_param(pat[0]));
                        assert(vals[0] == seg@);
                        assert(fits(rest, vals.drop_first())) by {
                            assert forall|i: int| 0 <= i < rest.len() && !is_param(#[trigger] rest[i])
                                implies vals.drop_first()[i] == rest[i] by {
                                assert(pat[i + 1] == rest[i]);
                            }
                        }
                        assert(ci2 == 0);
                        assert(self.children@[ci2].1.lookup(m, vals.drop_first(), p)
                            == (Some(handler), bind(rest, vals.drop_first(), p)));
                        assert(bind(pat, vals, p) == bind(rest, vals.drop_first(), p));
                    }
                }
            }
        }
    }
}

/// A node without routes reaches no handler through exact children.
proof fn lemma_blank_has_no_exact<H>(node: RouterNode<H>, m: Method, parts: Seq<Seq<char>>)
    requires
        node.is_blank(),
    ensures
        node.exact_lookup(m, parts) is None,
        node.pattern_handler(m, parts) is None,
{
}

/// Registering `pat` below `old_n`, giving `new_n`, keeps each path open
/// that it does not block or rename, and opens `pat` itself where no exact
/// child was in its way.
spec fn keeps_open<H>(old_n: RouterNode<H>, new_n: RouterNode<H>, pat: Seq<Seq<char>>) -> bool {
    &&& forall|q: Seq<Seq<char>>| old_n.names_compatible(q) && !name_clash(pat, q) ==> #[trigger] new_n.names_compatible(q)
    &&& forall|q: Seq<Seq<char>>, v: Seq<Seq<char>>| old_n.free_at_params(q, v) && !competes(pat, q, v)
        ==> #[trigger] new_n.free_at_params(q, v)
    &&& old_n.names_compatible(pat) ==> forall|vals: Seq<Seq<char>>| fits(pat, vals) && old_n.free_at_params(pat, vals)
        ==> #[trigger] new_n.uncontested(pat, vals)
}

/// `fits` passes to the rest of the pattern.
proof fn lemma_fits_rest(pat: Seq<Seq<char>>, vals: Seq<Seq<char>>)
    requires
        pat.len() > 0,
        fits(pat, vals),
    ensures
        fits(pat.drop_first(), vals.drop_first()),
{
    let rest = pat.drop_first();
    assert forall|i: int| 0 <= i < rest.len() && !is_param(#[trigger] rest[i]) implies vals.drop_first()[i] == rest[i] by {
        assert(pat[i + 1] == rest[i]);
    }
}

/// The step of a registration at a parameter segment.
proof fn lemma_open_after_param_step<H>(
    old_n: RouterNode<H>,
    new_n: RouterNode<H>,
    pat: Seq<Seq<char>>,
    pc_before: RouterNode<H>,
    pc_after: RouterNode<H>,
)
    requires
        pat.len() > 0,
        is_param(pat[0]),
        new_n.children@ == old_n.children@,
        new_n.param_child is Some,
        *new_n.param_child->Some_0 == pc_after,
        old_n.param_child is None ==> pc_before.is_blank() && new_n.param_name is Some
            && new_n.param_name->Some_0@ == pat[0].drop_first(),
        old_n.param_child is Some ==> *old_n.param_child->Some_0 == pc_before && new_n.param_name == old_n.param_name,
        keeps_open(pc_before, pc_after, pat.drop_first()),
    ensures
        keeps_open(old_n, new_n, pat),
{
    let rest = pat.drop_first();
    if old_n.param_child is None {
        lemma_blank_is_open(pc_before);
    }
    assert forall|q: Seq<Seq<char>>| old_n.names_compatible(q) && !name_clash(pat, q)
        implies #[trigger] new_n.names_compatible(q) by {
        if q.len() > 0 && is_param(q[0]) {
            assert(pc_before.names_compatible(q.drop_first()));
            assert(pc_after.names_compatible(q.drop_first()));
        }
    }
    assert forall|q: Seq<Seq<char>>, v: Seq<Seq<char>>| old_n.free_at_params(q, v) && !competes(pat, q, v)
        implies #[trigger] new_n.free_at_params(q, v) by {
        if q.len() > 0 && is_param(q[0]) {
            assert(competes(pat, q, v) == competes(rest, q.drop_first(), v.drop_first()));
            assert(pc_before.free_at_params(q.drop_first(), v.drop_first()));
            assert(pc_after.free_at_params(q.drop_first(), v.drop_first()));
        }
    }
    if old_n.names_compatible(pat) {
        assert(pc_before.names_compatible(rest));
        assert forall|vals: Seq<Seq<char>>| fits(pat, vals) && old_n.free_at_params(pat, vals)
            implies #[trigger] new_n.uncontested(pat, vals) by {
            lemma_fits_rest(pat, vals);
            assert(pc_before.free_at_params(rest, vals.drop_first()));
            assert(pc_after.uncontested(rest, vals.drop_first()));
        }
    }
}

/// The step of a registration through an existing exact child.
proof fn lemma_open_after_exact_step<H>(
    old_n: RouterNode<H>,
    new_n: RouterNode<H>,
    pat: Seq<Seq<char>>,
    ci: int,
    child0: RouterNode<H>,
    child: RouterNode<H>,
)
    requires
        pat.len() > 0,
        !is_param(pat[0]),
        0 <= ci < old_n.children@.len(),
        ci == scan_key(old_n.children@, pat[0], 0),
        old_n.children@[ci].1 == child0,
        new_n.children@.len() == old_n.children@.len(),
        forall|j: int| 0 <= j < old_n.children@.len() ==> #[trigger] new_n.children@[j].0@ == old_n.children@[j].0@,
        forall|j: int| 0 <= j < old_n.children@.len() && j != ci ==> new_n.children@[j] == old_n.children@[j],
        new_n.children@[ci].1 == child,
        new_n.param_child == old_n.param_child,
        new_n.param_name == old_n.param_name,
        keeps_open(child0, child, pat.drop_first()),
    ensures
        keeps_open(old_n, new_n, pat),
{
    let rest = pat.drop_first();
    let cs0 = old_n.children@;
    let cnew = new_n.children@;
    lemma_scan_key(cs0, pat[0], 0);
    assert forall|q: Seq<Seq<char>>| old_n.names_compatible(q) && !name_clash(pat, q)
        implies #[trigger] new_n.names_compatible(q) by {
        if q.len() > 0 && !is_param(q[0]) {
            lemma_scan_key_same_keys(cs0, cnew, q[0], 0);
            lemma_scan_key(cs0, q[0], 0);
            let j = scan_key(cs0, q[0], 0);
            if q[0] == pat[0] {
                assert(j == ci);
                assert(name_clash(pat, q) == name_clash(rest, q.drop_first()));
                assert(child0.names_compatible(q.drop_first()));
                assert(child.names_compatible(q.drop_first()));
                assert(scan_key(cnew, q[0], 0) == ci);
            } else if j < cs0.len() {
                assert(cnew[j] == cs0[j]);
            }
        }
    }
    assert forall|q: Seq<Seq<char>>, v: Seq<Seq<char>>| old_n.free_at_params(q, v) && !competes(pat, q, v)
        implies #[trigger] new_n.free_at_params(q, v) by {
        if q.len() > 0 {
            if is_param(q[0]) {
                lemma_scan_key_same_keys(cs0, cnew, v[0], 0);
            } else {
                lemma_scan_key_same_keys(cs0, cnew, q[0], 0);
                lemma_scan_key(cs0, q[0], 0);
                let j = scan_key(cs0, q[0], 0);
                if q[0] == pat[0] {
                    assert(j == ci);
                    assert(competes(pat, q, v) == competes(rest, q.drop_first(), v.drop_first()));
                    assert(child0.free_at_params(q.drop_first(), v.drop_first()));
                    assert(child.free_at_params(q.drop_first(), v.drop_first()));
                    assert(scan_key(cnew, q[0], 0) == ci);
                } else if j < cs0.len() {
                    assert(cnew[j] == cs0[j]);
                }
            }
        }
    }
    if old_n.names_compatible(pat) {
        assert(child0.names_compatible(rest));
        assert forall|vals: Seq<Seq<char>>| fits(pat, vals) && old_n.free_at_params(pat, vals)
            implies #[trigger] new_n.uncontested(pat, vals) by {
            lemma_fits_rest(pat, vals);
            assert(child0.free_at_params(rest, vals.drop_first()));
            assert(child.uncontested(rest, vals.drop_first()));
            lemma_scan_key_same_keys(cs0, cnew, pat[0], 0);
        }
    }
}

/// The step of a registration that adds a new exact child.
proof fn lemma_open_after_new_child<H>(
    old_n: RouterNode<H>,
    new_n: RouterNode<H>,
    pat: Seq<Seq<char>>,
    e: (String, RouterNode<H>),
    child_before: RouterNode<H>,
)
    requires
        pat.len() > 0,
        !is_param(pat[0]),
        scan_key(old_n.children@, pat[0], 0) == old_n.children@.len(),
        e.0@ == pat[0],
        new_n.children@ == old_n.children@.push(e),
        new_n.param_child == old_n.param_child,
        new_n.param_name == old_n.param_name,
        child_before.is_blank(),
        keeps_open(child_before, e.1, pat.drop_first()),
    ensures
        keeps_open(old_n, new_n, pat),
{
    let rest = pat.drop_first();
    let cs0 = old_n.children@;
    let cnew = new_n.children@;
    let child = e.1;
    lemma_blank_is_open(child_before);
    assert(cnew[cs0.len() as int] == e);
    assert forall|q: Seq<Seq<char>>| old_n.names_compatible(q) && !name_clash(pat, q)
        implies #[trigger] new_n.names_compatible(q) by {
        if q.len() > 0 && !is_param(q[0]) {
            lemma_scan_key_push(cs0, e, q[0], 0);
            lemma_scan_key(cs0, q[0], 0);
            let j = scan_key(cs0, q[0], 0);
            if q[0] == pat[0] {
                assert(child_before.names_compatible(q.drop_first()));
                assert(child.names_compatible(q.drop_first()));
            } else if j < cs0.len() {
                assert(cnew[j] == cs0[j]);
            }
        }
    }
    assert forall|q: Seq<Seq<char>>, v: Seq<Seq<char>>| old_n.free_at_params(q, v) && !competes(pat, q, v)
        implies #[trigger] new_n.free_at_params(q, v) by {
        if q.len() > 0 {
            if is_param(q[0]) {
                lemma_scan_key_push(cs0, e, v[0], 0);
                lemma_scan_key(cs0, v[0], 0);
            } else {
                lemma_scan_key_push(cs0, e, q[0], 0);
                lemma_scan_key(cs0, q[0], 0);
                let j = scan_key(cs0, q[0], 0);
                if q[0] == pat[0] {
                    assert(competes(pat, q, v) == competes(rest, q.drop_first(), v.drop_first()));
                    assert(child_before.free_at_params(q.drop_first(), v.drop_first()));
                    assert(child.free_at_params(q.drop_first(), v.drop_first()));
                } else if j < cs0.len() {
                    assert(cnew[j] == cs0[j]);
                }
            }
        }
    }
    assert(child_before.names_compatible(rest));
    assert forall|vals: Seq<Seq<char>>| fits(pat, vals) && old_n.free_at_params(pat, vals)
        implies #[trigger] new_n.uncontested(pat, vals) by {
        lemma_fits_rest(pat, vals);
        assert(child_before.free_at_params(rest, vals.drop_first()));
        assert(child.uncontested(rest, vals.drop_first()));
        lemma_scan_key_push(cs0, e, pat[0], 0);
    }
}

/// A node without routes names no parameter and has no exact child in the
/// way of any path.
pub proof fn lemma_blank_is_open<H>(node: RouterNode<H>)
    requires
        node.is_blank(),
    ensures
        forall|q: Seq<Seq<char>>| #[trigger] node.names_compatible(q),
        forall|q: Seq<Seq<char>>, v: Seq<Seq<char>>| #[trigger] node.free_at_params(q, v),
{
    assert forall|q: Seq<Seq<char>>| #[trigger] node.names_compatible(q) by {
        if q.len() > 0 {
            lemma_scan_key(node.children@, q[0], 0);
        }
    }
    assert forall|q: Seq<Seq<char>>, v: Seq<Seq<char>>| #[trigger] node.free_at_params(q, v) by {
        if q.len() > 0 {
            lemma_scan_key(node.children@, q[0], 0);
            lemma_scan_key(node.children@, v[0], 0);
        }
    }
}

/// A handler reached through exact children alone is what the lookup gives,
/// whatever parameter routes there are, and no parameter gets bound.
pub proof fn lemma_exact_route_wins<H>(node: RouterNode<H>, m: Method, parts: Seq<Seq<char>>, params: Map<Seq<char>, Seq<char>>)
    requires
        node.exact_lookup(m, parts) is Some,
    ensures
        node.lookup(m, parts, params) == (node.exact_lookup(m, parts), params),
    decreases parts.len(),
{
    if parts.len() > 0 {
        let ci = scan_key(node.children@, parts[0], 0);
        lemma_exact_route_wins(node.children@[ci].1, m, parts.drop_first(), params);
    }
}

/// A path that fits the pattern of a registered route reaches its handler,
/// with the pattern's parameters bound to the path's segments, unless an
/// exact route competes for a segment at a parameter position, or an earlier
/// route named that parameter differently.
pub proof fn lemma_pattern_route_resolves<H>(r: Router<H>, m: Method, pat: Seq<Seq<char>>, vals: Seq<Seq<char>>)
    requires
        fits(pat, vals),
        r.tree().pattern_handler(m, pat) is Some,
        r.tree().names_match(pat),
        r.tree().uncontested(pat, vals),
    ensures
        r.route_lookup(m, vals) == (r.tree().pattern_handler(m, pat), bind(pat, vals, Map::<Seq<char>, Seq<char>>::empty())),
{
    lemma_pattern_route_reached(r.tree(), m, pat, vals, Map::empty());
}

/// A route registered without parameters is found for its own path, with no
/// bindings, whatever parameter routes share its prefix; registering other
/// routes never changes what such a path reaches (see `Router::add_route`).
pub proof fn lemma_static_route_resolves<H>(r: Router<H>, m: Method, parts: Seq<Seq<char>>)
    requires
        r.exact_route(m, parts) is Some,
    ensures
        r.route_lookup(m, parts) == (r.exact_route(m, parts), Map::<Seq<char>, Seq<char>>::empty()),
{
    lemma_exact_route_wins(r.tree(), m, parts, Map::empty());
}

/// A path that fits a registered pattern reaches the pattern's handler, with
/// each parameter of the pattern bound to its segment, as long as the
/// parameter nodes carry the pattern's names and no exact child competes for
/// a segment at a parameter position.
pub proof fn lemma_pattern_route_reached<H>(
    node: RouterNode<H>,
    m: Method,
    pat: Seq<Seq<char>>,
    vals: Seq<Seq<char>>,
    params: Map<Seq<char>, Seq<char>>,
)
    requires
        fits(pat, vals),
        node.pattern_handler(m, pat) is Some,
        node.names_match(pat),
        node.uncontested(pat, vals),
    ensures
        node.lookup(m, vals, params) == (node.pattern_handler(m, pat), bind(pat, vals, params)),
    decreases pat.len(),
{
    if pat.len() > 0 {
        let rest = pat.drop_first();
        let vrest = vals.drop_first();
        assert(fits(rest, vrest)) by {
            assert forall|i: int| 0 <= i < rest.len() && !is_param(#[trigger] rest[i]) implies vrest[i] == rest[i] by {
                assert(pat[i + 1] == rest[i]);
            }
        }
        if is_param(pat[0]) {
            let pc = node.param_child->Some_0;
            let pn = node.param_name->Some_0;
            let q = params.insert(pn@, vals[0]);
            lemma_pattern_route_reached(*pc, m, rest, vrest, q);
        } else {
            let ci = scan_key(node.children@, pat[0], 0);
            assert(vals[0] == pat[0]);
            lemma_pattern_route_reached(node.children@[ci].1, m, rest, vrest, params);
        }
    }
}

/// When an exact child of the node yields a handler, the lookup gives that
/// result and the parameter child is not consulted.
pub proof fn lemma_exact_before_param<H>(node: RouterNode<H>, m: Method, parts: Seq<Seq<char>>, params: Map<Seq<char>, Seq<char>>)
    requires
        parts.len() > 0,
        node.exact_child(parts[0]) is Some,
        node.exact_child(parts[0])->Some_0.lookup(m, parts.drop_first(), params).0 is Some,
    ensures
        node.lookup(m, parts, params) == node.exact_child(parts[0])->Some_0.lookup(m, parts.drop_first(), params),
{
}

/// When no exact child matches the first segment, the lookup continues in the
/// parameter child with the segment bound to the parameter's name.
pub proof fn lemma_param_when_no_exact<H>(node: RouterNode<H>, m: Method, parts: Seq<Seq<char>>, params: Map<Seq<char>, Seq<char>>)
    requires
        parts.len() > 0,
        node.exact_child(parts[0]) is None,
        node.param() is Some,
    ensures
        node.lookup(m, parts, params) == node.param()->Some_0.1.lookup(
            m,
            parts.drop_first(),
            params.insert(node.param()->Some_0.0, parts[0]),
        ),
{
    lemma_scan_key(node.children@, parts[0], 0);
}

/// The result of trying the exact child for the first segment: the child's
/// lookup on the rest, or no handler and the bindings unchanged when there is
/// no such child.
pub open spec fn exact_attempt<H>(node: RouterNode<H>, m: Method, parts: Seq<Seq<char>>, params: Map<Seq<char>, Seq<char>>) -> (Option<H>, Map<Seq<char>, Seq<char>>) {
    match node.exact_child(parts[0]) {
        Some(c) => c.lookup(m, parts.drop_first(), params),
        None => (None, params),
    }
}

/// Exact children are tried first: when the exact child for the first segment
/// yields a handler, that is the result; whenever it yields none (there is no
/// such child, or it reaches no handler for the rest of the path, even when
/// the rest is empty), the lookup goes on in the parameter child with the
/// segment bound to the parameter's name, on top of the bindings the exact
/// attempt made; without a parameter child nothing is found.
pub proof fn lemma_lookup_tries_exact_then_param<H>(node: RouterNode<H>, m: Method, parts: Seq<Seq<char>>, params: Map<Seq<char>, Seq<char>>)
    requires
        parts.len() > 0,
    ensures
        exact_attempt(node, m, parts, params).0 is Some ==> node.lookup(m, parts, params) == exact_attempt(node, m, parts, params),
        exact_attempt(node, m, parts, params).0 is None ==> node.lookup(m, parts, params) == match node.param() {
            Some(p) => p.1.lookup(m, parts.drop_first(), exact_attempt(node, m, parts, params).1.insert(p.0, parts[0])),
            None => (None, exact_attempt(node, m, parts, params).1),
        },
{
    lemma_scan_key(node.children@, parts[0], 0);
}

/// At the end of the path the lookup gives the handler registered at this
/// node for the method, the one that registering the empty pattern here would
/// reach, and binds nothing.
pub proof fn lemma_lookup_at_end<H>(node: RouterNode<H>, m: Method, params: Map<Seq<char>, Seq<char>>)
    ensures
        node.lookup(m, Seq::empty(), params) == (node.pattern_handler(m, Seq::empty()), params),
        node.exact_lookup(m, Seq::empty()) == node.pattern_handler(m, Seq::empty()),
{
}

impl<H> RouterNode<H> {
    /// The child for the exact segment `seg`, if there is one.
    pub closed spec fn exact_child(self, seg: Seq<char>) -> Option<RouterNode<H>> {
        let ci = scan_key(self.children@, seg, 0);
        if 0 <= ci < self.children@.len() {
            Some(self.children@[ci].1)
        } else {
            None
        }
    }

    /// The parameter's name and child, if the node has both.
    pub closed spec fn param(self) -> Option<(Seq<char>, RouterNode<H>)> {
        match self.param_child {
            Some(pc) => match self.param_name {
                Some(pn) => Some((pn@, *pc)),
                None => None,
            },
            None => None,
        }
    }
}

/// A path falls under a static directory prefix: it starts with the prefix,
/// and the prefix ends it or is followed by `/`.
pub open spec fn under_prefix(prefix: Seq<char>, path: Seq<char>) -> bool {
    &&& seq_starts_with(path, prefix)
    &&& (path.len() == prefix.len() || path[prefix.len() as int] == '/')
}

/// The first static directory at or after `from` whose prefix the path falls under, or the length.
pub open spec fn scan_static(dirs: Seq<(Seq<char>, Seq<char>)>, path: Seq<char>, from: int) -> int
    recommends
        0 <= from,
    decreases dirs.len() - from,
{
    if from >= dirs.len() {
        dirs.len() as int
    } else if under_prefix(dirs[from].0, path) {
        from
    } else {
        scan_static(dirs, path, from + 1)
    }
}

pub proof fn lemma_scan_static(dirs: Seq<(Seq<char>, Seq<char>)>, path: Seq<char>, from: int)
    requires
        0 <= from <= dirs.len(),
    ensures
        from <= scan_static(dirs, path, from) <= dirs.len(),
        scan_static(dirs, path, from) < dirs.len() ==> under_prefix(dirs[scan_static(dirs, path, from)].0, path),
        forall|k: int| from <= k < scan_static(dirs, path, from) ==> !under_prefix(dirs[k].0, path),
    decreases dirs.len() - from,
{
    if from < dirs.len() && !under_prefix(dirs[from].0, path) {
        lemma_scan_static(dirs, path, from + 1);
    }
}

pub open spec fn slash_pred() -> spec_fn(char) -> bool {
    |c: char| c == '/'
}

/// `str::trim_end_matches('/')`: without trailing slashes.
pub fn trim_trailing_slashes(s: &str) -> (r: String)
    ensures
        r@ == crate::text::trim_end_where(s@, slash_pred()),
{
    let cs = chars_of(s);
    let mut b = cs.len();
    assert(cs@.subrange(0, b as int) =~= s@);
    while b > 0 && cs[b - 1] == '/'
        invariant
            b <= cs@.len(),
            cs@ == s@,
            crate::text::trim_end_where(s@, slash_pred()) == crate::text::trim_end_where(cs@.subrange(0, b as int), slash_pred()),
        decreases b,
    {
        assert(slash_pred()(cs@[b - 1]));
        assert(cs@.subrange(0, b as int).drop_last() =~= cs@.subrange(0, b - 1));
        b = b - 1;
    }
    proof {
        if b > 0 {
            assert(!slash_pred()(cs@.subrange(0, b as int).last()));
        }
    }
    string_from_char_range(cs.as_slice(), 0, b)
}

/// Where a request goes: a file under a static directory, a route's handler
/// with the bindings of its parameters, or nowhere.
pub enum Resolution<'a, H> {
    Static { dir: String, rest: String },
    Route { handler: &'a H, params: StrMap<String> },
    NotFound,
}

/// Routes and static directories.
pub struct Router<H> {
    root: RouterNode<H>,
    static_dirs: Vec<(String, String)>,
}

impl<H> Router<H> {
    /// The route tree.
    pub closed spec fn tree(self) -> RouterNode<H> {
        self.root
    }

    /// The static directories as (URL prefix, directory) pairs, in the order they were added.
    pub closed spec fn dirs(self) -> Seq<(Seq<char>, Seq<char>)> {
        self.static_dirs@.map_values(|d: (String, String)| (d.0@, d.1@))
    }

    /// What looking up method `m` along `parts` gives, from no bindings.
    pub open spec fn route_lookup(self, m: Method, parts: Seq<Seq<char>>) -> (Option<H>, Map<Seq<char>, Seq<char>>) {
        self.tree().lookup(m, parts, Map::empty())
    }

    /// The handler for `m` at `parts` reached through exact segments alone.
    pub open spec fn exact_route(self, m: Method, parts: Seq<Seq<char>>) -> Option<H> {
        self.tree().exact_lookup(m, parts)
    }

    /// A router with no routes and no static directories.
    pub fn new() -> (r: Router<H>)
        ensures
            r.tree().is_blank(),
            forall|q: Seq<Seq<char>>| #[trigger] r.tree().names_compatible(q),
            forall|q: Seq<Seq<char>>, v: Seq<Seq<char>>| #[trigger] r.tree().free_at_params(q, v),
            r.dirs() == Seq::<(Seq<char>, Seq<char>)>::empty(),
    {
        let r = Router { root: RouterNode::new(), static_dirs: Vec::new() };
        proof {
            lemma_blank_is_open(r.tree());
        }
        assert(r.dirs() =~= Seq::<(Seq<char>, Seq<char>)>::empty());
        r
    }

    /// Registers `handler` for method `m` at the path pattern `path`.
    pub fn add_route(&mut self, m: Method, path: &str, handler: H)
        ensures
            final(self).dirs() == old(self).dirs(),
            all_static(segments(path@)) ==> final(self).route_lookup(m, segments(path@))
                == (Some(handler), Map::<Seq<char>, Seq<char>>::empty()),
            old(self).tree().is_blank() ==> forall|vals: Seq<Seq<char>>| fits(segments(path@), vals)
                ==> #[trigger] final(self).route_lookup(m, vals)
                    == (Some(handler), bind(segments(path@), vals, Map::<Seq<char>, Seq<char>>::empty())),
            forall|m2: Method, q: Seq<Seq<char>>| #[trigger] final(self).exact_route(m2, q) == if m2 == m
                && q == segments(path@) && all_static(segments(path@)) {
                Some(handler)
            } else {
                old(self).exact_route(m2, q)
            },
            final(self).tree().pattern_handler(m, segments(path@)) == Some(handler),
            old(self).tree().names_compatible(segments(path@)) ==> final(self).tree().names_match(segments(path@)),
            forall|m2: Method, q: Seq<Seq<char>>| #[trigger] final(self).tree().pattern_handler(m2, q) == if m2 == m
                && same_shape(q, segments(path@)) {
                Some(handler)
            } else {
                old(self).tree().pattern_handler(m2, q)
            },
            forall|q: Seq<Seq<char>>| old(self).tree().names_match(q) ==> #[trigger] final(self).tree().names_match(q),
            forall|q: Seq<Seq<char>>, v: Seq<Seq<char>>| old(self).tree().uncontested(q, v)
                && !competes(segments(path@), q, v) ==> #[trigger] final(self).tree().uncontested(q, v),
            forall|q: Seq<Seq<char>>| old(self).tree().names_compatible(q) && !name_clash(segments(path@), q)
                ==> #[trigger] final(self).tree().names_compatible(q),
            forall|q: Seq<Seq<char>>, v: Seq<Seq<char>>| old(self).tree().free_at_params(q, v)
                && !competes(segments(path@), q, v) ==> #[trigger] final(self).tree().free_at_params(q, v),
            old(self).tree().names_compatible(segments(path@)) ==> forall|vals: Seq<Seq<char>>|
                fits(segments(path@), vals) && old(self).tree().free_at_params(segments(path@), vals)
                ==> #[trigger] final(self).tree().uncontested(segments(path@), vals),
            old(self).tree().names_compatible(segments(path@)) ==> forall|vals: Seq<Seq<char>>|
                fits(segments(path@), vals) && old(self).tree().free_at_params(segments(path@), vals)
                ==> #[trigger] final(self).route_lookup(m, vals)
                    == (Some(handler), bind(segments(path@), vals, Map::<Seq<char>, Seq<char>>::empty())),
    {
        let parts = split_path(path);
        assert(strings_view(parts@).skip(0) =~= segments(path@));
        self.root.insert_parts(m, &parts, 0, handler);
        proof {
            let pat = segments(path@);
            if old(self).tree().names_compatible(pat) {
                assert forall|vals: Seq<Seq<char>>| fits(pat, vals) && old(self).tree().free_at_params(pat, vals)
                    implies #[trigger] self.route_lookup(m, vals) == (Some(handler), bind(pat, vals, Map::<Seq<char>, Seq<char>>::empty())) by {
                    assert(self.tree().uncontested(pat, vals));
                    lemma_pattern_route_reached(self.tree(), m, pat, vals, Map::empty());
                }
            }
        }
    }

    /// Serves the files of `dir_path` under `url_prefix`, written without trailing slashes.
    pub fn serve_static(&mut self, url_prefix: &str, dir_path: &str)
        ensures
            final(self).tree() == old(self).tree(),
            final(self).dirs() == old(self).dirs().push(
                (crate::text::trim_end_where(url_prefix@, slash_pred()), dir_path@),
            ),
    {
        let prefix = trim_trailing_slashes(url_prefix);
        let ghost d0 = self.dirs();
        self.static_dirs.push((prefix, dir_path.to_owned()));
        assert(self.dirs() =~= d0.push((crate::text::trim_end_where(url_prefix@, slash_pred()), dir_path@)));
    }

    /// Where a request for method `m` and `path` goes: the first static
    /// directory the path falls under, with the rest of the path after the
    /// prefix; otherwise the route found for the path's segments.
    pub fn resolve(&self, m: Method, path: &str) -> (r: Resolution<'_, H>)
        ensures
            ({
                let dirs = self.dirs();
                let i = scan_static(dirs, path@, 0);
                if i < dirs.len() {
                    r matches Resolution::Static { dir, rest } && dir@ == dirs[i].1
                        && rest@ == path@.subrange(dirs[i].0.len() as int, path@.len() as int)
                } else {
                    let res = self.route_lookup(m, segments(path@));
                    match res.0 {
                        Some(h) => r matches Resolution::Route { handler, params } && *handler == h
                            && params@ == res.1,
                        None => r is NotFound,
                    }
                }
            }),
    {
        let ghost dirs = self.dirs();
        let cs = chars_of(path);
        let n = self.static_dirs.len();
        proof {
            lemma_scan_static(dirs, path@, 0);
        }
        let mut i: usize = 0;
        while i < n
            invariant
                n == self.static_dirs@.len(),
                dirs == self.dirs(),
                cs@ == path@,
                i <= n,
                scan_static(dirs, path@, 0) == scan_static(dirs, path@, i as int),
            decreases n - i,
        {
            let pc = chars_of(self.static_dirs[i].0.as_str());
            assert(dirs[i as int].0 == pc@);
            let plen = pc.len();
            if crate::text::chars_start_with(cs.as_slice(), pc.as_slice()) && (cs.len() == plen || cs[plen] == '/') {
                let rest = string_from_char_range(cs.as_slice(), plen, cs.len());
                return Resolution::Static { dir: self.static_dirs[i].1.clone(), rest };
            }
            i = i + 1;
        }
        let parts = split_path(path);
        assert(strings_view(parts@).skip(0) =~= segments(path@));
        let mut params: StrMap<String> = StrMap::new();
        match self.root.find_parts(m, &parts, 0, &mut params) {
            Some(h) => Resolution::Route { handler: h, params },
            None => Resolution::NotFound,
        }
    }
}

} // verus!

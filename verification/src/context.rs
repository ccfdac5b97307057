//! What a handler sees of a request.
use vstd::prelude::*;
use crate::form::{
    boundary_from, extract_boundary, multipart_map, parse_multipart, parse_urlencoded,
    urlencoded_map,
};
use crate::session::{cookie_session_from, get_session_from_headers, session_id_text, Session, SessionStore};
use crate::strmap::{head_only, StrMap};
use crate::text::{lossy_string, seq_starts_with, str_starts_with, lossy_text};
use crate::{utf8, Method};

verus! {

broadcast use vstd::string::group_string_axioms;

/// The first value of a query parameter, if it has one.
pub open spec fn first_value(q: Map<Seq<char>, Seq<Seq<char>>>, key: Seq<char>) -> Option<Seq<char>> {
    if q.dom().contains(key) && q[key].len() > 0 {
        Some(q[key][0])
    } else {
        None
    }
}

/// The `Content-Type` header, or an empty text without one.
pub open spec fn content_type_of(h: Map<Seq<char>, Seq<char>>) -> Seq<char> {
    if h.dom().contains("Content-Type"@) {
        h["Content-Type"@]
    } else {
        Seq::empty()
    }
}

/// The form fields a request carries: a URL-encoded body or a multipart body
/// as its content type says, and no fields for any other content type.
/// `None` where the multipart body cannot be cut (see `multipart_map`).
pub open spec fn form_fields(h: Map<Seq<char>, Seq<char>>, body: Seq<u8>) -> Option<Map<Seq<char>, Seq<char>>> {
    let ct = content_type_of(h);
    if seq_starts_with(ct, "application/x-www-form-urlencoded"@) {
        Some(urlencoded_map(body))
    } else if seq_starts_with(ct, "multipart/form-data"@) {
        multipart_map(body, utf8(boundary_from(ct, 0)))
    } else {
        Some(Map::empty())
    }
}

/// A request as a handler sees it: method, path, headers, the bindings of
/// the route's parameters, body and query parameters.
pub struct Context {
    pub method: Method,
    pub path: String,
    pub headers: StrMap<String>,
    pub params: StrMap<String>,
    pub body: Vec<u8>,
    pub query: StrMap<Vec<String>>,
}

impl Context {
    /// The query parameters, each with its values in order.
    pub open spec fn query_view(self) -> Map<Seq<char>, Seq<Seq<char>>> {
        self.query@
    }

    /// A context without route parameters.
    pub fn new(method: Method, path: String, headers: StrMap<String>, body: Vec<u8>, query: StrMap<Vec<String>>) -> (r: Context)
        ensures
            r.method == method,
            r.path@ == path@,
            r.headers@ == headers@,
            r.params@ == Map::<Seq<char>, Seq<char>>::empty(),
            r.body@ == body@,
            r.query_view() == query@,
    {
        Context { method, path, headers, params: StrMap::new(), body, query }
    }

    /// The same context with the given route parameters.
    pub fn with_params(self, params: StrMap<String>) -> (r: Context)
        ensures
            r.method == self.method,
            r.path@ == self.path@,
            r.headers@ == self.headers@,
            r.params@ == params@,
            r.body@ == self.body@,
            r.query_view() == self.query_view(),
    {
        let mut c = self;
        c.params = params;
        c
    }

    /// The value bound to the route parameter `key`.
    pub fn param(&self, key: &str) -> (r: Option<&String>)
        ensures
            match r {
                Some(v) => self.params@.dom().contains(key@) && self.params@[key@] == v@,
                None => !self.params@.dom().contains(key@),
            },
    {
        self.params.get(key)
    }

    /// The header `key`.
    pub fn header(&self, key: &str) -> (r: Option<&String>)
        ensures
            match r {
                Some(v) => self.headers@.dom().contains(key@) && self.headers@[key@] == v@,
                None => !self.headers@.dom().contains(key@),
            },
    {
        self.headers.get(key)
    }

    /// The body decoded as UTF-8, invalid sequences replaced.
    pub fn body_string(&self) -> (r: String)
        ensures
            r@ == lossy_text(self.body@),
            vstd::utf8::valid_utf8(self.body@) ==> r@ == vstd::utf8::decode_utf8(self.body@),
    {
        lossy_string(self.body.as_slice())
    }

    /// The body as bytes.
    pub fn get_raw_data(&self) -> (r: &[u8])
        ensures
            r@ == self.body@,
    {
        self.body.as_slice()
    }

    /// The first value of the query parameter `key`, or an empty text.
    pub fn query(&self, key: &str) -> (r: &str)
        ensures
            r@ == match first_value(self.query_view(), key@) {
                Some(v) => v,
                None => ""@,
            },
    {
        proof {
            reveal_strlit("");
        }
        match self.query.get(key) {
            Some(v) => {
                if v.len() > 0 {
                    v[0].as_str()
                } else {
                    ""
                }
            },
            None => "",
        }
    }

    /// The first value of the query parameter `key`, or `default`.
    pub fn default_query<'a>(&'a self, key: &str, default: &'a str) -> (r: &'a str)
        ensures
            r@ == match first_value(self.query_view(), key@) {
                Some(v) => v,
                None => default@,
            },
    {
        match self.query.get(key) {
            Some(v) => {
                if v.len() > 0 {
                    v[0].as_str()
                } else {
                    default
                }
            },
            None => default,
        }
    }

    /// The first value of the query parameter `key` and `true`, or an empty
    /// text and `false`.
    pub fn get_query(&self, key: &str) -> (r: (&str, bool))
        ensures
            match first_value(self.query_view(), key@) {
                Some(v) => r.0@ == v && r.1,
                None => r.0@ == ""@ && !r.1,
            },
    {
        proof {
            reveal_strlit("");
        }
        match self.query.get(key) {
            Some(v) => {
                if v.len() > 0 {
                    (v[0].as_str(), true)
                } else {
                    ("", false)
                }
            },
            None => ("", false),
        }
    }

    /// All values of the query parameter `key`, in order.
    pub fn query_array(&self, key: &str) -> (r: Vec<String>)
        ensures
            r.deep_view() == if self.query_view().dom().contains(key@) {
                self.query_view()[key@]
            } else {
                Seq::<Seq<char>>::empty()
            },
    {
        match self.query.get(key) {
            Some(v) => v.clone(),
            None => {
                let e: Vec<String> = Vec::new();
                assert(e.deep_view() =~= Seq::<Seq<char>>::empty());
                e
            },
        }
    }

    /// Each query parameter with its first value (an empty text when it has none).
    pub fn first_query_values(&self) -> (r: StrMap<String>)
        ensures
            r@ == Map::new(
                |k: Seq<char>| self.query_view().dom().contains(k),
                |k: Seq<char>| match first_value(self.query_view(), k) {
                    Some(v) => v,
                    None => Seq::empty(),
                },
            ),
    {
        let entries = self.query.entries();
        let n = entries.len();
        let mut out: StrMap<String> = StrMap::new();
        let mut i: usize = 0;
        while i < n
            invariant
                n == entries@.len(),
                i <= n,
                crate::strmap::keys_distinct(entries@),
                forall|j: int| 0 <= j < entries@.len() ==> #[trigger] self.query@.dom().contains(entries@[j].0@)
                    && self.query@[entries@[j].0@] == entries@[j].1.deep_view(),
                forall|k: Seq<char>| self.query@.dom().contains(k) ==> crate::strmap::has_key(entries@, k),
                forall|k: Seq<char>| #[trigger] out@.dom().contains(k) <==> exists|j: int| 0 <= j < i && entries@[j].0@ == k,
                forall|k: Seq<char>| #[trigger] out@.dom().contains(k) ==> out@[k] == match first_value(self.query_view(), k) {
                    Some(v) => v,
                    None => Seq::<char>::empty(),
                },
            decreases n - i,
        {
            let values = &entries[i].1;
            let first = if values.len() > 0 {
                values[0].clone()
            } else {
                String::new()
            };
            assert(self.query@.dom().contains(entries@[i as int].0@));
            out.insert(entries[i].0.clone(), first);
            assert forall|k: Seq<char>| #[trigger] out@.dom().contains(k) <==> exists|j: int| 0 <= j < i + 1 && entries@[j].0@ == k by {
                if out@.dom().contains(k) && k != entries@[i as int].0@ {
                    let j = choose|j: int| 0 <= j < i && entries@[j].0@ == k;
                    assert(0 <= j < i + 1 && entries@[j].0@ == k);
                }
                if exists|j: int| 0 <= j < i + 1 && entries@[j].0@ == k {
                    let j = choose|j: int| 0 <= j < i + 1 && entries@[j].0@ == k;
                    if j < i {
                        assert(exists|j2: int| 0 <= j2 < i && entries@[j2].0@ == k);
                    }
                }
            }
            i = i + 1;
        }
        let ghost target = Map::new(
            |k: Seq<char>| self.query_view().dom().contains(k),
            |k: Seq<char>| match first_value(self.query_view(), k) {
                Some(v) => v,
                None => Seq::<char>::empty(),
            },
        );
        assert forall|k: Seq<char>| #[trigger] out@.dom().contains(k) <==> target.dom().contains(k) by {
            if out@.dom().contains(k) {
                let j = choose|j: int| 0 <= j < n && entries@[j].0@ == k;
                assert(self.query@.dom().contains(entries@[j].0@));
            }
            if target.dom().contains(k) {
                assert(crate::strmap::has_key(entries@, k));
                let j = choose|j: int| 0 <= j < entries@.len() && entries@[j].0@ == k;
                assert(exists|j2: int| 0 <= j2 < n && entries@[j2].0@ == k);
            }
        }
        assert(out@ =~= target);
        out
    }

    /// All query parameters, each keeping only its first value.
    pub fn query_map(&self) -> (r: StrMap<Vec<String>>)
        ensures
            r@ == Map::new(
                |k: Seq<char>| self.query_view().dom().contains(k),
                |k: Seq<char>| head_only(self.query_view()[k]),
            ),
    {
        self.query.first_only()
    }

    /// The form fields of the body, or `None` where its multipart body cannot
    /// be cut (see `multipart_map`).
    pub fn try_form_values(&self) -> (r: Option<StrMap<String>>)
        ensures
            match r {
                Some(m) => form_fields(self.headers@, self.body@) == Some(m@),
                None => form_fields(self.headers@, self.body@) is None,
            },
    {
        let ct: &str = match self.headers.get("Content-Type") {
            Some(v) => v.as_str(),
            None => "",
        };
        proof {
            reveal_strlit("");
            assert(""@ =~= Seq::<char>::empty());
        }
        assert(ct@ == content_type_of(self.headers@));
        if !str_starts_with(ct, "application/x-www-form-urlencoded") && str_starts_with(ct, "multipart/form-data") {
            let boundary = extract_boundary(ct);
            match parse_multipart(self.body.as_slice(), boundary.as_str()) {
                Some(_) => {},
                None => {
                    return None;
                },
            }
        }
        Some(self.form_values())
    }

    /// The form fields of the body.
    pub fn form_values(&self) -> (r: StrMap<String>)
        requires
            form_fields(self.headers@, self.body@) is Some,
        ensures
            form_fields(self.headers@, self.body@) == Some(r@),
    {
        let ct: &str = match self.headers.get("Content-Type") {
            Some(v) => v.as_str(),
            None => "",
        };
        proof {
            reveal_strlit("");
            assert(""@ =~= Seq::<char>::empty());
        }
        assert(ct@ == content_type_of(self.headers@));
        if str_starts_with(ct, "application/x-www-form-urlencoded") {
            parse_urlencoded(self.body.as_slice())
        } else if str_starts_with(ct, "multipart/form-data") {
            let boundary = extract_boundary(ct);
            match parse_multipart(self.body.as_slice(), boundary.as_str()) {
                Some(m) => m,
                None => StrMap::new(),
            }
        } else {
            StrMap::new()
        }
    }

    /// The form field `key`.
    pub fn form_value(&self, key: &str) -> (r: Option<String>)
        requires
            form_fields(self.headers@, self.body@) is Some,
        ensures
            ({
                let f = form_fields(self.headers@, self.body@)->Some_0;
                match r {
                    Some(v) => f.dom().contains(key@) && f[key@] == v@,
                    None => !f.dom().contains(key@),
                }
            }),
    {
        let mut fields = self.form_values();
        fields.remove(key)
    }

    /// The session the request's `Cookie` header names, or a new one.
    pub fn session(&self, store: &mut SessionStore, now: u64) -> (r: Session)
        ensures
            ({
                let sid = if self.headers@.dom().contains("Cookie"@) {
                    cookie_session_from(self.headers@["Cookie"@], 0)
                } else {
                    None
                };
                match sid {
                    Some(id) if old(store).sessions_view().dom().contains(id) => r.id_view() == id
                        && final(store).sessions_view() == old(store).sessions_view()
                        && final(store).access_view() == old(store).access_view(),
                    _ => {
                        &&& final(store).sessions_view() == old(store).sessions_view().insert(r.id_view(), Map::empty())
                        &&& final(store).access_view() == old(store).access_view().insert(r.id_view(), now)
                        &&& exists|nanos: u128, random: u64| r.id_view() == session_id_text(nanos, random)
                    },
                }
            }),
    {
        get_session_from_headers(&self.headers, store, now)
    }
}

} // verus!

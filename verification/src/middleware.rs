//! Cross-origin resource sharing headers.
use vstd::prelude::*;
use crate::text::{push_str, strings_view};
use crate::{headers_view, Response};

verus! {

/// The items written one after another with `sep` between each two.
pub open spec fn joined(items: Seq<Seq<char>>, sep: Seq<char>) -> Seq<char>
    decreases items.len(),
{
    if items.len() == 0 {
        Seq::empty()
    } else if items.len() == 1 {
        items[0]
    } else {
        joined(items.drop_last(), sep) + sep + items.last()
    }
}

/// `items` joined with `sep`.
pub fn join_strings(items: &Vec<String>, sep: &str) -> (r: String)
    ensures
        r@ == joined(strings_view(items@), sep@),
{
    let ghost v = strings_view(items@);
    let mut s = String::new();
    let n = items.len();
    let mut i: usize = 0;
    while i < n
        invariant
            n == items@.len(),
            v == strings_view(items@),
            i <= n,
            s@ == joined(v.take(i as int), sep@),
        decreases n - i,
    {
        if i > 0 {
            push_str(&mut s, sep);
        }
        push_str(&mut s, items[i].as_str());
        assert(v.take(i + 1).drop_last() =~= v.take(i as int));
        i = i + 1;
    }
    assert(v.take(n as int) =~= v);
    s
}

/// `items` holds a string equal to `x`.
pub fn contains_string(items: &Vec<String>, x: &str) -> (r: bool)
    ensures
        r == strings_view(items@).contains(x@),
{
    let n = items.len();
    let mut i: usize = 0;
    while i < n
        invariant
            n == items@.len(),
            i <= n,
            forall|j: int| 0 <= j < i ==> items@[j]@ != x@,
        decreases n - i,
    {
        if crate::text::str_equal(items[i].as_str(), x) {
            assert(strings_view(items@)[i as int] == x@);
            return true;
        }
        i = i + 1;
    }
    assert forall|j: int| 0 <= j < strings_view(items@).len() implies strings_view(items@)[j] != x@ by {
        assert(items@[j]@ != x@);
    }
    false
}

/// Adds the `Access-Control-Allow-*` headers to responses when every origin
/// is allowed.
pub struct CORSMiddleware {
    allowed_origins: Vec<String>,
    allowed_methods: Vec<String>,
    allowed_headers: Vec<String>,
}

impl CORSMiddleware {
    pub closed spec fn origins(self) -> Seq<Seq<char>> {
        strings_view(self.allowed_origins@)
    }

    pub closed spec fn methods(self) -> Seq<Seq<char>> {
        strings_view(self.allowed_methods@)
    }

    pub closed spec fn headers(self) -> Seq<Seq<char>> {
        strings_view(self.allowed_headers@)
    }

    pub fn new(allowed_origins: Vec<String>, allowed_methods: Vec<String>, allowed_headers: Vec<String>) -> (r: CORSMiddleware)
        ensures
            r.origins() == strings_view(allowed_origins@),
            r.methods() == strings_view(allowed_methods@),
            r.headers() == strings_view(allowed_headers@),
    {
        CORSMiddleware { allowed_origins, allowed_methods, allowed_headers }
    }

    /// The response of the next handler, with the three CORS headers appended
    /// when the allowed origins include `*`, and unchanged otherwise.
    pub fn apply(&self, response: Response) -> (r: Response)
        ensures
            r.status == response.status,
            r.body@ == response.body@,
            headers_view(r.headers@) == if self.origins().contains("*"@) {
                headers_view(response.headers@)
                    .push(("Access-Control-Allow-Origin"@, "*"@))
                    .push(("Access-Control-Allow-Methods"@, joined(self.methods(), ", "@)))
                    .push(("Access-Control-Allow-Headers"@, joined(self.headers(), ", "@)))
            } else {
                headers_view(response.headers@)
            },
    {
        let mut response = response;
        if contains_string(&self.allowed_origins, "*") {
            let ghost h0 = headers_view(response.headers@);
            let methods = join_strings(&self.allowed_methods, ", ");
            let headers = join_strings(&self.allowed_headers, ", ");
            response.headers.push(("Access-Control-Allow-Origin".to_owned(), "*".to_owned()));
            response.headers.push(("Access-Control-Allow-Methods".to_owned(), methods));
            response.headers.push(("Access-Control-Allow-Headers".to_owned(), headers));
            assert(headers_view(response.headers@) =~= h0
                .push(("Access-Control-Allow-Origin"@, "*"@))
                .push(("Access-Control-Allow-Methods"@, joined(self.methods(), ", "@)))
                .push(("Access-Control-Allow-Headers"@, joined(self.headers(), ", "@))));
        }
        response
    }
}

} // verus!

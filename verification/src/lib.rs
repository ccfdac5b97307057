use vstd::prelude::*;

pub mod config;
pub mod connection;
pub mod context;
pub mod error;
pub mod form;
pub mod http;
pub mod logging;
pub mod middleware;
pub mod pool;
pub mod router;
pub mod session;
pub mod static_files;
pub mod strmap;
pub mod text;
pub mod websocket;

verus! {

/// HTTP request methods understood by the framework.
#[derive(Debug, Clone, Copy, PartialEq, Eq, Hash, Structural)]
pub enum Method {
    GET,
    POST,
    PUT,
    DELETE,
    PATCH,
    HEAD,
    OPTIONS,
}

/// The canonical upper-case name of a method.
pub open spec fn method_name(m: Method) -> Seq<char> {
    match m {
        Method::GET => "GET"@,
        Method::POST => "POST"@,
        Method::PUT => "PUT"@,
        Method::DELETE => "DELETE"@,
        Method::PATCH => "PATCH"@,
        Method::HEAD => "HEAD"@,
        Method::OPTIONS => "OPTIONS"@,
    }
}

impl Method {
    pub fn as_str(&self) -> (r: &'static str)
        ensures
            r@ == method_name(*self),
    {
        match self {
            Method::GET => "GET",
            Method::POST => "POST",
            Method::PUT => "PUT",
            Method::DELETE => "DELETE",
            Method::PATCH => "PATCH",
            Method::HEAD => "HEAD",
            Method::OPTIONS => "OPTIONS",
        }
    }
}

/// The character views of a header list.
pub open spec fn headers_view(h: Seq<(String, String)>) -> Seq<(Seq<char>, Seq<char>)> {
    h.map_values(|p: (String, String)| (p.0@, p.1@))
}

/// The UTF-8 bytes of a string.
pub open spec fn utf8(s: Seq<char>) -> Seq<u8> {
    vstd::utf8::encode_utf8(s)
}

/// The JSON object that stands in for data that could not be serialised:
/// its keys in sorted order, as `serde_json` writes an object by default.
pub open spec fn serialize_failure_json(details: Seq<char>) -> Seq<char> {
    "{\"details\":"@ + error::json_string(details) + ",\"error\":\"Failed to serialize JSON\"}"@
}

/// An HTTP response.
pub struct Response {
    pub status: u16,
    pub headers: Vec<(String, String)>,
    pub body: Vec<u8>,
}

/// A header list holding the single header `k: v`.
fn one_header(k: &str, v: &str) -> (r: Vec<(String, String)>)
    ensures
        headers_view(r@) == seq![(k@, v@)],
{
    let mut h: Vec<(String, String)> = Vec::new();
    h.push((k.to_owned(), v.to_owned()));
    assert(headers_view(h@) =~= seq![(k@, v@)]);
    h
}

/// The bytes of a string slice.
pub fn str_bytes(s: &str) -> (r: Vec<u8>)
    ensures
        r@ == utf8(s@),
{
    vstd::slice::slice_to_vec(s.as_bytes())
}

impl Response {
    /// A plain-text response with the given status and body.
    pub fn new(status: u16, body: Vec<u8>) -> (r: Response)
        ensures
            r.status == status,
            headers_view(r.headers@) == seq![("Content-Type"@, "text/plain;charset=utf-8"@)],
            r.body@ == body@,
    {
        Response { status, headers: one_header("Content-Type", "text/plain;charset=utf-8"), body }
    }

    /// A status-200 response carrying JSON text.
    pub fn json_str(body: Vec<u8>) -> (r: Response)
        ensures
            r.status == 200,
            headers_view(r.headers@) == seq![("Content-Type"@, "application/json"@)],
            r.body@ == body@,
    {
        let mut resp = Self::new(200, body);
        resp.headers = one_header("Content-Type", "application/json");
        resp
    }

    /// A status-200 HTML response.
    pub fn html(body: Vec<u8>) -> (r: Response)
        ensures
            r.status == 200,
            headers_view(r.headers@) == seq![("Content-Type"@, "text/html"@)],
            r.body@ == body@,
    {
        let mut resp = Self::new(200, body);
        resp.headers = one_header("Content-Type", "text/html");
        resp
    }

    /// A status-200 response with no headers.
    pub fn from_bytes(body: Vec<u8>) -> (r: Response)
        ensures
            r.status == 200,
            r.headers@.len() == 0,
            r.body@ == body@,
    {
        Response { status: 200, headers: Vec::new(), body }
    }

    /// Appends the header `key: value`.
    pub fn header(self, key: &str, value: &str) -> (r: Response)
        ensures
            r.status == self.status,
            headers_view(r.headers@) == headers_view(self.headers@).push((key@, value@)),
            r.body@ == self.body@,
    {
        let mut resp = self;
        let ghost old_h = resp.headers@;
        resp.headers.push((key.to_owned(), value.to_owned()));
        assert(headers_view(resp.headers@) =~= headers_view(old_h).push((key@, value@)));
        resp
    }

    /// `404 Not Found`.
    pub fn not_found() -> (r: Response)
        ensures
            r.status == 404,
            headers_view(r.headers@) == seq![("Content-Type"@, "text/plain;charset=utf-8"@)],
            r.body@ == utf8("404 Not Found"@),
    {
        Self::new(404, str_bytes("404 Not Found"))
    }

    /// `500 Internal Server Error`.
    pub fn internal_error() -> (r: Response)
        ensures
            r.status == 500,
            headers_view(r.headers@) == seq![("Content-Type"@, "text/plain;charset=utf-8"@)],
            r.body@ == utf8("500 Internal Server Error"@),
    {
        Self::new(500, str_bytes("500 Internal Server Error"))
    }

    /// `200 OK`.
    pub fn ok() -> (r: Response)
        ensures
            r.status == 200,
            headers_view(r.headers@) == seq![("Content-Type"@, "text/plain;charset=utf-8"@)],
            r.body@ == utf8("OK"@),
    {
        Self::new(200, str_bytes("OK"))
    }

    /// The message as a JSON body; the status stays 200.
    pub fn bad_request(message: &str) -> (r: Response)
        ensures
            r.status == 200,
            headers_view(r.headers@) == seq![("Content-Type"@, "application/json"@)],
            r.body@ == utf8(message@),
    {
        Self::json_str(str_bytes(message))
    }

    /// The message as a JSON body; the status stays 200.
    pub fn unauthorized(message: &str) -> (r: Response)
        ensures
            r.status == 200,
            headers_view(r.headers@) == seq![("Content-Type"@, "application/json"@)],
            r.body@ == utf8(message@),
    {
        Self::json_str(str_bytes(message))
    }

    /// The message as a JSON body; the status stays 200.
    pub fn forbidden(message: &str) -> (r: Response)
        ensures
            r.status == 200,
            headers_view(r.headers@) == seq![("Content-Type"@, "application/json"@)],
            r.body@ == utf8(message@),
    {
        Self::json_str(str_bytes(message))
    }

    /// A `302` redirect to `location` with an empty body.
    pub fn redirect(location: &str) -> (r: Response)
        ensures
            r.status == 302,
            headers_view(r.headers@) == seq![("Location"@, location@)],
            r.body@.len() == 0,
    {
        Response { status: 302, headers: one_header("Location", location), body: Vec::new() }
    }

    /// The same response with another status.
    pub fn with_status(self, status: u16) -> (r: Response)
        ensures
            r.status == status,
            r.headers@ == self.headers@,
            r.body@ == self.body@,
    {
        let mut resp = self;
        resp.status = status;
        resp
    }

    /// Drops every `Content-Type` header and appends `Content-Type: content_type`.
    pub fn content_type(self, content_type: &str) -> (r: Response)
        ensures
            r.status == self.status,
            headers_view(r.headers@) == headers_view(self.headers@).filter(
                |p: (Seq<char>, Seq<char>)| p.0 != "Content-Type"@,
            ).push(("Content-Type"@, content_type@)),
            r.body@ == self.body@,
    {
        let mut resp = self;
        let ghost hv = headers_view(resp.headers@);
        let mut kept: Vec<(String, String)> = Vec::new();
        let ct = "Content-Type".to_owned();
        let mut i: usize = 0;
        let n = resp.headers.len();
        while i < n
            invariant
                n == resp.headers@.len(),
                hv == headers_view(resp.headers@),
                i <= n,
                headers_view(kept@) == hv.subrange(0, i as int).filter(
                    |p: (Seq<char>, Seq<char>)| p.0 != "Content-Type"@,
                ),
                ct@ == "Content-Type"@,
            decreases n - i,
        {
            let ghost before = kept@;
            if resp.headers[i].0 != ct {
                let k = resp.headers[i].0.clone();
                let v = resp.headers[i].1.clone();
                kept.push((k, v));
            }
            assert(hv.subrange(0, i + 1).drop_last() =~= hv.subrange(0, i as int));
            reveal(Seq::filter);
            assert(headers_view(kept@) =~= hv.subrange(0, i + 1).filter(
                |p: (Seq<char>, Seq<char>)| p.0 != "Content-Type"@,
            ));
            i = i + 1;
        }
        assert(hv.subrange(0, n as int) =~= hv);
        let ghost kv = headers_view(kept@);
        kept.push((ct, content_type.to_owned()));
        assert(headers_view(kept@) =~= kv.push(("Content-Type"@, content_type@)));
        resp.headers = kept;
        resp
    }

    /// The length of the body.
    pub fn body_len(&self) -> (r: usize)
        ensures
            r == self.body@.len(),
    {
        self.body.len()
    }

    /// A JSON response with the given status from the outcome of serialising
    /// its data: the serialised bytes, or, when serialisation failed with the
    /// given message, a JSON object saying so.
    pub fn from_json_result(status: u16, serialized: core::result::Result<Vec<u8>, String>) -> (r: Response)
        ensures
            r.status == status,
            headers_view(r.headers@) == seq![("Content-Type"@, "application/json;charset=utf-8"@)],
            match serialized {
                Ok(b) => r.body@ == b@,
                Err(e) => r.body@ == utf8(serialize_failure_json(e@)),
            },
    {
        let body = match serialized {
            Ok(b) => b,
            Err(e) => {
                let mut s = "{\"details\":".to_owned();
                let q = error::json_quote(e.as_str());
                text::push_str(&mut s, q.as_str());
                text::push_str(&mut s, ",\"error\":\"Failed to serialize JSON\"}");
                str_bytes(s.as_str())
            },
        };
        Response { status, headers: one_header("Content-Type", "application/json;charset=utf-8"), body }
    }

    /// A status-500 JSON response `{"error":"<message>"}`, as a failed handler result becomes.
    pub fn from_error_message(message: &str) -> (r: Response)
        ensures
            r.status == 500,
            headers_view(r.headers@) == seq![("Content-Type"@, "application/json"@)],
            r.body@ == utf8("{\"error\":\""@ + message@ + "\"}"@),
    {
        let mut msg = "{\"error\":\"".to_owned();
        text::push_str(&mut msg, message);
        text::push_str(&mut msg, "\"}");
        let mut resp = Response::new(500, str_bytes(msg.as_str()));
        resp.headers = one_header("Content-Type", "application/json");
        resp
    }
}

} // verus!

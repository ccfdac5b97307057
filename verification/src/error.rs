//! Application errors and the JSON answers they become.
use vstd::prelude::*;
use crate::text::{digit_char, itoa_i64, push_str, signed_decimal};
use crate::{headers_view, str_bytes, utf8, Response};

verus! {

broadcast use vstd::string::group_string_axioms;

/// An error a handler can return. The `source` of a database or internal error
/// is the text of the error that caused it.
pub enum Error {
    Business { code: i32, message: String, details: Option<String> },
    Validation { field: String, message: String },
    NotFound { resource: String, id: String },
    Unauthorized { message: String },
    Forbidden { message: String },
    Database { message: String, source: Option<String> },
    Internal { message: String, source: Option<String> },
    Custom { code: i32, message: String, status: u16, details: Option<String> },
}

/// The body of an error answer.
pub struct ErrorResponse {
    pub code: i32,
    pub message: String,
    pub details: Option<String>,
    pub field: Option<String>,
}

pub type Result<T> = core::result::Result<T, Error>;

/// The character view of an optional string.
pub open spec fn opt_view(o: Option<String>) -> Option<Seq<char>> {
    match o {
        Some(s) => Some(s@),
        None => None,
    }
}

fn opt_clone(o: &Option<String>) -> (r: Option<String>)
    ensures
        opt_view(r) == opt_view(*o),
{
    match o {
        Some(s) => Some(s.clone()),
        None => None,
    }
}

/// How `serde_json` writes one character inside a string literal: `"` and
/// `\` behind a backslash; backspace, tab, line feed, form feed and carriage
/// return as `\b \t \n \f \r`; the other characters below U+0020 as
/// `\u00` and two lower-case hex digits; every other character as it is.
pub open spec fn json_char(c: char) -> Seq<char> {
    let u = c as nat;
    if c == '"' {
        seq!['\\', '"']
    } else if c == '\\' {
        seq!['\\', '\\']
    } else if u == 8 {
        seq!['\\', 'b']
    } else if u == 9 {
        seq!['\\', 't']
    } else if u == 10 {
        seq!['\\', 'n']
    } else if u == 12 {
        seq!['\\', 'f']
    } else if u == 13 {
        seq!['\\', 'r']
    } else if u < 32 {
        seq!['\\', 'u', '0', '0', digit_char(u / 16), digit_char(u % 16)]
    } else {
        seq![c]
    }
}

/// The characters of a string, each written as in a JSON string literal.
pub open spec fn json_chars(s: Seq<char>) -> Seq<char>
    decreases s.len(),
{
    if s.len() == 0 {
        Seq::empty()
    } else {
        json_chars(s.drop_last()) + json_char(s.last())
    }
}

/// What `serde_json` writes for a string: the escaped characters in double quotes.
pub open spec fn json_string(s: Seq<char>) -> Seq<char> {
    seq!['"'] + json_chars(s) + seq!['"']
}

/// Calls `serde_json::to_string` on a string slice, which writes it as a
/// JSON string literal: in double quotes, each character as `json_char` says
/// (the escape table of `serde_json`'s serializer). Serialising a string
/// cannot fail (the crate fails only for failing `Serialize` impls and maps
/// with non-string keys), so the error arm is never taken.
#[verifier::external_body]
pub(crate) fn json_quote(s: &str) -> (r: String)
    ensures
        r@ == json_string(s@),
{
    match serde_json::to_string(s) {
        Ok(q) => q,
        Err(_) => String::new(),
    }
}

/// The JSON text of an error body, with fields in declaration order and absent
/// optional fields left out (as `serde_json` writes the derived form).
pub open spec fn error_json(code: i32, message: Seq<char>, details: Option<Seq<char>>, field: Option<Seq<char>>) -> Seq<char> {
    "{\"code\":"@ + signed_decimal(code as int) + ",\"message\":"@ + json_string(message) + match details {
        Some(d) => ",\"details\":"@ + json_string(d),
        None => Seq::empty(),
    } + match field {
        Some(f) => ",\"field\":"@ + json_string(f),
        None => Seq::empty(),
    } + "}"@
}

impl ErrorResponse {
    /// The compact JSON text of this body.
    pub fn to_json(&self) -> (r: String)
        ensures
            r@ == error_json(self.code, self.message@, opt_view(self.details), opt_view(self.field)),
    {
        let mut out = "{\"code\":".to_owned();
        let c = itoa_i64(self.code as i64);
        push_str(&mut out, c.as_str());
        push_str(&mut out, ",\"message\":");
        let m = json_quote(self.message.as_str());
        push_str(&mut out, m.as_str());
        let ghost before_details = out@;
        match &self.details {
            Some(d) => {
                push_str(&mut out, ",\"details\":");
                let q = json_quote(d.as_str());
                push_str(&mut out, q.as_str());
            },
            None => {
                assert(out@ =~= before_details + Seq::<char>::empty());
            },
        }
        let ghost before_field = out@;
        match &self.field {
            Some(f) => {
                push_str(&mut out, ",\"field\":");
                let q = json_quote(f.as_str());
                push_str(&mut out, q.as_str());
            },
            None => {
                assert(out@ =~= before_field + Seq::<char>::empty());
            },
        }
        push_str(&mut out, "}");
        assert(out@ =~= error_json(self.code, self.message@, opt_view(self.details), opt_view(self.field)));
        out
    }
}

/// The HTTP status of each kind of error.
pub open spec fn status_of(e: Error) -> u16 {
    match e {
        Error::Business { .. } => 200,
        Error::Validation { .. } => 400,
        Error::NotFound { .. } => 404,
        Error::Unauthorized { .. } => 401,
        Error::Forbidden { .. } => 403,
        Error::Database { .. } => 500,
        Error::Internal { .. } => 500,
        Error::Custom { status, .. } => status,
    }
}

/// The numeric error code of each kind of error.
pub open spec fn code_of(e: Error) -> i32 {
    match e {
        Error::Business { code, .. } => code,
        Error::Validation { .. } => 40001,
        Error::NotFound { .. } => 40401,
        Error::Unauthorized { .. } => 40101,
        Error::Forbidden { .. } => 40301,
        Error::Database { .. } => 50001,
        Error::Internal { .. } => 50002,
        Error::Custom { code, .. } => code,
    }
}

/// The message of each kind of error.
pub open spec fn message_of(e: Error) -> Seq<char> {
    match e {
        Error::Business { message, .. } => message@,
        Error::Validation { field, message } => field@ + ": "@ + message@,
        Error::NotFound { resource, id } => resource@ + " not found: "@ + id@,
        Error::Unauthorized { message } => message@,
        Error::Forbidden { message } => message@,
        Error::Database { message, .. } => message@,
        Error::Internal { message, .. } => message@,
        Error::Custom { message, .. } => message@,
    }
}

/// The details of each kind of error.
pub open spec fn details_of(e: Error) -> Option<Seq<char>> {
    match e {
        Error::Business { details, .. } => opt_view(details),
        Error::Custom { details, .. } => opt_view(details),
        _ => None,
    }
}

/// The field named by a validation error.
pub open spec fn field_of(e: Error) -> Option<Seq<char>> {
    match e {
        Error::Validation { field, .. } => Some(field@),
        _ => None,
    }
}

/// How an error reads as text.
pub open spec fn display_of(e: Error) -> Seq<char> {
    match e {
        Error::Business { message, .. } => "Business error: "@ + message@,
        Error::Validation { field, message } => "Validation error on '"@ + field@ + "': "@ + message@,
        Error::NotFound { resource, id } => "Not found: "@ + resource@ + " with id '"@ + id@ + "'"@,
        Error::Unauthorized { message } => "Unauthorized: "@ + message@,
        Error::Forbidden { message } => "Forbidden: "@ + message@,
        Error::Database { message, .. } => "Database error: "@ + message@,
        Error::Internal { message, .. } => "Internal error: "@ + message@,
        Error::Custom { message, .. } => "Custom error: "@ + message@,
    }
}

fn concat2(a: &str, b: &str) -> (r: String)
    ensures
        r@ == a@ + b@,
{
    let mut s = a.to_owned();
    push_str(&mut s, b);
    s
}

fn concat3(a: &str, b: &str, c: &str) -> (r: String)
    ensures
        r@ == a@ + b@ + c@,
{
    let mut s = a.to_owned();
    push_str(&mut s, b);
    push_str(&mut s, c);
    s
}

impl Error {
    pub fn business(code: i32, message: &str) -> (r: Error)
        ensures
            r matches Error::Business { code: c, message: m, details: None } && c == code && m@ == message@,
    {
        Error::Business { code, message: message.to_owned(), details: None }
    }

    pub fn business_with_details(code: i32, message: &str, details: &str) -> (r: Error)
        ensures
            r matches Error::Business { code: c, message: m, details: Some(d) } && c == code && m@ == message@
                && d@ == details@,
    {
        Error::Business { code, message: message.to_owned(), details: Some(details.to_owned()) }
    }

    pub fn validation(field: &str, message: &str) -> (r: Error)
        ensures
            r matches Error::Validation { field: f, message: m } && f@ == field@ && m@ == message@,
    {
        Error::Validation { field: field.to_owned(), message: message.to_owned() }
    }

    pub fn not_found(resource: &str, id: &str) -> (r: Error)
        ensures
            r matches Error::NotFound { resource: res, id: i } && res@ == resource@ && i@ == id@,
    {
        Error::NotFound { resource: resource.to_owned(), id: id.to_owned() }
    }

    pub fn unauthorized(message: &str) -> (r: Error)
        ensures
            r matches Error::Unauthorized { message: m } && m@ == message@,
    {
        Error::Unauthorized { message: message.to_owned() }
    }

    pub fn forbidden(message: &str) -> (r: Error)
        ensures
            r matches Error::Forbidden { message: m } && m@ == message@,
    {
        Error::Forbidden { message: message.to_owned() }
    }

    pub fn database(message: &str) -> (r: Error)
        ensures
            r matches Error::Database { message: m, source: None } && m@ == message@,
    {
        Error::Database { message: message.to_owned(), source: None }
    }

    /// A database error caused by another error, given by its text.
    pub fn database_with_source(message: &str, source: &str) -> (r: Error)
        ensures
            r matches Error::Database { message: m, source: Some(s) } && m@ == message@ && s@ == source@,
    {
        Error::Database { message: message.to_owned(), source: Some(source.to_owned()) }
    }

    pub fn internal(message: &str) -> (r: Error)
        ensures
            r matches Error::Internal { message: m, source: None } && m@ == message@,
    {
        Error::Internal { message: message.to_owned(), source: None }
    }

    /// An internal error caused by another error, given by its text.
    pub fn internal_with_source(message: &str, source: &str) -> (r: Error)
        ensures
            r matches Error::Internal { message: m, source: Some(s) } && m@ == message@ && s@ == source@,
    {
        Error::Internal { message: message.to_owned(), source: Some(source.to_owned()) }
    }

    pub fn custom(code: i32, message: &str, status: u16) -> (r: Error)
        ensures
            r matches Error::Custom { code: c, message: m, status: st, details: None } && c == code
                && m@ == message@ && st == status,
    {
        Error::Custom { code, message: message.to_owned(), status, details: None }
    }

    pub fn custom_with_details(code: i32, message: &str, status: u16, details: &str) -> (r: Error)
        ensures
            r matches Error::Custom { code: c, message: m, status: st, details: Some(d) } && c == code
                && m@ == message@ && st == status && d@ == details@,
    {
        Error::Custom { code, message: message.to_owned(), status, details: Some(details.to_owned()) }
    }

    /// The HTTP status this error answers with.
    pub fn status_code(&self) -> (r: u16)
        ensures
            r == status_of(*self),
    {
        match self {
            Error::Business { .. } => 200,
            Error::Validation { .. } => 400,
            Error::NotFound { .. } => 404,
            Error::Unauthorized { .. } => 401,
            Error::Forbidden { .. } => 403,
            Error::Database { .. } => 500,
            Error::Internal { .. } => 500,
            Error::Custom { status, .. } => *status,
        }
    }

    /// The numeric error code.
    pub fn error_code(&self) -> (r: i32)
        ensures
            r == code_of(*self),
    {
        match self {
            Error::Business { code, .. } => *code,
            Error::Validation { .. } => 40001,
            Error::NotFound { .. } => 40401,
            Error::Unauthorized { .. } => 40101,
            Error::Forbidden { .. } => 40301,
            Error::Database { .. } => 50001,
            Error::Internal { .. } => 50002,
            Error::Custom { code, .. } => *code,
        }
    }

    /// The message shown to clients.
    pub fn error_message(&self) -> (r: String)
        ensures
            r@ == message_of(*self),
    {
        match self {
            Error::Business { message, .. } => message.clone(),
            Error::Validation { field, message } => concat3(field.as_str(), ": ", message.as_str()),
            Error::NotFound { resource, id } => concat3(resource.as_str(), " not found: ", id.as_str()),
            Error::Unauthorized { message } => message.clone(),
            Error::Forbidden { message } => message.clone(),
            Error::Database { message, .. } => message.clone(),
            Error::Internal { message, .. } => message.clone(),
            Error::Custom { message, .. } => message.clone(),
        }
    }

    /// The details of a business or custom error.
    pub fn error_details(&self) -> (r: Option<String>)
        ensures
            opt_view(r) == details_of(*self),
    {
        match self {
            Error::Business { details, .. } => opt_clone(details),
            Error::Custom { details, .. } => opt_clone(details),
            _ => None,
        }
    }

    /// The body of the answer to this error.
    pub fn error_response(&self) -> (r: ErrorResponse)
        ensures
            r.code == code_of(*self),
            r.message@ == message_of(*self),
            opt_view(r.details) == details_of(*self),
            opt_view(r.field) == field_of(*self),
    {
        ErrorResponse {
            code: self.error_code(),
            message: self.error_message(),
            details: self.error_details(),
            field: match self {
                Error::Validation { field, .. } => Some(field.clone()),
                _ => None,
            },
        }
    }

    /// The JSON answer to this error: its status, a JSON content type, and the
    /// body `{"code":..,"message":..}` with details and field when present.
    pub fn to_response(&self) -> (r: Response)
        ensures
            r.status == status_of(*self),
            headers_view(r.headers@) == seq![("Content-Type"@, "application/json;charset=utf-8"@)],
            r.body@ == utf8(error_json(code_of(*self), message_of(*self), details_of(*self), field_of(*self))),
    {
        let er = self.error_response();
        let text = er.to_json();
        let resp = Response::json_str(str_bytes(text.as_str()));
        let mut headers: Vec<(String, String)> = Vec::new();
        headers.push(("Content-Type".to_owned(), "application/json;charset=utf-8".to_owned()));
        assert(headers_view(headers@) =~= seq![("Content-Type"@, "application/json;charset=utf-8"@)]);
        Response { status: self.status_code(), headers, body: resp.body }
    }

    /// How this error reads as text.
    pub fn to_display_string(&self) -> (r: String)
        ensures
            r@ == display_of(*self),
    {
        match self {
            Error::Business { message, .. } => concat2("Business error: ", message.as_str()),
            Error::Validation { field, message } => {
                let mut s = concat3("Validation error on '", field.as_str(), "': ");
                push_str(&mut s, message.as_str());
                s
            },
            Error::NotFound { resource, id } => {
                let mut s = concat3("Not found: ", resource.as_str(), " with id '");
                push_str(&mut s, id.as_str());
                push_str(&mut s, "'");
                s
            },
            Error::Unauthorized { message } => concat2("Unauthorized: ", message.as_str()),
            Error::Forbidden { message } => concat2("Forbidden: ", message.as_str()),
            Error::Database { message, .. } => concat2("Database error: ", message.as_str()),
            Error::Internal { message, .. } => concat2("Internal error: ", message.as_str()),
            Error::Custom { message, .. } => concat2("Custom error: ", message.as_str()),
        }
    }

    /// The text of the error that caused this one, for database and internal errors.
    pub fn source_text(&self) -> (r: Option<String>)
        ensures
            opt_view(r) == match *self {
                Error::Database { source, .. } => opt_view(source),
                Error::Internal { source, .. } => opt_view(source),
                _ => None,
            },
    {
        match self {
            Error::Database { source, .. } => opt_clone(source),
            Error::Internal { source, .. } => opt_clone(source),
            _ => None,
        }
    }
}

} // verus!

//! Requests and responses, apart from how they travel.

use vstd::prelude::*;
use vstd::string::{StrSliceExecFns, StringExecFns};
use vstd::utf8::encode_utf8;

use crate::names::{self, NameMap};
use crate::text;

verus! {

/// A request.
pub struct HttpRequest {
    pub method: String,
    pub path: String,
    pub headers: NameMap<String>,
    pub query: NameMap<String>,
}

impl HttpRequest {
    /// A request without headers or query parameters.
    pub fn new(method: &str, path: &str) -> (r: Self)
        ensures
            r.method@ == method@,
            r.path@ == path@,
            r.headers@.len() == 0,
            r.query@.len() == 0,
    {
        HttpRequest {
            method: method.to_owned(),
            path: path.to_owned(),
            headers: NameMap::new(),
            query: NameMap::new(),
        }
    }

    /// The header listed under the lowercase form of `name`.
    pub fn header(&self, name: &str) -> (r: Option<&String>)
        ensures
            match r {
                Some(v) => names::lookup(self.headers@, text::lowercase(name@)) == Some(v@),
                None => names::lookup(self.headers@, text::lowercase(name@)) is None,
            },
    {
        let lower = text::to_lowercase(name);
        self.header_listed(lower.as_str())
    }

    /// The header listed under `lower_name`.
    pub fn header_listed(&self, lower_name: &str) -> (r: Option<&String>)
        ensures
            match r {
                Some(v) => names::lookup(self.headers@, lower_name@) == Some(v@),
                None => names::lookup(self.headers@, lower_name@) is None,
            },
    {
        self.headers.get(lower_name)
    }

    /// The segments of the path.
    pub fn path_segments(&self) -> (r: Vec<String>)
        ensures
            text::views(r@) == text::segments(text::trim_start(self.path@, '/')),
    {
        text::path_segments(text::trim_start_char(self.path.as_str(), '/'))
    }
}

/// A response.
pub struct HttpResponse {
    pub status: u16,
    pub headers: NameMap<String>,
    pub body: Vec<u8>,
}

impl HttpResponse {
    /// A response without headers or body.
    pub fn new(status: u16) -> (r: Self)
        ensures
            r.status == status,
            r.headers@.len() == 0,
            r.body@.len() == 0,
    {
        HttpResponse { status, headers: NameMap::new(), body: Vec::new() }
    }

    /// A JSON response from the bytes of a serialised value, or the error of a
    /// value that could not be serialised.
    pub fn json(status: u16, serialized: Result<Vec<u8>, String>) -> (r: Result<Self, HttpError>)
        ensures
            match r {
                Ok(resp) => {
                    &&& serialized matches Ok(bytes) && resp.body@ == bytes@
                    &&& resp.status == status
                    &&& resp.headers@ == seq![("content-type"@, "application/json"@)]
                },
                Err(e) => serialized matches Err(m) && e == HttpError::Json(m),
            },
    {
        match serialized {
            Ok(bytes) => {
                let mut resp = HttpResponse::new(status);
                resp.headers.insert("content-type", "application/json".to_owned());
                resp.body = bytes;
                proof {
                    assert(resp.headers@ =~= seq![("content-type"@, "application/json"@)]);
                }
                Ok(resp)
            },
            Err(m) => Err(HttpError::Json(m)),
        }
    }

    /// A plain text response.
    pub fn text(status: u16, body: &str) -> (r: Self)
        ensures
            r.status == status,
            r.headers@ == seq![("content-type"@, "text/plain; charset=utf-8"@)],
            r.body@ == encode_utf8(body@),
    {
        let mut resp = HttpResponse::new(status);
        resp.headers.insert("content-type", "text/plain; charset=utf-8".to_owned());
        resp.body = body.as_bytes_vec();
        proof {
            assert(resp.headers@ =~= seq![("content-type"@, "text/plain; charset=utf-8"@)]);
        }
        resp
    }

    /// A redirection to `location`.
    pub fn redirect(status: u16, location: &str) -> (r: Self)
        ensures
            r.status == status,
            r.headers@ == seq![("location"@, location@)],
            r.body@.len() == 0,
    {
        let mut resp = HttpResponse::new(status);
        resp.headers.insert("location", location.to_owned());
        proof {
            assert(resp.headers@ =~= seq![("location"@, location@)]);
        }
        resp
    }

    /// Sets the header `lower_name`.
    pub fn with_listed_header(self, lower_name: &str, value: &str) -> (r: Self)
        ensures
            r.status == self.status,
            r.body == self.body,
            r.headers@ == names::put(self.headers@, lower_name@, value@),
    {
        let mut resp = self;
        resp.headers.insert(lower_name, value.to_owned());
        resp
    }

    /// Sets a header under the lowercase form of `name`.
    pub fn with_header(self, name: &str, value: &str) -> (r: Self)
        ensures
            r.status == self.status,
            r.body == self.body,
            r.headers@ == names::put(self.headers@, text::lowercase(name@), value@),
    {
        let lower = text::to_lowercase(name);
        self.with_listed_header(lower.as_str(), value)
    }

    /// Allows the response to be read from any origin.
    pub fn with_cors(self) -> (r: Self)
        ensures
            r.status == self.status,
            r.body == self.body,
            r.headers@ == names::put(self.headers@, "access-control-allow-origin"@, "*"@),
    {
        self.with_listed_header("access-control-allow-origin", "*")
    }
}

/// What can go wrong with a request.
#[derive(Debug)]
pub enum HttpError {
    Json(String),
    Fetch(String),
    InvalidRequest(String),
}

impl HttpError {
    /// The message for an error.
    pub open spec fn message(self) -> Seq<char> {
        match self {
            HttpError::Json(m) => "JSON error: "@ + m@,
            HttpError::Fetch(m) => "Fetch error: "@ + m@,
            HttpError::InvalidRequest(m) => "Invalid request: "@ + m@,
        }
    }

    /// The message for the error.
    pub fn to_string(&self) -> (s: String)
        ensures
            s@ == self.message(),
    {
        match self {
            HttpError::Json(m) => "JSON error: ".to_owned().concat(m.as_str()),
            HttpError::Fetch(m) => "Fetch error: ".to_owned().concat(m.as_str()),
            HttpError::InvalidRequest(m) => "Invalid request: ".to_owned().concat(m.as_str()),
        }
    }
}

/// A header that was set is found again, whatever the case in which it was
/// written and is asked for; every other header is found as before.
pub proof fn law_header_set_and_found(
    headers: Seq<(Seq<char>, Seq<char>)>,
    name: Seq<char>,
    asked: Seq<char>,
    value: Seq<char>,
)
    requires
        names::in_order(headers),
    ensures
        names::lookup(
            names::put(headers, text::lowercase(name), value),
            text::lowercase(asked),
        ) == (if text::lowercase(asked) == text::lowercase(name) {
            Some(value)
        } else {
            names::lookup(headers, text::lowercase(asked))
        }),
{
    names::lemma_put_lookup(headers, text::lowercase(name), value, text::lowercase(asked));
}

/// The message of an error says of which kind it is, and what went wrong.
pub proof fn law_error_message(m: String)
    ensures
        HttpError::Json(m).message() == "JSON error: "@ + m@,
        HttpError::Fetch(m).message() == "Fetch error: "@ + m@,
        HttpError::InvalidRequest(m).message() == "Invalid request: "@ + m@,
{
}

} // verus!

//! Answers to requests.

use vstd::prelude::*;

use crate::json::{Json, JsonView};

verus! {

/// What an answer carries.
#[derive(Debug, PartialEq)]
pub enum Body {
    Empty,
    Text(String),
    Json(Json),
    Bytes(Vec<u8>),
}

/// What a body holds.
#[verifier::ext_equal]
pub enum BodyView {
    Empty,
    Text(Seq<char>),
    Json(JsonView),
    Bytes(Seq<u8>),
}

impl View for Body {
    type V = BodyView;

    open spec fn view(&self) -> BodyView {
        match self {
            Body::Empty => BodyView::Empty,
            Body::Text(s) => BodyView::Text(s@),
            Body::Json(v) => BodyView::Json(v@),
            Body::Bytes(b) => BodyView::Bytes(b@),
        }
    }
}

/// An answer: status, headers in the order in which they are set, and body.
#[derive(Debug, PartialEq)]
pub struct Reply {
    pub status: u16,
    pub headers: Vec<(String, String)>,
    pub body: Body,
}

/// What an answer says.
#[verifier::ext_equal]
pub struct ReplyView {
    pub status: u16,
    pub headers: Seq<(Seq<char>, Seq<char>)>,
    pub body: BodyView,
}

/// What a list of headers says.
pub open spec fn headers_view(headers: Seq<(String, String)>) -> Seq<(Seq<char>, Seq<char>)> {
    Seq::new(headers.len(), |i: int| (headers[i].0@, headers[i].1@))
}

impl View for Reply {
    type V = ReplyView;

    open spec fn view(&self) -> ReplyView {
        ReplyView {
            status: self.status,
            headers: headers_view(self.headers@),
            body: self.body@,
        }
    }
}

impl ReplyView {
    /// An answer without headers.
    pub open spec fn new(status: u16, body: BodyView) -> ReplyView {
        ReplyView { status, headers: Seq::empty(), body }
    }

    /// A text without headers.
    pub open spec fn text(status: u16, body: Seq<char>) -> ReplyView {
        ReplyView::new(status, BodyView::Text(body))
    }

    /// A JSON value without headers.
    pub open spec fn json(status: u16, body: JsonView) -> ReplyView {
        ReplyView::new(status, BodyView::Json(body))
    }

    /// The answer with one more header.
    pub open spec fn header(self, name: Seq<char>, value: Seq<char>) -> ReplyView {
        ReplyView { headers: self.headers.push((name, value)), ..self }
    }

    /// A JSON value that is labelled as JSON.
    pub open spec fn labelled_json(status: u16, body: JsonView) -> ReplyView {
        ReplyView::json(status, body).header("content-type"@, "application/json"@)
    }

    /// An error message, as JSON.
    pub open spec fn error(status: u16, message: Seq<char>) -> ReplyView {
        ReplyView::labelled_json(
            status,
            JsonView::object().put("error"@, JsonView::Str(message)),
        )
    }

    /// A temporary redirection.
    pub open spec fn redirect(url: Seq<char>) -> ReplyView {
        ReplyView::new(307, BodyView::Empty).header("location"@, url)
    }
}

impl Reply {
    /// An answer without headers.
    pub fn new(status: u16, body: Body) -> (r: Reply)
        ensures
            r@ == ReplyView::new(status, body@),
    {
        let r = Reply { status, headers: Vec::new(), body };
        proof {
            assert(r@.headers =~= Seq::empty());
        }
        r
    }

    /// A text without headers.
    pub fn text(status: u16, body: String) -> (r: Reply)
        ensures
            r@ == ReplyView::text(status, body@),
    {
        Reply::new(status, Body::Text(body))
    }

    /// A JSON value without headers.
    pub fn json(status: u16, body: Json) -> (r: Reply)
        ensures
            r@ == ReplyView::json(status, body@),
    {
        Reply::new(status, Body::Json(body))
    }

    /// The answer with one more header.
    pub fn header(self, name: &str, value: &str) -> (r: Reply)
        ensures
            r@ == self@.header(name@, value@),
    {
        let mut headers = self.headers;
        let ghost before = headers_view(headers@);
        headers.push((name.to_owned(), value.to_owned()));
        proof {
            assert(headers_view(headers@) =~= before.push((name@, value@)));
        }
        Reply { status: self.status, headers, body: self.body }
    }

    /// A JSON value that is labelled as JSON.
    pub fn labelled_json(status: u16, body: Json) -> (r: Reply)
        ensures
            r@ == ReplyView::labelled_json(status, body@),
    {
        Reply::json(status, body).header("content-type", "application/json")
    }

    /// An error message, as JSON.
    pub fn error(status: u16, message: &str) -> (r: Reply)
        ensures
            r@ == ReplyView::error(status, message@),
    {
        Reply::labelled_json(status, Json::object().put("error", Json::string(message)))
    }

    /// A temporary redirection.
    pub fn redirect(url: &str) -> (r: Reply)
        ensures
            r@ == ReplyView::redirect(url@),
    {
        Reply::new(307, Body::Empty).header("location", url)
    }
}

/// An answer has the status and the body that it is given, and its headers in the order
/// in which they are set.
pub proof fn law_reply(
    status: u16,
    body: BodyView,
    name: Seq<char>,
    value: Seq<char>,
    reply: ReplyView,
)
    ensures
        ReplyView::new(status, body).status == status,
        ReplyView::new(status, body).body == body,
        ReplyView::new(status, body).headers.len() == 0,
        reply.header(name, value).headers == reply.headers + seq![(name, value)],
        reply.header(name, value).status == reply.status,
        reply.header(name, value).body == reply.body,
{
    assert(reply.header(name, value).headers =~= reply.headers + seq![(name, value)]);
}

/// An error is answered in JSON, with its message, and a redirect names its address and
/// has no body.
pub proof fn law_error_reply(status: u16, message: Seq<char>, url: Seq<char>)
    ensures
        ReplyView::error(status, message).status == status,
        ReplyView::error(status, message).headers == seq![("content-type"@, "application/json"@)],
        ReplyView::error(status, message).body matches BodyView::Json(body) && body.get("error"@)
            == Some(JsonView::Str(message)),
        ReplyView::redirect(url).status == 307,
        ReplyView::redirect(url).headers == seq![("location"@, url)],
        ReplyView::redirect(url).body is Empty,
        ReplyView::text(status, message).body == BodyView::Text(message),
        ReplyView::text(status, message).status == status,
{
    crate::json::lemma_puts();
    assert(ReplyView::error(status, message).headers =~= seq![
        ("content-type"@, "application/json"@),
    ]);
    assert(ReplyView::redirect(url).headers =~= seq![("location"@, url)]);
}

} // verus!

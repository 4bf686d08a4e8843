//! The HTTP vocabulary of the framework as plain values: request methods,
//! status codes, the headers it sets and the replies it builds.

use vstd::prelude::*;
use crate::text::{first_where, lemma_first_where_found, lemma_first_where_none};

verus! {

/// An HTTP request method.
pub enum Method {
    Options,
    Get,
    Post,
    Put,
    Delete,
    Head,
    Trace,
    Connect,
    Patch,
    Extension(String),
}

/// The view of a `Method`.
pub enum MethodView {
    Options,
    Get,
    Post,
    Put,
    Delete,
    Head,
    Trace,
    Connect,
    Patch,
    Extension(Seq<char>),
}

impl View for Method {
    type V = MethodView;

    open spec fn view(&self) -> MethodView {
        match self {
            Method::Options => MethodView::Options,
            Method::Get => MethodView::Get,
            Method::Post => MethodView::Post,
            Method::Put => MethodView::Put,
            Method::Delete => MethodView::Delete,
            Method::Head => MethodView::Head,
            Method::Trace => MethodView::Trace,
            Method::Connect => MethodView::Connect,
            Method::Patch => MethodView::Patch,
            Method::Extension(s) => MethodView::Extension(s@),
        }
    }
}

impl Method {
    /// Two methods are the same: the same variant, and for extensions the same name.
    pub fn same_as(&self, other: &Method) -> (r: bool)
        ensures
            r == (self@ == other@),
    {
        match (self, other) {
            (Method::Options, Method::Options) => true,
            (Method::Get, Method::Get) => true,
            (Method::Post, Method::Post) => true,
            (Method::Put, Method::Put) => true,
            (Method::Delete, Method::Delete) => true,
            (Method::Head, Method::Head) => true,
            (Method::Trace, Method::Trace) => true,
            (Method::Connect, Method::Connect) => true,
            (Method::Patch, Method::Patch) => true,
            (Method::Extension(a), Method::Extension(b)) => *a == *b,
            _ => false,
        }
    }
}

/// An HTTP status code by its number.
pub struct StatusCode(pub u16);

/// The standard reason phrase of a status code, as hyper's
/// `StatusCode::canonical_reason` gives it (`None` for unregistered codes).
pub uninterp spec fn canonical_reason(code: u16) -> Option<Seq<char>>;

/// Calls hyper's `StatusCode::canonical_reason` on the code numbered `code`;
/// codes outside `100..=599` have no `StatusCode` (`try_from` fails) and,
/// like every unregistered code, no phrase. The contract says only that the
/// phrase is the named result for `code`.
#[verifier::external_body]
pub(crate) fn reason_phrase(code: u16) -> (r: Option<&'static str>)
    ensures
        match r {
            Some(s) => canonical_reason(code) == Some(s@),
            None => canonical_reason(code) is None,
        },
{
    match hyper::StatusCode::try_from(code) {
        Ok(status) => status.canonical_reason(),
        Err(_) => None,
    }
}

/// The phrase a reply for `code` carries: the reason phrase, or nothing.
pub open spec fn reason_text(code: u16) -> Seq<char> {
    match canonical_reason(code) {
        Some(s) => s,
        None => seq![],
    }
}

/// The reason phrase of `code`, or the empty string when it has none.
pub fn reason_or_empty(code: u16) -> (r: &'static str)
    ensures
        r@ == reason_text(code),
{
    proof {
        reveal_strlit("");
    }
    match reason_phrase(code) {
        Some(s) => s,
        None => "",
    }
}

/// The media types the framework names.
#[derive(PartialEq, Eq, Structural, Clone, Copy, Debug)]
pub enum ContentKind {
    Plaintext,
    Json,
    Html,
    Jpeg,
    Png,
    Xml,
}

/// The headers the framework sets.
#[derive(PartialEq, Eq, Structural, Clone, Copy, Debug)]
pub enum Header {
    ContentLength(u64),
    ContentType(ContentKind),
}

/// Whether two headers are of the same kind (and so replace one another).
pub open spec fn same_kind(a: Header, b: Header) -> bool {
    match (a, b) {
        (Header::ContentLength(_), Header::ContentLength(_)) => true,
        (Header::ContentType(_), Header::ContentType(_)) => true,
        _ => false,
    }
}

/// Setting a header replaces the first one of its kind in place, or adds it at the end.
pub open spec fn set_header(headers: Seq<Header>, h: Header) -> Seq<Header> {
    match first_where(headers, |x: Header| same_kind(x, h)) {
        Some(i) => headers.update(i, h),
        None => headers.push(h),
    }
}

/// A reply: status code, headers in order, body.
pub struct Reply {
    pub status: u16,
    pub headers: Vec<Header>,
    pub body: String,
}

/// The view of a `Reply`.
pub struct ReplyView {
    pub status: u16,
    pub headers: Seq<Header>,
    pub body: Seq<char>,
}

impl View for Reply {
    type V = ReplyView;

    open spec fn view(&self) -> ReplyView {
        ReplyView { status: self.status, headers: self.headers@, body: self.body@ }
    }
}

/// The view of a fresh reply: `200 OK`, no headers, empty body.
pub open spec fn empty_reply() -> ReplyView {
    ReplyView { status: 200, headers: seq![], body: seq![] }
}

impl Reply {
    /// A fresh reply: `200 OK`, no headers, empty body.
    pub fn new() -> (r: Reply)
        ensures
            r@ == empty_reply(),
    {
        Reply { status: 200, headers: Vec::new(), body: String::new() }
    }

    /// The same reply with another status.
    pub fn with_status(self, status: u16) -> (r: Reply)
        ensures
            r@ == (ReplyView { status, ..self@ }),
    {
        Reply { status, headers: self.headers, body: self.body }
    }

    /// The same reply with `h` set, as `set_header` says.
    pub fn with_header(self, h: Header) -> (r: Reply)
        ensures
            r@ == (ReplyView { headers: set_header(self@.headers, h), ..self@ }),
    {
        let mut headers = self.headers;
        let ghost p = |x: Header| same_kind(x, h);
        let mut i: usize = 0;
        while i < headers.len()
            invariant
                headers@ == self.headers@,
                p == (|x: Header| same_kind(x, h)),
                i <= headers@.len(),
                forall|j: int| 0 <= j < i ==> !p(#[trigger] headers@[j]),
            decreases headers@.len() - i,
        {
            let same = match (headers[i], h) {
                (Header::ContentLength(_), Header::ContentLength(_)) => true,
                (Header::ContentType(_), Header::ContentType(_)) => true,
                _ => false,
            };
            if same {
                proof {
                    lemma_first_where_found(headers@, p, i as int);
                }
                headers.set(i, h);
                return Reply { status: self.status, headers, body: self.body };
            }
            i = i + 1;
        }
        proof {
            lemma_first_where_none(headers@, p);
        }
        headers.push(h);
        Reply { status: self.status, headers, body: self.body }
    }

    /// The same reply with another body.
    pub fn with_body(self, body: String) -> (r: Reply)
        ensures
            r@ == (ReplyView { body: body@, ..self@ }),
    {
        Reply { status: self.status, headers: self.headers, body }
    }
}

} // verus!

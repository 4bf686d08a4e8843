//! Turning what a handler returns into a reply, where building the reply may fail.

use vstd::prelude::*;
use vstd::string::*;
use crate::errors::Error;
use crate::framework::responder::{json_reply, text_reply};
use crate::http::{empty_reply, set_header, ContentKind, Header, Reply, ReplyView};
use crate::text::{byte_len, bytes_of};

verus! {

/// Something a handler can answer with; answering may fail.
pub trait Responder: Sized {
    /// What `respond` gives.
    spec fn outcome(self) -> Result<ReplyView, Error>;

    fn respond(self) -> (r: Result<Reply, Error>)
        ensures
            match r {
                Ok(x) => self.outcome() == Ok::<ReplyView, Error>(x@),
                Err(e) => self.outcome() == Err::<ReplyView, Error>(e),
            },
    ;
}

impl<'a> Responder for &'a str {
    open spec fn outcome(self) -> Result<ReplyView, Error> {
        Ok(text_reply(self@))
    }

    fn respond(self) -> (r: Result<Reply, Error>) {
        self.to_owned().respond()
    }
}

impl Responder for () {
    open spec fn outcome(self) -> Result<ReplyView, Error> {
        Ok(empty_reply())
    }

    fn respond(self) -> (r: Result<Reply, Error>) {
        Ok(Reply::new().with_status(200))
    }
}

impl Responder for String {
    open spec fn outcome(self) -> Result<ReplyView, Error> {
        Ok(text_reply(self@))
    }

    fn respond(self) -> (r: Result<Reply, Error>) {
        let len = byte_len(self.as_str()) as u64;
        proof {
            reveal_with_fuel(crate::text::first_where, 2);
        }
        assert(set_header(seq![], Header::ContentLength(len)) =~= seq![Header::ContentLength(len)]);
        assert(set_header(seq![Header::ContentLength(len)], Header::ContentType(ContentKind::Plaintext))
            =~= seq![Header::ContentLength(len), Header::ContentType(ContentKind::Plaintext)]);
        Ok(Reply::new().with_status(200).with_header(Header::ContentLength(len)).with_header(
            Header::ContentType(ContentKind::Plaintext),
        ).with_body(self))
    }
}

/// A value to be answered as JSON.
pub struct Json<T>(T);

impl<T> Json<T> {
    /// The reply for the JSON text that the value serialized to, or the error
    /// that serializing it gave.
    pub fn respond_with(serialized: Result<String, Error>) -> (r: Result<Reply, Error>)
        ensures
            match serialized {
                Ok(json) => r matches Ok(reply) && reply@ == json_reply(json@),
                Err(e) => r == Err::<Reply, Error>(e),
            },
    {
        let json = match serialized {
            Ok(json) => json,
            Err(e) => {
                return Err(e);
            },
        };
        let ghost len = bytes_of(json@).len() as u64;
        proof {
            reveal_with_fuel(crate::text::first_where, 3);
        }
        assert(set_header(
            seq![Header::ContentLength(len), Header::ContentType(ContentKind::Plaintext)],
            Header::ContentType(ContentKind::Json),
        ) =~= seq![Header::ContentLength(len), Header::ContentType(ContentKind::Json)]);
        let resp = match json.respond() {
            Ok(resp) => resp,
            Err(e) => {
                return Err(e);
            },
        };
        let resp = resp.with_header(Header::ContentType(ContentKind::Json));
        Ok(resp)
    }
}

/// A reply to be compressed; it answers as the value it wraps.
pub struct Gzip<T>(pub T);

impl<T: Responder> Responder for Gzip<T> {
    open spec fn outcome(self) -> Result<ReplyView, Error> {
        self.0.outcome()
    }

    fn respond(self) -> (r: Result<Reply, Error>) {
        let inner = self.0.respond();
        inner
    }
}

impl Responder for Reply {
    open spec fn outcome(self) -> Result<ReplyView, Error> {
        Ok(self@)
    }

    fn respond(self) -> (r: Result<Reply, Error>) {
        Ok(self)
    }
}

/// The answer "not found".
pub struct NotFound;

impl Responder for NotFound {
    open spec fn outcome(self) -> Result<ReplyView, Error> {
        Ok(ReplyView { status: 404, headers: seq![], body: seq![] })
    }

    fn respond(self) -> (r: Result<Reply, Error>) {
        Ok(Reply::new().with_status(404))
    }
}

/// A text answers the same whether it is given as a `&str` or as a `String`:
/// `200`, the text as body, and a Content-Length that counts its UTF-8 bytes.
pub proof fn lemma_str_answers_as_string(s: &str, t: String)
    requires
        s@ == t@,
    ensures
        Responder::outcome(s) == Responder::outcome(t),
        Responder::outcome(s) matches Ok(r) && r.status == 200 && r.body == s@ && r.headers[0]
            == Header::ContentLength(s.spec_bytes().len() as u64),
{
}

} // verus!

//! Turning what a handler returns into a reply.

use vstd::prelude::*;
use vstd::string::*;
use crate::http::{
    empty_reply, reason_phrase, reason_text, set_header, ContentKind, Header, Reply, ReplyView,
    StatusCode,
};
use crate::text::{byte_len, bytes_of};
use super::errors::{Error, ErrorKind};

verus! {

/// Something a handler can answer with.
pub trait Responder: Sized {
    /// The reply that `respond` builds.
    spec fn reply_of(self) -> ReplyView;

    fn respond(self) -> (r: Reply)
        ensures
            r@ == self.reply_of(),
    ;
}

/// The reply for a bare status: that status and its reason phrase as the body.
pub open spec fn status_reply(code: u16) -> ReplyView {
    ReplyView { status: code, headers: seq![], body: reason_text(code) }
}

/// The reply for a text body: `200`, its length in bytes, plain text.
pub open spec fn text_reply(body: Seq<char>) -> ReplyView {
    ReplyView {
        status: 200,
        headers: seq![
            Header::ContentLength(bytes_of(body).len() as u64),
            Header::ContentType(ContentKind::Plaintext),
        ],
        body,
    }
}

/// The status an error is answered with: `400` for a request body that did
/// not decode, `500` for anything else.
pub open spec fn error_status(kind: ErrorKind) -> u16 {
    match kind {
        ErrorKind::Serde(_) => 400,
        _ => 500,
    }
}

/// The reply for status `code` whose reason phrase is `reason`: that status,
/// no headers, and the phrase (or nothing) as the body.
pub fn reply_for_status(code: u16, reason: Option<&str>) -> (r: Reply)
    ensures
        r@ == (ReplyView {
            status: code,
            headers: seq![],
            body: match reason {
                Some(s) => s@,
                None => seq![],
            },
        }),
{
    let reason = match reason {
        Some(s) => s.to_owned(),
        None => String::new(),
    };
    let resp = Reply::new().with_status(code).with_body(reason);
    resp
}

impl Responder for StatusCode {
    open spec fn reply_of(self) -> ReplyView {
        status_reply(self.0)
    }

    fn respond(self) -> (r: Reply) {
        let reason = reason_phrase(self.0);
        reply_for_status(self.0, reason)
    }
}

impl Responder for Error {
    open spec fn reply_of(self) -> ReplyView {
        status_reply(error_status(self.kind_of()))
    }

    fn respond(self) -> (r: Reply) {
        let status = match self.kind() {
            ErrorKind::Serde(_) => StatusCode(400),
            _ => StatusCode(500),
        };
        status.respond()
    }
}

impl<'a> Responder for &'a str {
    open spec fn reply_of(self) -> ReplyView {
        text_reply(self@)
    }

    fn respond(self) -> (r: Reply) {
        self.to_owned().respond()
    }
}

impl Responder for () {
    open spec fn reply_of(self) -> ReplyView {
        empty_reply()
    }

    fn respond(self) -> (r: Reply) {
        Reply::new().with_status(200)
    }
}

impl Responder for String {
    open spec fn reply_of(self) -> ReplyView {
        text_reply(self@)
    }

    fn respond(self) -> (r: Reply) {
        let len = byte_len(self.as_str()) as u64;
        let r = Reply::new().with_status(200).with_header(Header::ContentLength(len)).with_header(
            Header::ContentType(ContentKind::Plaintext),
        );
        proof {
            reveal_with_fuel(crate::text::first_where, 2);
        }
        assert(set_header(seq![], Header::ContentLength(len)) =~= seq![Header::ContentLength(len)]);
        assert(set_header(seq![Header::ContentLength(len)], Header::ContentType(ContentKind::Plaintext))
            =~= seq![Header::ContentLength(len), Header::ContentType(ContentKind::Plaintext)]);
        r.with_body(self)
    }
}

impl Responder for Reply {
    open spec fn reply_of(self) -> ReplyView {
        self@
    }

    fn respond(self) -> (r: Reply) {
        self
    }
}

/// A value to be answered as JSON.
pub struct Json<T>(pub T);

/// The reply for a JSON text: the text reply, with the content type set to JSON.
pub open spec fn json_reply(json: Seq<char>) -> ReplyView {
    ReplyView {
        status: 200,
        headers: seq![
            Header::ContentLength(bytes_of(json).len() as u64),
            Header::ContentType(ContentKind::Json),
        ],
        body: json,
    }
}

impl<T> Json<T> {
    /// The reply for the JSON text that `self.0` serialized to, or the error
    /// that serializing it gave (`TryResponder::try_respond`).
    pub fn try_respond_with(serialized: Result<String, Error>) -> (r: Result<Reply, Error>)
        ensures
            match serialized {
                Ok(json) => r matches Ok(reply) && reply@ == json_reply(json@),
                Err(e) => r == Err::<Reply, Error>(e),
            },
    {
        match serialized {
            Ok(json) => {
                let ghost len = bytes_of(json@).len() as u64;
                proof {
                    reveal_with_fuel(crate::text::first_where, 3);
                }
                assert(set_header(
                    seq![Header::ContentLength(len), Header::ContentType(ContentKind::Plaintext)],
                    Header::ContentType(ContentKind::Json),
                ) =~= seq![Header::ContentLength(len), Header::ContentType(ContentKind::Json)]);
                let resp = json.respond().with_header(Header::ContentType(ContentKind::Json));
                Ok(resp)
            },
            Err(e) => Err(e),
        }
    }

    /// What a JSON value answers with: its reply, or, when it could not be
    /// serialized, the error's reply.
    pub fn respond_with(serialized: Result<String, Error>) -> (r: Reply)
        ensures
            r@ == match serialized {
                Ok(json) => json_reply(json@),
                Err(e) => e.reply_of(),
            },
    {
        match Self::try_respond_with(serialized) {
            Ok(reply) => reply,
            Err(e) => e.respond(),
        }
    }
}

/// A text reply says `200`, carries the text as its body, counts the text's
/// UTF-8 bytes (what `str::len` counts) in its Content-Length, and marks it
/// plain text.
pub proof fn lemma_text_reply_counts_bytes(body: Seq<char>)
    ensures
        text_reply(body).status == 200,
        text_reply(body).body == body,
        text_reply(body).headers.len() == 2,
        text_reply(body).headers[0] == Header::ContentLength(
            vstd::utf8::encode_utf8(body).len() as u64,
        ),
        text_reply(body).headers[1] == Header::ContentType(ContentKind::Plaintext),
{
}

/// The JSON reply for a text is the plain-text reply for it with only the
/// content type set to JSON; so its Content-Length counts the text's UTF-8 bytes.
pub proof fn lemma_json_reply_is_text_reply_as_json(json: Seq<char>)
    ensures
        json_reply(json).status == text_reply(json).status,
        json_reply(json).body == text_reply(json).body,
        json_reply(json).headers == set_header(
            text_reply(json).headers,
            Header::ContentType(ContentKind::Json),
        ),
        json_reply(json).headers[0] == Header::ContentLength(
            vstd::utf8::encode_utf8(json).len() as u64,
        ),
{
    reveal_with_fuel(crate::text::first_where, 3);
    assert(set_header(text_reply(json).headers, Header::ContentType(ContentKind::Json))
        =~= json_reply(json).headers);
}

} // verus!

//! Serving files under a root directory: where a request's file lies and
//! how its contents are answered.

use vstd::prelude::*;
use vstd::string::*;
use crate::http::{set_header, ContentKind, Header, Reply, ReplyView};
use crate::paths::{extension, path_extension, push_path, push_path_string};
use crate::text::{byte_len, bytes_of, str_eq};

verus! {

/// The media type of a file extension, for the extensions the server knows.
pub open spec fn content_type_for(ext: Seq<char>) -> Option<ContentKind> {
    if ext == "jpeg"@ || ext == "jpg"@ {
        Some(ContentKind::Jpeg)
    } else if ext == "png"@ {
        Some(ContentKind::Png)
    } else if ext == "txt"@ {
        Some(ContentKind::Plaintext)
    } else if ext == "html"@ {
        Some(ContentKind::Html)
    } else if ext == "xml"@ {
        Some(ContentKind::Xml)
    } else {
        None
    }
}

/// The media type of a file extension, for the extensions the server knows.
pub fn get_content_type(ext: &str) -> (r: Option<ContentKind>)
    ensures
        r == content_type_for(ext@),
{
    if str_eq(ext, "jpeg") || str_eq(ext, "jpg") {
        Some(ContentKind::Jpeg)
    } else if str_eq(ext, "png") {
        Some(ContentKind::Png)
    } else if str_eq(ext, "txt") {
        Some(ContentKind::Plaintext)
    } else if str_eq(ext, "html") {
        Some(ContentKind::Html)
    } else if str_eq(ext, "xml") {
        Some(ContentKind::Xml)
    } else {
        None
    }
}

/// The media type of the file at `path`, by its extension.
pub open spec fn content_type_of_path(path: Seq<char>) -> Option<ContentKind> {
    match path_extension(path) {
        Some(e) => content_type_for(e),
        None => None,
    }
}

/// The reply carrying the contents of the file at `path`: its length in bytes
/// and, when the extension is known, its media type.
pub open spec fn file_reply(path: Seq<char>, body: Seq<char>) -> ReplyView {
    ReplyView {
        status: 200,
        headers: match content_type_of_path(path) {
            Some(k) => seq![Header::ContentLength(bytes_of(body).len() as u64), Header::ContentType(k)],
            None => seq![Header::ContentLength(bytes_of(body).len() as u64)],
        },
        body,
    }
}

/// Serves the files under a directory.
pub struct StaticRouter {
    root: String,
}

impl StaticRouter {
    pub closed spec fn root_of(self) -> Seq<char> {
        self.root@
    }

    /// A router for the directory at `root`, given in canonical form.
    pub fn new(root: String) -> (r: Self)
        ensures
            r.root_of() == root@,
    {
        StaticRouter { root }
    }

    /// The path of the file a request for `req_path` reads: the root with
    /// `req_path` pushed onto it.
    pub fn file_path(&self, req_path: &str) -> (r: String)
        ensures
            r@ == push_path(push_path(seq![], self.root_of()), req_path@),
    {
        let path = String::new();
        let path = push_path_string(path, self.root.as_str());
        push_path_string(path, req_path)
    }

    /// The reply for the contents `body` read from the file at `path`.
    pub fn file_response(&self, path: &str, body: String) -> (r: Reply)
        ensures
            r@ == file_reply(path@, body@),
    {
        let content_type = match extension(path) {
            Some(ext) => get_content_type(ext.as_str()),
            None => None,
        };
        let len = byte_len(body.as_str()) as u64;
        proof {
            reveal_with_fuel(crate::text::first_where, 2);
        }
        assert(set_header(seq![], Header::ContentLength(len)) =~= seq![Header::ContentLength(len)]);
        let resp = Reply::new().with_header(Header::ContentLength(len)).with_body(body);
        match content_type {
            Some(content_type) => {
                assert(set_header(seq![Header::ContentLength(len)], Header::ContentType(content_type))
                    =~= seq![Header::ContentLength(len), Header::ContentType(content_type)]);
                resp.with_header(Header::ContentType(content_type))
            },
            None => resp,
        }
    }
}

/// A file reply says `200`, carries the file's text as its body, and counts
/// that text's UTF-8 bytes in its Content-Length, the same header a plain-text
/// reply of that text carries; a media type follows only for a known extension.
pub proof fn lemma_file_reply_counts_bytes(path: Seq<char>, body: Seq<char>)
    ensures
        file_reply(path, body).status == 200,
        file_reply(path, body).body == body,
        file_reply(path, body).headers[0] == Header::ContentLength(
            vstd::utf8::encode_utf8(body).len() as u64,
        ),
        file_reply(path, body).headers[0] == crate::framework::responder::text_reply(body).headers[0],
        file_reply(path, body).headers.len() == (if content_type_of_path(path) is Some {
            2int
        } else {
            1int
        }),
        content_type_of_path(path) matches Some(k) ==> file_reply(path, body).headers[1]
            == Header::ContentType(k),
{
}

} // verus!

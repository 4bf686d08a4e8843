//! The framework's errors: what went wrong, and the text that describes it.

use vstd::prelude::*;

verus! {

/// The kind of an error. The variants that stand for an error of another
/// library carry that error's description.
pub enum ErrorKind {
    Msg(String),
    Hyper(String),
    Serde(String),
    Io(String),
    Db(String),
    UnknownContentType(String),
}

/// The description of an error of kind `kind`: the message itself, the
/// description of the error it wraps, or a fixed text for an unknown content type.
pub open spec fn kind_description(kind: ErrorKind) -> Seq<char> {
    match kind {
        ErrorKind::Msg(s) => s@,
        ErrorKind::Hyper(d) => d@,
        ErrorKind::Serde(d) => d@,
        ErrorKind::Io(d) => d@,
        ErrorKind::Db(d) => d@,
        ErrorKind::UnknownContentType(_) => "unknown content type"@,
    }
}

/// An error of the framework.
pub struct Error {
    kind: ErrorKind,
}

impl Error {
    pub closed spec fn kind_of(self) -> ErrorKind {
        self.kind
    }

    /// An error of the given kind.
    pub fn from_kind(kind: ErrorKind) -> (r: Error)
        ensures
            r.kind_of() == kind,
    {
        Error { kind }
    }

    /// The kind of this error.
    pub fn kind(&self) -> (r: &ErrorKind)
        ensures
            *r == self.kind_of(),
    {
        &self.kind
    }

    /// The text that describes this error.
    pub fn description(&self) -> (r: &str)
        ensures
            r@ == kind_description(self.kind_of()),
    {
        match &self.kind {
            ErrorKind::Msg(s) => s.as_str(),
            ErrorKind::Hyper(d) => d.as_str(),
            ErrorKind::Serde(d) => d.as_str(),
            ErrorKind::Io(d) => d.as_str(),
            ErrorKind::Db(d) => d.as_str(),
            ErrorKind::UnknownContentType(_) => "unknown content type",
        }
    }
}

} // verus!

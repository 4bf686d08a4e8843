//! The application's errors: a message, or an error of the HTTP or JSON layer
//! carried by its description.

use vstd::prelude::*;

verus! {

/// The kind of an error; the variants for another library's error carry its description.
pub enum ErrorKind {
    Msg(String),
    Hyper(String),
    Serde(String),
}

/// The description of an error of kind `kind`.
pub open spec fn kind_description(kind: ErrorKind) -> Seq<char> {
    match kind {
        ErrorKind::Msg(s) => s@,
        ErrorKind::Hyper(d) => d@,
        ErrorKind::Serde(d) => d@,
    }
}

/// An error of the application.
pub struct Error {
    kind: ErrorKind,
}

impl Error {
    pub closed spec fn kind_of(self) -> ErrorKind {
        self.kind
    }

    /// An error of the given kind.
    pub fn from_kind(kind: ErrorKind) -> (r: Error)
        ensures
            r.kind_of() == kind,
    {
        Error { kind }
    }

    /// The kind of this error.
    pub fn kind(&self) -> (r: &ErrorKind)
        ensures
            *r == self.kind_of(),
    {
        &self.kind
    }

    /// The text that describes this error.
    pub fn description(&self) -> (r: &str)
        ensures
            r@ == kind_description(self.kind_of()),
    {
        match &self.kind {
            ErrorKind::Msg(s) => s.as_str(),
            ErrorKind::Hyper(d) => d.as_str(),
            ErrorKind::Serde(d) => d.as_str(),
        }
    }
}

} // verus!

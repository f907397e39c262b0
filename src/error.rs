//! The one error type of the library: a kind and a readable message.
use vstd::prelude::*;

verus! {

/// What went wrong, as a caller may want to tell it apart.
#[derive(Clone, Copy, Debug, PartialEq, Eq, Structural)]
pub enum ErrorKind {
    /// A name, path, handle or option that the engine cannot take, or a
    /// database that does not exist and was not to be created.
    InvalidArgument,
    /// The operation needs something the column family was not opened with.
    NotSupported,
    /// A transaction lost to a concurrent write and was not committed.
    Busy,
    /// The directory of the database could not be made.
    Io,
}

#[derive(Debug)]
pub struct Error {
    kind: ErrorKind,
    message: String,
}

impl Error {
    pub closed spec fn spec_kind(&self) -> ErrorKind {
        self.kind
    }

    pub closed spec fn spec_message(&self) -> Seq<char> {
        self.message@
    }

    pub fn new(kind: ErrorKind, message: String) -> (e: Error)
        ensures
            e.spec_kind() == kind,
            e.spec_message() == message@,
    {
        Error { kind, message }
    }

    pub fn kind(&self) -> (k: ErrorKind)
        ensures
            k == self.spec_kind(),
    {
        self.kind
    }

    /// The message carried by the error.
    pub fn into_string(self) -> (s: String)
        ensures
            s@ == self.spec_message(),
    {
        self.message
    }
}

} // verus!

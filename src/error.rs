//! Library error types.
use vstd::prelude::*;

verus! {

/// Kinds of errors.
#[derive(Clone, Copy, Debug, PartialEq, Eq, Structural)]
pub enum ErrorKind {
    /// Invalid argument or other parameter.
    Argument,
    /// Failure in a cryptographic primitive.
    Crypto,
    /// File not found at the provided path.
    FileNotFound,
    /// Input/output error.
    Io,
    /// A length-prefixed section does not fit its prefix.
    Overflow,
    /// Error parsing data.
    Parse,
    /// Unrepresentable path or unsupported filesystem object.
    Path,
}

impl ErrorKind {
    /// Short human-readable description of this kind of error.
    pub fn description(&self) -> (r: &'static str) {
        match self {
            ErrorKind::Argument => "invalid argument",
            ErrorKind::Crypto => "crypto failure",
            ErrorKind::FileNotFound => "file not found",
            ErrorKind::Io => "I/O error",
            ErrorKind::Overflow => "value overflowed",
            ErrorKind::Parse => "parse error",
            ErrorKind::Path => "invalid path",
        }
    }
}

/// Anything that can go wrong when building an archive.
#[derive(Clone, Copy, Debug, PartialEq, Eq, Structural)]
pub struct Error {
    /// What kind of error this is.
    pub kind: ErrorKind,
}

impl Error {
    /// Create an error of the given kind.
    pub fn new(kind: ErrorKind) -> (r: Error)
        ensures
            r.kind == kind,
    {
        Error { kind }
    }

    /// The kind of this error.
    pub fn kind(&self) -> (r: ErrorKind)
        ensures
            r == self.kind,
    {
        self.kind
    }
}

} // verus!

//! The error taxonomy of the library.

use vstd::prelude::*;

verus! {

/// The kind of a failure, as a plain value that callers and tests compare.
#[derive(Clone, Copy, PartialEq, Eq, Structural, Debug)]
pub enum ErrorKind {
    /// A malformed human-readable size string.
    InvalidSize,
    /// A local path that cannot be represented as text.
    InvalidPath,
    /// An object that is absent where one was explicitly required.
    NotFound,
    /// Any transport, protocol or authentication failure of the gateway,
    /// passed through opaquely.
    GatewayError,
    /// Object content that is not valid UTF-8 where text was expected.
    EncodingError,
    /// A local filesystem read or write failure.
    LocalIOError,
}

/// An error of the library: a taxonomy kind together with a
/// human-readable message.
#[derive(Debug)]
pub struct CliError {
    pub kind: ErrorKind,
    pub message: String,
}

impl CliError {
    /// Builds an error of the given kind carrying the given message.
    pub fn new(kind: ErrorKind, message: String) -> (r: CliError)
        ensures
            r.kind == kind,
            r.message@ == message@,
    {
        CliError { kind, message }
    }
}

} // verus!

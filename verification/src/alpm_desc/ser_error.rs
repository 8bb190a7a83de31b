//! Errors for serializing the description format.

use vstd::prelude::*;

verus! {

/// Errors that can occur during serialization.
#[derive(Debug, Clone, Copy, PartialEq, Eq, Structural)]
pub enum ErrorKind {
    /// Some i/o error occurred.
    Io,
    /// This format does not support the given operation.
    Unsupported,
    /// The value being serialized reported an error.
    Custom,
}

/// The error type for serialization.
#[derive(Debug, Clone)]
pub struct Error {
    /// What went wrong.
    pub kind: ErrorKind,
    /// A message from the underlying failure, when there is one.
    pub inner: Option<String>,
}

impl Error {
    /// Build an error from its kind alone.
    pub fn from_kind(kind: ErrorKind) -> (e: Error)
        ensures
            e.kind == kind,
            e.inner is None,
    {
        Error { kind, inner: None }
    }

    /// The underlying failure message, when there is one.
    pub fn source(&self) -> (r: Option<&String>)
        ensures
            r is Some <==> self.inner is Some,
    {
        self.inner.as_ref()
    }
}

} // verus!

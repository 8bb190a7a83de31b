//! Errors for deserializing the description format.

use vstd::prelude::*;

verus! {

/// Errors that can occur during deserialization.
#[derive(Debug, Clone, PartialEq)]
pub enum ErrorKind {
    /// This format does not support the given operation.
    Unsupported(&'static str),
    /// The deserializer expected a bool.
    ExpectedBool,
    /// The deserializer expected a hex-encoded byte.
    ExpectedByte,
    /// The deserializer expected an unsigned integer.
    ExpectedUnsigned,
    /// The deserializer expected a signed integer.
    ExpectedSigned,
    /// The deserializer expected a char.
    ExpectedChar,
    /// The deserializer expected a key (`%NAME%`).
    ExpectedKey,
    /// The deserializer expected an empty string.
    ExpectedEmpty,
    /// The record being read reported its own error.
    Custom(String),
}

/// The kinds without their payloads, for stating contracts.
#[derive(PartialEq, Eq, Structural, Clone, Copy, Debug)]
pub enum SpecDeError {
    Unsupported,
    ExpectedBool,
    ExpectedByte,
    ExpectedUnsigned,
    ExpectedSigned,
    ExpectedChar,
    ExpectedKey,
    ExpectedEmpty,
    Custom,
}

/// Which bare kind an `ErrorKind` falls under.
pub open spec fn kind_of(k: ErrorKind) -> SpecDeError {
    match k {
        ErrorKind::Unsupported(_) => SpecDeError::Unsupported,
        ErrorKind::ExpectedBool => SpecDeError::ExpectedBool,
        ErrorKind::ExpectedByte => SpecDeError::ExpectedByte,
        ErrorKind::ExpectedUnsigned => SpecDeError::ExpectedUnsigned,
        ErrorKind::ExpectedSigned => SpecDeError::ExpectedSigned,
        ErrorKind::ExpectedChar => SpecDeError::ExpectedChar,
        ErrorKind::ExpectedKey => SpecDeError::ExpectedKey,
        ErrorKind::ExpectedEmpty => SpecDeError::ExpectedEmpty,
        ErrorKind::Custom(_) => SpecDeError::Custom,
    }
}

/// The error type for deserialization.
#[derive(Debug, Clone)]
pub struct Error {
    kind: ErrorKind,
    inner: Option<String>,
}

impl Error {
    /// Build an error from its kind alone.
    pub fn from_kind(kind: ErrorKind) -> (e: Error)
        ensures
            e@ == kind_of(kind),
            e.spec_kind() == kind,
            !e.has_source(),
    {
        Error { kind, inner: None }
    }

    /// Get the kind of this error.
    pub fn kind(&self) -> (k: &ErrorKind)
        ensures
            k == &self.spec_kind(),
    {
        &self.kind
    }

    /// The kind carried, for contracts.
    pub closed spec fn spec_kind(&self) -> ErrorKind {
        self.kind
    }

    /// Whether a message from an underlying failure is carried.
    pub closed spec fn has_source(&self) -> bool {
        self.inner is Some
    }

    /// The underlying failure message, when there is one.
    pub fn sync_source(&self) -> (r: Option<&String>)
        ensures
            r is Some <==> self.has_source(),
    {
        self.inner.as_ref()
    }
}

impl View for Error {
    type V = SpecDeError;

    closed spec fn view(&self) -> SpecDeError {
        kind_of(self.kind)
    }
}

} // verus!

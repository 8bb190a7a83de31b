//! The error type of the library: a kind saying what went wrong, and an
//! optional message from the underlying failure.

use vstd::prelude::*;

verus! {

/// The different kinds of error that can occur in this library.
#[derive(Debug, Clone, PartialEq)]
pub enum ErrorKind {
    /// The specified root directory is not valid.
    BadRootPath(String),
    /// The specified database directory is not valid.
    BadDatabasePath(String),
    /// The extension provided is not a valid database extension.
    BadSyncDatabaseExt(String),
    /// The specified sync database directory is not valid.
    BadSyncDatabasePath(String),
    /// A general error creating the lockfile, for example permissions.
    CannotAcquireLock(String),
    /// There was a lockfile already present.
    LockAlreadyExists(String),
    /// A lock cannot be released.
    CannotReleaseLock(String),
    /// A given database name is invalid.
    InvalidDatabaseName(String),
    /// A given database name already exists.
    DatabaseAlreadyExists(String),
    /// Cannot find a database with the given name.
    DatabaseNotFound(String),
    /// There was an unexpected error when creating a database.
    CannotCreateDatabase(String),
    /// Could not query a database on the filesystem.
    CannotQueryDatabase(String),
    /// Failed to add a server with the given url to a database.
    CannotAddServerToDatabase { url: String, database: String },
    /// A package in the local database was invalid.
    InvalidLocalPackage(String),
    /// A package in a sync database was invalid.
    InvalidSyncPackage(String),
    /// An archive held two records for one package, which the format rules
    /// out: the archive is corrupt.
    DuplicateDatabaseEntry(String),
    /// There was an error getting or updating the database version.
    DatabaseVersion(String),
    /// A signature was missing.
    SignatureMissing,
    /// A signature did not match.
    SignatureIncorrect,
    /// An unexpected error occurred during signature verification.
    UnexpectedSignature(String),
    /// The main handle has been dropped.
    UseAfterDrop,
    /// There was an unexpected i/o error.
    UnexpectedIo,
    /// There was an unexpected manifest parsing error.
    UnexpectedMtree,
    /// There was an unexpected transport error.
    UnexpectedFetch,
}

/// The main error type for this library.
#[derive(Debug, Clone, PartialEq)]
pub struct Error {
    /// What went wrong.
    pub kind: ErrorKind,
    /// A message from the underlying failure, when one was recorded.
    pub inner: Option<String>,
}

impl Error {
    /// Build an error out of its parts.
    pub fn from_parts(kind: ErrorKind, inner: Option<String>) -> (e: Error)
        ensures
            e.kind == kind,
            e.inner == inner,
    {
        Error { kind, inner }
    }

    /// A lockfile was already present at `path`.
    pub fn lock_already_exists(path: String, err: String) -> (e: Error)
        ensures
            e.kind == ErrorKind::LockAlreadyExists(path),
            e.inner == Some(err),
    {
        Error { kind: ErrorKind::LockAlreadyExists(path), inner: Some(err) }
    }

    /// The lockfile at `path` could not be created.
    pub fn cannot_acquire_lock(path: String, err: String) -> (e: Error)
        ensures
            e.kind == ErrorKind::CannotAcquireLock(path),
            e.inner == Some(err),
    {
        Error { kind: ErrorKind::CannotAcquireLock(path), inner: Some(err) }
    }

    /// The local package called `name` could not be loaded.
    pub fn invalid_local_package(name: String, err: String) -> (e: Error)
        ensures
            e.kind == ErrorKind::InvalidLocalPackage(name),
            e.inner == Some(err),
    {
        Error { kind: ErrorKind::InvalidLocalPackage(name), inner: Some(err) }
    }

    /// The sync package called `name` could not be loaded.
    pub fn invalid_sync_package(name: String, err: String) -> (e: Error)
        ensures
            e.kind == ErrorKind::InvalidSyncPackage(name),
            e.inner == Some(err),
    {
        Error { kind: ErrorKind::InvalidSyncPackage(name), inner: Some(err) }
    }

    /// Add in a source.
    pub fn with_source(self, inner: String) -> (e: Error)
        ensures
            e.kind == self.kind,
            e.inner == Some(inner),
    {
        Error { kind: self.kind, inner: Some(inner) }
    }

    /// Build an error from a kind alone.
    pub fn from_kind(kind: ErrorKind) -> (e: Error)
        ensures
            e.kind == kind,
            e.inner is None,
    {
        Error { kind, inner: None }
    }
}

/// Helper trait for wrapping the errors of fallible results in a kind of
/// this library's error.
pub trait ErrorContext<T>: Sized {
    /// Replace any error with the given kind, keeping no message.
    fn context(self, kind: ErrorKind) -> Result<T, Error>;
}

impl<T> ErrorContext<T> for Result<T, crate::alpm_desc::de_error::Error> {
    fn context(self, kind: ErrorKind) -> (r: Result<T, Error>)
    {
        match self {
            Ok(v) => Ok(v),
            Err(_) => Err(Error::from_kind(kind)),
        }
    }
}

} // verus!

//! The errors of the file center.
use vstd::prelude::*;

verus! {

/// What a stored field was wrong about.
#[derive(Debug, Clone, Copy, PartialEq, Eq, Structural)]
pub enum ValueAccessError {
    /// The field is missing.
    NotPresent,
    /// The field holds a value of another type.
    UnexpectedType,
}

/// The errors of the file center.
#[derive(Debug)]
pub enum FileCenterError {
    /// The underlying store failed; the store's own message.
    MongoDBError(String),
    /// A stored document lacks a field or holds one of the wrong type.
    DocumentError(ValueAccessError),
    /// The file size threshold is not in `1..=MAX_FILE_SIZE_THRESHOLD`.
    FileSizeThresholdError,
    /// The stored schema version is not positive.
    VersionError,
    /// The store was written by a newer schema than this library supports.
    DatabaseTooNewError { supported_latest: i32, current: i32 },
    /// Reading the source or writing the sink failed; the message of the failure.
    IOError(String),
    /// An ID token could not be decoded into a file ID.
    IDTokenError(&'static str),
}

} // verus!

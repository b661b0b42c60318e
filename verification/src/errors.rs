use vstd::prelude::*;

verus! {

/// The error taxonomy shared by every disk, injection, codec and pipeline
/// operation of the library.
///
/// `ValidationFailed` carries one message per violation found, because
/// validation accumulates every problem instead of stopping at the first.
/// `IoError` is an opaque passthrough from an underlying storage medium or
/// codec.
#[derive(Debug, Clone, PartialEq, Eq)]
pub enum Error {
    NotFound,
    AlreadyExists,
    WrongType,
    PermissionDenied,
    UnsupportedOperation,
    ValidationFailed(Vec<String>),
    TooManySymlinks,
    IoError(String),
}

} // verus!

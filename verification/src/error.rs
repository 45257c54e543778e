use vstd::prelude::*;

verus! {

/// Errors surfaced by the catalog.
///
/// Each variant carries an operation-context string plus an embedded cause
/// message, rather than a boxed error object, so that callers can match on
/// the failure mode exactly.
#[derive(Clone, Debug)]
pub enum StudFinderError {
    /// A database operation failed; carries the operation that was being
    /// performed and the engine's message.
    Database { operation: String, message: String },
    /// A specific migration step failed; carries the target schema version
    /// and the failing operation's name.
    Migration { version: i32, operation: String, message: String },
    /// Exclusive access to the store could not be acquired; carries the
    /// operation that was attempting to acquire the lock.
    DatabaseLockFailed { operation: String },
    /// A full store reset failed part way.
    DatabaseResetFailed { message: String },
    /// An underlying file read or write failed.
    Io(String),
    /// Image dimensions are below what processing requires.
    InvalidDimensions { width: u32, height: u32, min_width: u32, min_height: u32 },
    /// The named format is not supported.
    UnsupportedFormat(String),
    /// An update or delete targeted an id that is not in the store.
    PieceNotFound(String),
    /// Malformed interchange data or an invalid configuration value.
    Config(String),
    /// No pieces were detected in a processed image.
    NoPiecesDetected,
    /// Color detection failed.
    ColorDetectionFailed(String),
    /// Template matching failed.
    TemplateMatchingFailed(String),
}

} // verus!

//! The error taxonomy: decode failures of the panel codec, and the
//! normalized persistence error kinds of the view repository.

use vstd::prelude::*;

verus! {

/// A failure to reconstruct typed panel state from a rendered payload.
///
/// Every variant names enough of the offending input for the caller to
/// report which part of the panel could not be read.
#[derive(Debug, Clone, PartialEq, Eq)]
#[non_exhaustive]
pub enum DecodeError {
    /// The interaction's source message carried no content block at all.
    MissingContent,
    /// The named participant's field did not begin with a decimal score.
    MissingScore(String),
    /// The named participant's field began with digits whose value does not
    /// fit the score type.
    ScoreOutOfRange(String),
    /// Fewer than two full-width (non-inline) fields exist, so the mode
    /// field is absent.
    MissingModeField,
    /// The mode field held a label that names no known scoring mode.
    UnrecognizedMode(String),
    /// The triggering element's identifier is neither a reserved control
    /// identifier nor a user identity.
    UnknownAction(String),
}

/// A store failure normalized into the small set of kinds that callers can
/// base a retry decision on.
#[derive(Debug, Clone, Copy, PartialEq, Eq, Structural)]
#[non_exhaustive]
pub enum PersistenceErrorKind {
    /// The store could not be reached, or no connection could be acquired
    /// from the pool; the caller may retry.
    ConnectionError,
    /// The textual view identifier could not be parsed into the store's key
    /// type; a caller error, not retryable.
    MalformedIdentity,
    /// Any other store failure, surfaced as-is.
    UnknownError,
}

} // verus!

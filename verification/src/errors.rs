//! Error taxonomy of the engine.
//!
//! Every failure carries enough context to diagnose it without re-running:
//! the byte offset of a malformed record, the hash of an unresolved frame,
//! the epoch of an out-of-coverage query.
use vstd::prelude::*;
use crate::epoch::Epoch;

verus! {

/// What went wrong while decoding a binary record.
#[derive(Copy, Clone, Debug, PartialEq, Eq, Structural)]
pub enum DecodeErrorKind {
    /// The buffer ended before the field did.
    Truncated,
    /// A field started with the wrong tag byte.
    TagMismatch,
    /// A declared length reaches past the end of the buffer.
    LengthOverflow,
    /// An enumerated or range-checked field holds a value outside its domain.
    UnsupportedValue,
    /// Bytes remain after the record ended.
    TrailingBytes,
}

/// A decode failure, positioned at the offending byte offset.
#[derive(Copy, Clone, Debug, PartialEq, Eq, Structural)]
pub struct DecodeError {
    pub kind: DecodeErrorKind,
    pub offset: usize,
}

/// Any failure the engine reports.
#[derive(Copy, Clone, Debug, PartialEq, Eq, Structural)]
pub enum AniseError {
    /// A record could not be decoded, or failed validation after decoding.
    MalformedRecord(DecodeError),
    /// Two distinct identifiers hashed to the same value: a data-integrity
    /// error, never silently accepted.
    HashCollision(u32),
    /// A segment's windows or payload sizes contradict its declared shape.
    IntegrityError(u32),
    /// No translation path reaches this frame: a parent segment is missing
    /// or the two frames share no root body.
    UnresolvedFrame(u32),
    /// The query epoch lies strictly outside every segment window of the
    /// needed body.
    OutOfCoverage(Epoch),
    /// The requested aberration policy is not available.
    UnsupportedAberration,
    /// A calendar date that does not exist, or one the time conversion
    /// cannot represent.
    InvalidDate { year: i32, month: u8, day: u8 },
    /// Light-time correction did not converge within the iteration cap;
    /// distinguished from a hard failure so a caller may retry.
    AberrationNonConvergence { iterations: u32 },
}

} // verus!

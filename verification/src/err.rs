//! The closed taxonomy of recoverable codec failures.

use vstd::prelude::*;

verus! {

/// What went wrong during a dump or a load. Failures propagate by
/// short-circuit: the first failing field, element or variant aborts the
/// whole operation and surfaces to the immediate caller.
#[derive(Clone, Copy, Debug, PartialEq, Eq, Structural)]
pub enum ErrorKind {
    /// The source ran out of bytes before the value was complete.
    FileRead,
    /// The sink refused bytes.
    FileWrite,
    /// The bytes of a text value are not valid UTF-8.
    InvalidUtf8,
    /// A sequence writer was given no element count.
    NoSizeHint,
    /// An internal invariant could not be completed, or the stream is too
    /// structurally broken to continue (for example, a union tag outside the
    /// declared variant range).
    Unknown,
}

/// A recoverable codec failure, carrying its kind.
#[derive(Clone, Copy, Debug, PartialEq, Eq, Structural)]
pub struct Error {
    pub kind: ErrorKind,
}

impl Error {
    /// Wraps a kind as an error value.
    pub fn new(kind: ErrorKind) -> (r: Error)
        ensures
            r.kind == kind,
    {
        Error { kind }
    }
}

} // verus!

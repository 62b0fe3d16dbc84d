//! The error taxonomy shared by the container readers and the animation
//! decoder.

use vstd::prelude::*;

verus! {

/// Why a container or decoder operation failed. Every error aborts the whole
/// operation and is surfaced to the caller unchanged; none is retried.
#[derive(Clone, Copy, Debug, PartialEq, Eq, Structural)]
pub enum ErrorKind {
    /// The requested entry index is at or past the archive's entry count.
    OutOfBounds,
    /// The destination is shorter than the entry's decompressed size.
    BufferTooSmall,
    /// An unrecognized compression method, chunk kind or info code, a
    /// malformed version tag, or a payload of the wrong shape.
    InvalidFormat,
    /// The input ended before the requested field or payload.
    Truncated,
    /// A recognized but unsupported resource was requested.
    Unsupported,
}

} // verus!

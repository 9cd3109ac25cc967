//! The ways in which decoding a netstring fails.

use vstd::prelude::*;

verus! {

/// Why a netstring could not be decoded.
#[derive(Debug, Clone, Copy, PartialEq, Eq, Structural)]
pub enum Error {
    /// The stream failed to give a byte that the decoder had to read: it
    /// ended before the colon or before the comma, or a read went wrong.
    Io,
    /// The stream ended before it gave as many payload bytes as the length
    /// says.
    Incomplete,
    /// The caller's predicate turned the length down; the length is given.
    Length(u64),
    /// The length does not fit in a `u64`.
    Overflow,
    /// A byte other than a digit stood before the colon, or the byte after
    /// the payload was not a comma.
    Syntax,
}

} // verus!

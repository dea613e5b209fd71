//! The ways in which a buffer can fail to decode.

use vstd::prelude::*;

verus! {

/// Why a buffer was rejected. Every failure ends the decode: there is no
/// partial result.
#[derive(Debug, Clone, Copy, PartialEq, Eq, Structural)]
pub enum ParseError {
    /// The buffer does not start with the magic signature.
    MalformedHeader,
    /// The buffer ends before a field of known size is complete.
    TruncatedInput,
    /// The reserved byte of an entry record does not hold its fixed value.
    MalformedEntry,
    /// The type tag of an entry record is none of the known ones.
    UnknownFieldType,
    /// The key or the reserved data region of an entry does not lie inside
    /// the buffer.
    OutOfBounds,
    /// A key name is not terminated by a zero byte before the buffer ends.
    MalformedKey,
    /// A zero-terminated value has no zero byte before the buffer ends.
    MalformedValue,
    /// A key name or a text value is not valid UTF-8.
    InvalidEncoding,
}

} // verus!

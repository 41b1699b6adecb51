//! The ways in which decoding a buffer list can fail.

use vstd::prelude::*;

verus! {

/// Why a `decode` gave up. Each of these ends the decode for good: what has
/// been taken off the buffer list by then is not put back.
#[derive(Clone, Copy, Debug, PartialEq, Eq, Structural)]
pub enum DecodeError {
    /// The container still held values when `decode` was called on it.
    NonEmptyDecode,
    /// A buffer was needed and the buffer list had none left.
    StarvedBuffer,
    /// A buffer's length is not a multiple of the size of the values it is
    /// meant to hold.
    MalformedBuffer,
    /// The decoded lengths of a nested container do not add up to the number
    /// of elements decoded with them.
    ShapeMismatch,
}

} // verus!

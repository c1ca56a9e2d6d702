//! Errors reported by packet operations.

use vstd::prelude::*;

verus! {

/// Why a packet operation could not be carried out.
///
/// A failed operation never moves a cursor and never changes stored bytes.
#[derive(Debug, Clone, Copy, PartialEq, Eq, Structural)]
pub enum PacketError {
    /// Fewer bytes or bits remain than the operation needs.
    UnexpectedEof,
    /// An argument lies outside the range the operation accepts.
    InvalidArgument,
    /// The bytes are not valid text, or the text has no terminator.
    Decode,
}

} // verus!

//! The ways in which a byte string can fail to decode.

use vstd::prelude::*;

verus! {

/// Why a byte string was rejected by a decoder.
#[derive(Clone, Copy, Debug, PartialEq, Eq, Structural)]
pub enum DecodeError {
    /// The first tag names no runtime module known to this crate.
    UnknownModule,
    /// The second tag names no call of the module selected by the first.
    UnknownCall,
    /// The input ended inside a tag, a fixed-width field or a compact integer.
    Truncated,
    /// A length prefix announces more bytes than the input still holds.
    LengthOverrun,
    /// A compact integer is not the shortest encoding of a value of its type.
    NonCanonicalCompact,
    /// Every field was read and input is left over.
    TrailingBytes,
}

} // verus!

//! What can go wrong while a message is read from or written to bytes.

use vstd::prelude::*;

verus! {

/// A failure of the codec. It ends the read or write in progress and nothing
/// else: the buffer is left as it was.
#[derive(Clone, Copy, Debug, PartialEq, Eq, Structural)]
pub enum ProtocolError {
    /// An access outside the bytes the buffer holds, or a write past its limit.
    EndOfBuffer,
    /// A name whose compression pointers chain further than `MAX_JUMPS`.
    TooManyJumps,
    /// A field whose content is not valid where it stands.
    Malformed,
    /// A label of more than `MAX_LABEL` bytes in a name to be written.
    LabelTooLong,
    /// A count or a length that does not fit its 16-bit field.
    Overflow,
}

} // verus!

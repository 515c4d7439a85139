//! The errors of the codec.

use vstd::prelude::*;

verus! {

/// What can go wrong while reading from or writing to a packet buffer.
#[derive(Debug, Clone, Copy, PartialEq, Eq, Structural)]
pub enum BytePacketBufferError {
    /// A read or write would have gone past the last byte of the buffer.
    EndOfBuffer,
    /// A name's chain of compression pointers is longer than the given limit.
    LimitOfJumpsExceeded(usize),
    /// A label of a name to be written is longer than 63 octets.
    SingleLabelExceedsCharactersOfLength,
}

} // verus!

use vstd::prelude::*;

verus! {

/// Errors of the chunk codec.
#[derive(Debug, Copy, Clone, PartialEq, Eq, Structural)]
pub enum Error {
    /// Fewer bytes than a chunk header holds.
    ErrChunkHeaderTooSmall,
    /// The header's length field is below the header's own size.
    ErrChunkHeaderInvalidLength,
    /// The header's length field runs past the end of the buffer.
    ErrChunkHeaderNotEnoughSpace,
    /// The value of a chunk is too large for the 16-bit length field.
    ErrChunkValueTooLarge,
    /// The chunk type is not the one the decoder handles.
    ErrChunkTypeNotForwardTsn,
    /// The value of the chunk is shorter than its fixed fields.
    ErrChunkTooShort,
    /// Establishment was asked of an association that is not a closed
    /// client.
    ErrAssociationNotClosed,
    /// A path MTU of zero.
    ErrZeroMtu,
    /// A TSN sent that is not above every TSN in flight and the ack point.
    ErrTsnNotIncreasing,
    /// Timer bounds with a zero or inverted range.
    ErrInvalidRtoBounds,
    /// The retransmission timer expired more often in a row than allowed:
    /// the peer is presumed unreachable.
    ErrPeerUnreachable,
    /// Fewer bytes than the common packet header holds.
    ErrPacketTooShort,
}

impl Error {
    /// Whether the error reports a buffer or a length field that is too short
    /// or inconsistent.
    pub open spec fn is_length_error(self) -> bool {
        match self {
            Error::ErrChunkHeaderTooSmall => true,
            Error::ErrChunkHeaderInvalidLength => true,
            Error::ErrChunkHeaderNotEnoughSpace => true,
            Error::ErrChunkTooShort => true,
            _ => false,
        }
    }
}

} // verus!

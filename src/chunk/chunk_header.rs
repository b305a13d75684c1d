//! The header common to every chunk: 1 byte type, 1 byte flags, 2 bytes
//! length. The length counts the whole chunk, header included.
use vstd::prelude::*;

use bytes::{Bytes, BytesMut};

use crate::buf::{bytes_as_slice, bytes_mut_extend, bytes_mut_seq, bytes_seq};
use crate::chunk::wire::{be16_at, lemma_be16_of_bytes, push_u16, read_u16, u16_bytes};
use crate::error::Error;

verus! {

/// Size of the common chunk header in bytes.
pub const CHUNK_HEADER_SIZE: usize = 4;

/// The largest value length that the 16-bit length field can carry.
pub const MAX_VALUE_LENGTH: u16 = 65531;

/// Chunk type of FORWARD-TSN.
pub const CT_FORWARD_TSN: u8 = 192;

/// Chunk type of I-FORWARD-TSN.
pub const CT_I_FORWARD_TSN: u8 = 194;

/// The common header of a chunk; `value_length` excludes the header.
#[derive(Debug, Copy, Clone, PartialEq, Eq, Structural)]
pub struct ChunkHeader {
    pub typ: u8,
    pub flags: u8,
    pub value_length: u16,
}

/// The four bytes of a header.
pub open spec fn header_bytes(h: ChunkHeader) -> Seq<u8>
    recommends
        h.value_length <= MAX_VALUE_LENGTH,
{
    seq![h.typ, h.flags] + u16_bytes((h.value_length + CHUNK_HEADER_SIZE) as u16)
}

/// The header that starts `b`, or why `b` does not start with a chunk:
/// too few bytes for a header, a length field below the header's size, or
/// a length field that runs past the end of `b`.
pub open spec fn parse_header(b: Seq<u8>) -> Result<ChunkHeader, Error> {
    if b.len() < CHUNK_HEADER_SIZE {
        Err(Error::ErrChunkHeaderTooSmall)
    } else if be16_at(b, 2) < CHUNK_HEADER_SIZE {
        Err(Error::ErrChunkHeaderInvalidLength)
    } else if be16_at(b, 2) > b.len() {
        Err(Error::ErrChunkHeaderNotEnoughSpace)
    } else {
        Ok(ChunkHeader { typ: b[0], flags: b[1], value_length: (be16_at(b, 2) - CHUNK_HEADER_SIZE) as u16 })
    }
}

/// Decoding the bytes of a header, followed by the rest of its chunk, gives
/// the header back.
pub proof fn lemma_header_round_trip(h: ChunkHeader, rest: Seq<u8>)
    requires
        h.value_length <= MAX_VALUE_LENGTH,
        rest.len() >= h.value_length,
    ensures
        parse_header(header_bytes(h) + rest) == Ok::<ChunkHeader, Error>(h),
{
    let b = header_bytes(h) + rest;
    let n = (h.value_length + CHUNK_HEADER_SIZE) as u16;
    lemma_be16_of_bytes(n);
    assert(b.subrange(2, 4) == u16_bytes(n));
    assert(be16_at(b, 2) == be16_at(u16_bytes(n), 0));
}

impl ChunkHeader {
    /// Total length of the chunk on the wire, header included.
    pub open spec fn spec_length(self) -> int {
        self.value_length + CHUNK_HEADER_SIZE
    }

    /// The value length as a `usize`.
    pub fn value_length(&self) -> (r: usize)
        ensures
            r == self.value_length,
    {
        self.value_length as usize
    }

    /// Decodes the header that starts `buf`.
    pub fn parse(buf: &[u8]) -> (r: Result<ChunkHeader, Error>)
        ensures
            r == parse_header(buf@),
    {
        if buf.len() < CHUNK_HEADER_SIZE {
            return Err(Error::ErrChunkHeaderTooSmall);
        }
        let length = read_u16(buf, 2);
        if (length as usize) < CHUNK_HEADER_SIZE {
            return Err(Error::ErrChunkHeaderInvalidLength);
        }
        if length as usize > buf.len() {
            return Err(Error::ErrChunkHeaderNotEnoughSpace);
        }
        Ok(ChunkHeader { typ: buf[0], flags: buf[1], value_length: length - CHUNK_HEADER_SIZE as u16 })
    }

    /// Decodes the header that starts `buf`.
    pub fn unmarshal(buf: &Bytes) -> (r: Result<ChunkHeader, Error>)
        ensures
            r == parse_header(bytes_seq(*buf)),
    {
        ChunkHeader::parse(bytes_as_slice(buf))
    }

    /// Appends the four bytes of the header to `v`; the length field is the
    /// value length plus the header's size.
    pub fn encode_to(&self, v: &mut Vec<u8>)
        requires
            self.value_length <= MAX_VALUE_LENGTH,
        ensures
            final(v)@ == old(v)@ + header_bytes(*self),
    {
        v.push(self.typ);
        v.push(self.flags);
        push_u16(v, self.value_length + CHUNK_HEADER_SIZE as u16);
        assert(final(v)@ =~= old(v)@ + header_bytes(*self));
    }

    /// Appends the header to `writer` and returns the number of bytes
    /// written, four.
    /// A value length that the length field cannot carry is refused and
    /// leaves `writer` as it was.
    pub fn marshal_to(&self, writer: &mut BytesMut) -> (r: Result<usize, Error>)
        requires
            bytes_mut_seq(*old(writer)).len() + CHUNK_HEADER_SIZE <= isize::MAX,
        ensures
            self.value_length <= MAX_VALUE_LENGTH ==> bytes_mut_seq(*final(writer)) == bytes_mut_seq(
                *old(writer),
            ) + header_bytes(*self) && r == Ok::<usize, Error>(CHUNK_HEADER_SIZE),
            self.value_length > MAX_VALUE_LENGTH ==> bytes_mut_seq(*final(writer)) == bytes_mut_seq(
                *old(writer),
            ) && r == Err::<usize, Error>(Error::ErrChunkValueTooLarge),
    {
        if self.value_length > MAX_VALUE_LENGTH {
            return Err(Error::ErrChunkValueTooLarge);
        }
        let mut v: Vec<u8> = Vec::new();
        self.encode_to(&mut v);
        bytes_mut_extend(writer, v.as_slice());
        Ok(CHUNK_HEADER_SIZE)
    }
}

} // verus!

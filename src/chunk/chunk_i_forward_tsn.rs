//! I-FORWARD-TSN chunk (RFC 8260).
//!
//! Identical purpose to FORWARD-TSN (RFC 3758) but carries per-stream
//! entries with a 32-bit Message Identifier (MID) instead of a 16-bit SSN,
//! and an explicit unordered flag per entry.
//!
//! ```text
//!  0                   1                   2                   3
//!  0 1 2 3 4 5 6 7 8 9 0 1 2 3 4 5 6 7 8 9 0 1 2 3 4 5 6 7 8 9 0 1
//! +-+-+-+-+-+-+-+-+-+-+-+-+-+-+-+-+-+-+-+-+-+-+-+-+-+-+-+-+-+-+-+-+
//! |   Type = 194  |  Flags = 0x00 |        Length = Variable      |
//! +-+-+-+-+-+-+-+-+-+-+-+-+-+-+-+-+-+-+-+-+-+-+-+-+-+-+-+-+-+-+-+-+
//! |                   New Cumulative TSN                          |
//! +-+-+-+-+-+-+-+-+-+-+-+-+-+-+-+-+-+-+-+-+-+-+-+-+-+-+-+-+-+-+-+-+
//! |       Stream Identifier       |     Flags     |   Reserved   |
//! +-+-+-+-+-+-+-+-+-+-+-+-+-+-+-+-+-+-+-+-+-+-+-+-+-+-+-+-+-+-+-+-+
//! |                    Message Identifier (MID)                   |
//! +-+-+-+-+-+-+-+-+-+-+-+-+-+-+-+-+-+-+-+-+-+-+-+-+-+-+-+-+-+-+-+-+
//!                              ...
//! ```
use vstd::prelude::*;

use bytes::{Bytes, BytesMut};

use crate::buf::{
    bytes_as_slice, bytes_mut_extend, bytes_mut_freeze, bytes_mut_new,
    bytes_mut_seq, bytes_seq,
};
use crate::chunk::chunk_header::{
    header_bytes, lemma_header_round_trip, parse_header, ChunkHeader, CHUNK_HEADER_SIZE,
    CT_I_FORWARD_TSN, MAX_VALUE_LENGTH,
};
use crate::chunk::wire::{
    be16_at, be32_at, lemma_be16_of_bytes, lemma_be32_of_bytes, push_u16, push_u32, read_u16,
    read_u32, u16_bytes, u32_bytes,
};
use crate::error::Error;
use crate::text::{decimal, push_decimal};

verus! {

/// Size of one stream entry on the wire.
pub const I_FORWARD_TSN_STREAM_ENTRY_LENGTH: usize = 8;

/// The most stream entries whose chunk length fits the 16-bit length field.
pub const MAX_I_FORWARD_TSN_STREAMS: usize = 8190;

/// One per-stream skip advisory: abandon all messages of the stream up to
/// and including `mid`, in the ordered or the unordered sequence.
#[derive(Debug, Copy, Clone, PartialEq, Eq, Structural)]
pub struct ChunkIForwardTsnStream {
    pub identifier: u16,
    pub unordered: bool,
    pub mid: u32,
}

/// An I-FORWARD-TSN chunk.
#[derive(Debug, Clone, Default)]
pub struct ChunkIForwardTsn {
    pub new_cumulative_tsn: u32,
    pub streams: Vec<ChunkIForwardTsnStream>,
}

/// What an I-FORWARD-TSN chunk holds, as mathematical values.
pub struct IForwardTsnModel {
    pub new_cumulative_tsn: u32,
    pub streams: Seq<ChunkIForwardTsnStream>,
}

impl View for ChunkIForwardTsn {
    type V = IForwardTsnModel;

    open spec fn view(&self) -> IForwardTsnModel {
        IForwardTsnModel { new_cumulative_tsn: self.new_cumulative_tsn, streams: self.streams@ }
    }
}

/// The text line of one stream entry.
pub open spec fn entry_text(s: ChunkIForwardTsnStream) -> Seq<char> {
    " - si="@ + decimal(s.identifier as nat) + ", unordered="@ + (if s.unordered {
        "true"@
    } else {
        "false"@
    }) + ", mid="@ + decimal(s.mid as nat)
}

/// The text lines of the stream entries, each after a line break.
pub open spec fn entries_text(ss: Seq<ChunkIForwardTsnStream>) -> Seq<char>
    decreases ss.len(),
{
    if ss.len() == 0 {
        Seq::empty()
    } else {
        entries_text(ss.drop_last()) + "\n"@ + entry_text(ss.last())
    }
}

/// The text of a chunk: its type name, its cumulative TSN, and one line per
/// stream entry.
pub open spec fn i_forward_tsn_text(m: IForwardTsnModel) -> Seq<char> {
    "I-FORWARD-TSN"@ + "\nNew Cumulative TSN: "@ + decimal(m.new_cumulative_tsn as nat) + entries_text(
        m.streams,
    )
}

/// The eight bytes of a stream entry; the reserved byte is zero.
pub open spec fn entry_bytes(s: ChunkIForwardTsnStream) -> Seq<u8> {
    u16_bytes(s.identifier) + seq![if s.unordered { 1u8 } else { 0u8 }, 0u8] + u32_bytes(s.mid)
}

/// The bytes of a list of stream entries, one after the other.
pub open spec fn entries_bytes(ss: Seq<ChunkIForwardTsnStream>) -> Seq<u8>
    decreases ss.len(),
{
    if ss.len() == 0 {
        Seq::empty()
    } else {
        entries_bytes(ss.drop_last()) + entry_bytes(ss.last())
    }
}

/// The stream entry whose eight bytes start at `i`; bit 0 of the flags byte
/// is the unordered flag and the reserved byte is not read.
pub open spec fn entry_at(b: Seq<u8>, i: int) -> ChunkIForwardTsnStream {
    ChunkIForwardTsnStream {
        identifier: be16_at(b, i),
        unordered: b[i + 2] % 2 == 1,
        mid: be32_at(b, i + 4),
    }
}

/// The stream entries of a chunk value: one for each full eight bytes;
/// fewer trailing bytes are ignored.
pub open spec fn parse_entries(b: Seq<u8>) -> Seq<ChunkIForwardTsnStream> {
    Seq::new((b.len() / 8) as nat, |k: int| entry_at(b, 8 * k))
}

/// The header of the chunk that carries `m`.
pub open spec fn i_forward_tsn_header(m: IForwardTsnModel) -> ChunkHeader {
    ChunkHeader { typ: CT_I_FORWARD_TSN, flags: 0, value_length: (4 + 8 * m.streams.len()) as u16 }
}

/// The bytes of the chunk that carries `m`.
pub open spec fn i_forward_tsn_bytes(m: IForwardTsnModel) -> Seq<u8> {
    header_bytes(i_forward_tsn_header(m)) + u32_bytes(m.new_cumulative_tsn) + entries_bytes(
        m.streams,
    )
}

/// The I-FORWARD-TSN chunk that starts `b`, or why there is none: a header
/// error, another chunk type, or a value too short for the cumulative TSN.
pub open spec fn parse_i_forward_tsn(b: Seq<u8>) -> Result<IForwardTsnModel, Error> {
    match parse_header(b) {
        Err(e) => Err(e),
        Ok(h) => if h.typ != CT_I_FORWARD_TSN {
            Err(Error::ErrChunkTypeNotForwardTsn)
        } else if h.value_length < 4 {
            Err(Error::ErrChunkTooShort)
        } else {
            Ok(
                IForwardTsnModel {
                    new_cumulative_tsn: be32_at(b, 4),
                    streams: parse_entries(b.subrange(8, CHUNK_HEADER_SIZE + h.value_length)),
                },
            )
        },
    }
}

/// The bytes of `n` entries are `8 * n` bytes, and entry `k` is read back
/// from offset `8 * k`.
pub proof fn lemma_entries_bytes(ss: Seq<ChunkIForwardTsnStream>)
    ensures
        entries_bytes(ss).len() == 8 * ss.len(),
        forall|k: int| 0 <= k < ss.len() ==> #[trigger] entry_at(entries_bytes(ss), 8 * k) == ss[k],
    decreases ss.len(),
{
    if ss.len() > 0 {
        let init = ss.drop_last();
        lemma_entries_bytes(init);
        let b = entries_bytes(ss);
        let n = init.len() as int;
        assert forall|k: int| 0 <= k < ss.len() implies #[trigger] entry_at(b, 8 * k) == ss[k] by {
            if k < n {
                assert(entry_at(entries_bytes(init), 8 * k) == init[k]);
                assert(b.subrange(0, 8 * n) == entries_bytes(init));
            } else {
                let e = ss.last();
                lemma_be16_of_bytes(e.identifier);
                lemma_be32_of_bytes(e.mid);
                assert(b.subrange(8 * n, 8 * n + 8) == entry_bytes(e));
                assert(b.subrange(8 * n, 8 * n + 2) == u16_bytes(e.identifier));
                assert(b.subrange(8 * n + 4, 8 * n + 8) == u32_bytes(e.mid));
            }
        }
    }
}

/// Decoding the bytes of entries gives the entries back.
pub proof fn lemma_entries_round_trip(ss: Seq<ChunkIForwardTsnStream>)
    ensures
        parse_entries(entries_bytes(ss)) == ss,
{
    lemma_entries_bytes(ss);
    assert(parse_entries(entries_bytes(ss)) =~= ss);
}

/// Decoding an encoded I-FORWARD-TSN chunk gives the same chunk back, for
/// any number of stream entries that the length field can carry.
pub proof fn lemma_i_forward_tsn_round_trip(m: IForwardTsnModel)
    requires
        m.streams.len() <= MAX_I_FORWARD_TSN_STREAMS,
    ensures
        parse_i_forward_tsn(i_forward_tsn_bytes(m)) == Ok::<IForwardTsnModel, Error>(m),
{
    let h = i_forward_tsn_header(m);
    let rest = u32_bytes(m.new_cumulative_tsn) + entries_bytes(m.streams);
    let b = i_forward_tsn_bytes(m);
    lemma_entries_bytes(m.streams);
    lemma_entries_round_trip(m.streams);
    lemma_be32_of_bytes(m.new_cumulative_tsn);
    assert(b == header_bytes(h) + rest);
    lemma_header_round_trip(h, rest);
    assert(b.subrange(4, 8) == u32_bytes(m.new_cumulative_tsn));
    assert(b.subrange(8, CHUNK_HEADER_SIZE + h.value_length) == entries_bytes(m.streams));
}

/// The encoded chunk is eight bytes of header and cumulative TSN, then eight
/// bytes per stream entry, and its length field holds that total.
pub proof fn lemma_i_forward_tsn_length(m: IForwardTsnModel)
    requires
        m.streams.len() <= MAX_I_FORWARD_TSN_STREAMS,
    ensures
        i_forward_tsn_bytes(m).len() == 8 + 8 * m.streams.len(),
        be16_at(i_forward_tsn_bytes(m), 2) == 8 + 8 * m.streams.len(),
{
    let h = i_forward_tsn_header(m);
    let n = (h.value_length + CHUNK_HEADER_SIZE) as u16;
    lemma_entries_bytes(m.streams);
    lemma_be16_of_bytes(n);
    assert(i_forward_tsn_bytes(m).subrange(2, 4) == u16_bytes(n));
}

/// Decoding an encoded chunk cut short of its full length fails with a
/// length error: the buffer is shorter than a header, or than the length
/// that the header declares.
pub proof fn lemma_i_forward_tsn_truncated(m: IForwardTsnModel, k: int)
    requires
        m.streams.len() <= MAX_I_FORWARD_TSN_STREAMS,
        0 <= k < i_forward_tsn_bytes(m).len(),
    ensures
        parse_i_forward_tsn(i_forward_tsn_bytes(m).take(k)) is Err,
        parse_i_forward_tsn(i_forward_tsn_bytes(m).take(k))->Err_0.is_length_error(),
{
    let b = i_forward_tsn_bytes(m);
    let t = b.take(k);
    lemma_i_forward_tsn_length(m);
    if k >= CHUNK_HEADER_SIZE {
        assert(be16_at(t, 2) == be16_at(b, 2));
    }
}

impl ChunkIForwardTsn {
    /// Number of bytes of the chunk's value: the cumulative TSN and the
    /// stream entries.
    pub fn value_length(&self) -> (r: usize)
        requires
            self.streams@.len() <= (usize::MAX - 4) / 8,
        ensures
            r == 4 + 8 * self.streams@.len(),
    {
        4 + I_FORWARD_TSN_STREAM_ENTRY_LENGTH * self.streams.len()
    }

    /// The chunk's header: type 194, flags zero, and the value length.
    pub fn header(&self) -> (r: ChunkHeader)
        requires
            self.streams@.len() <= MAX_I_FORWARD_TSN_STREAMS,
        ensures
            r == i_forward_tsn_header(self@),
    {
        ChunkHeader { typ: CT_I_FORWARD_TSN, flags: 0, value_length: self.value_length() as u16 }
    }

    /// Every I-FORWARD-TSN chunk is well formed.
    pub fn check(&self) -> (r: Result<(), Error>)
        ensures
            r is Ok,
    {
        Ok(())
    }

    /// Decodes the I-FORWARD-TSN chunk that starts `buf`.
    pub fn parse(buf: &[u8]) -> (r: Result<ChunkIForwardTsn, Error>)
        ensures
            match r {
                Ok(c) => parse_i_forward_tsn(buf@) == Ok::<IForwardTsnModel, Error>(c@),
                Err(e) => parse_i_forward_tsn(buf@) == Err::<IForwardTsnModel, Error>(e),
            },
    {
        let header = match ChunkHeader::parse(buf) {
            Ok(h) => h,
            Err(e) => return Err(e),
        };
        if header.typ != CT_I_FORWARD_TSN {
            return Err(Error::ErrChunkTypeNotForwardTsn);
        }
        if header.value_length < 4 {
            return Err(Error::ErrChunkTooShort);
        }
        let value_end = CHUNK_HEADER_SIZE + header.value_length();
        let new_cumulative_tsn = read_u32(buf, CHUNK_HEADER_SIZE);
        let ghost value = buf@.subrange(8, value_end as int);
        let mut streams: Vec<ChunkIForwardTsnStream> = Vec::new();
        let mut offset: usize = CHUNK_HEADER_SIZE + 4;
        while offset + I_FORWARD_TSN_STREAM_ENTRY_LENGTH <= value_end
            invariant
                8 <= offset <= value_end <= buf@.len(),
                value_end <= 65535,
                value == buf@.subrange(8, value_end as int),
                (offset - 8) % 8 == 0,
                streams@ == parse_entries(value).take((offset - 8) / 8),
            decreases value_end - offset,
        {
            let identifier = read_u16(buf, offset);
            let flags = buf[offset + 2];
            let mid = read_u32(buf, offset + 4);
            let entry = ChunkIForwardTsnStream { identifier, unordered: flags % 2 == 1, mid };
            proof {
                let k = (offset - 8) / 8;
                assert(entry == entry_at(value, 8 * k));
                assert(parse_entries(value).take(k + 1) =~= parse_entries(value).take(k).push(entry));
            }
            streams.push(entry);
            offset += I_FORWARD_TSN_STREAM_ENTRY_LENGTH;
        }
        assert(streams@ =~= parse_entries(value));
        Ok(ChunkIForwardTsn { new_cumulative_tsn, streams })
    }

    /// Decodes the I-FORWARD-TSN chunk that starts `buf`.
    pub fn unmarshal(buf: &Bytes) -> (r: Result<ChunkIForwardTsn, Error>)
        ensures
            match r {
                Ok(c) => parse_i_forward_tsn(bytes_seq(*buf)) == Ok::<IForwardTsnModel, Error>(c@),
                Err(e) => parse_i_forward_tsn(bytes_seq(*buf)) == Err::<IForwardTsnModel, Error>(e),
            },
    {
        ChunkIForwardTsn::parse(bytes_as_slice(buf))
    }

    /// Appends the bytes of the chunk to `v`.
    pub fn encode_to(&self, v: &mut Vec<u8>)
        requires
            self.streams@.len() <= MAX_I_FORWARD_TSN_STREAMS,
        ensures
            final(v)@ == old(v)@ + i_forward_tsn_bytes(self@),
    {
        self.header().encode_to(v);
        push_u32(v, self.new_cumulative_tsn);
        let ghost start = v@;
        let mut i: usize = 0;
        while i < self.streams.len()
            invariant
                0 <= i <= self.streams@.len(),
                v@ == start + entries_bytes(self.streams@.take(i as int)),
            decreases self.streams@.len() - i,
        {
            let s = self.streams[i];
            push_u16(v, s.identifier);
            v.push(if s.unordered { 0x01 } else { 0x00 });
            v.push(0);
            push_u32(v, s.mid);
            assert(self.streams@.take(i + 1).drop_last() =~= self.streams@.take(i as int));
            assert(v@ =~= start + entries_bytes(self.streams@.take(i + 1)));
            i += 1;
        }
        assert(self.streams@.take(i as int) =~= self.streams@);
        assert(final(v)@ =~= old(v)@ + i_forward_tsn_bytes(self@));
    }
    /// Appends the chunk to `writer` and returns the number of bytes
    /// written: eight, and eight per stream entry.
    /// More stream entries than the length field can carry are refused and
    /// leave `writer` as it was.
    pub fn marshal_to(&self, writer: &mut BytesMut) -> (r: Result<usize, Error>)
        requires
            self.streams@.len() <= MAX_I_FORWARD_TSN_STREAMS ==> bytes_mut_seq(*old(writer)).len() + 8
                + 8 * self.streams@.len() <= isize::MAX,
        ensures
            self.streams@.len() <= MAX_I_FORWARD_TSN_STREAMS ==> bytes_mut_seq(*final(writer))
                == bytes_mut_seq(*old(writer)) + i_forward_tsn_bytes(self@) && r == Ok::<
                usize,
                Error,
            >((8 + 8 * self.streams@.len()) as usize),
            self.streams@.len() > MAX_I_FORWARD_TSN_STREAMS ==> bytes_mut_seq(*final(writer))
                == bytes_mut_seq(*old(writer)) && r == Err::<usize, Error>(
                Error::ErrChunkValueTooLarge,
            ),
    {
        if self.streams.len() > MAX_I_FORWARD_TSN_STREAMS {
            return Err(Error::ErrChunkValueTooLarge);
        }
        proof {
            lemma_i_forward_tsn_length(self@);
        }
        let mut v: Vec<u8> = Vec::new();
        self.encode_to(&mut v);
        bytes_mut_extend(writer, v.as_slice());
        Ok(8 + I_FORWARD_TSN_STREAM_ENTRY_LENGTH * self.streams.len())
    }

    /// The bytes of the chunk in a buffer of their own. More stream entries
    /// than the length field can carry are refused.
    pub fn marshal(&self) -> (r: Result<Bytes, Error>)
        ensures
            self.streams@.len() <= MAX_I_FORWARD_TSN_STREAMS ==> r is Ok && bytes_seq(r->Ok_0)
                == i_forward_tsn_bytes(self@),
            self.streams@.len() > MAX_I_FORWARD_TSN_STREAMS ==> r == Err::<Bytes, Error>(
                Error::ErrChunkValueTooLarge,
            ),
    {
        let mut writer = bytes_mut_new();
        match self.marshal_to(&mut writer) {
            Ok(_) => {
                assert(bytes_mut_seq(writer) =~= i_forward_tsn_bytes(self@));
                Ok(bytes_mut_freeze(writer))
            },
            Err(e) => Err(e),
        }
    }
    /// The chunk as text, one line for the type, one for the cumulative TSN
    /// and one per stream entry.
    pub fn to_string(&self) -> (r: String)
        ensures
            r@ == i_forward_tsn_text(self@),
    {
        let mut s = String::new();
        s.append("I-FORWARD-TSN");
        s.append("\nNew Cumulative TSN: ");
        push_decimal(&mut s, self.new_cumulative_tsn);
        let ghost start = s@;
        let mut i: usize = 0;
        while i < self.streams.len()
            invariant
                0 <= i <= self.streams@.len(),
                s@ == start + entries_text(self.streams@.take(i as int)),
            decreases self.streams@.len() - i,
        {
            let e = self.streams[i];
            s.append("\n - si=");
            push_decimal(&mut s, e.identifier as u32);
            s.append(", unordered=");
            s.append(if e.unordered { "true" } else { "false" });
            s.append(", mid=");
            push_decimal(&mut s, e.mid);
            assert(self.streams@.take(i + 1).drop_last() =~= self.streams@.take(i as int));
            proof {
                reveal_strlit("\n - si=");
                reveal_strlit("\n");
                reveal_strlit(" - si=");
            }
            assert(s@ =~= start + entries_text(self.streams@.take(i + 1)));
            i += 1;
        }
        assert(self.streams@.take(i as int) =~= self.streams@);
        assert(s@ =~= i_forward_tsn_text(self@));
        s
    }
}

} // verus!

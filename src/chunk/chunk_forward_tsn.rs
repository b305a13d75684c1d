//! FORWARD-TSN chunk (RFC 3758).
//!
//! Tells the peer to move its cumulative TSN forward, and for each listed
//! stream, to skip the ordered messages up to a stream sequence number.
//!
//! ```text
//!  0                   1                   2                   3
//!  0 1 2 3 4 5 6 7 8 9 0 1 2 3 4 5 6 7 8 9 0 1 2 3 4 5 6 7 8 9 0 1
//! +-+-+-+-+-+-+-+-+-+-+-+-+-+-+-+-+-+-+-+-+-+-+-+-+-+-+-+-+-+-+-+-+
//! |   Type = 192  |  Flags = 0x00 |        Length = Variable      |
//! +-+-+-+-+-+-+-+-+-+-+-+-+-+-+-+-+-+-+-+-+-+-+-+-+-+-+-+-+-+-+-+-+
//! |                      New Cumulative TSN                       |
//! +-+-+-+-+-+-+-+-+-+-+-+-+-+-+-+-+-+-+-+-+-+-+-+-+-+-+-+-+-+-+-+-+
//! |         Stream-1              |       Stream Sequence-1       |
//! +-+-+-+-+-+-+-+-+-+-+-+-+-+-+-+-+-+-+-+-+-+-+-+-+-+-+-+-+-+-+-+-+
//!                              ...
//! ```
use vstd::prelude::*;

use bytes::{Bytes, BytesMut};

use crate::buf::{
    bytes_as_slice, bytes_mut_extend, bytes_mut_freeze, bytes_mut_new,
    bytes_mut_seq, bytes_seq,
};
use crate::chunk::chunk_header::{
    header_bytes, lemma_header_round_trip, parse_header, ChunkHeader, CHUNK_HEADER_SIZE,
    CT_FORWARD_TSN, MAX_VALUE_LENGTH,
};
use crate::chunk::wire::{
    be16_at, be32_at, lemma_be16_of_bytes, lemma_be32_of_bytes, push_u16, push_u32, read_u16,
    read_u32, u16_bytes, u32_bytes,
};
use crate::error::Error;
use crate::text::{decimal, push_decimal};

verus! {

/// Size of one stream entry on the wire.
pub const FORWARD_TSN_STREAM_ENTRY_LENGTH: usize = 4;

/// The most stream entries whose chunk length fits the 16-bit length field.
pub const MAX_FORWARD_TSN_STREAMS: usize = 16381;

/// One per-stream skip advisory: abandon the ordered messages of the stream
/// up to and including stream sequence number `sequence`.
#[derive(Debug, Copy, Clone, PartialEq, Eq, Structural)]
pub struct ChunkForwardTsnStream {
    pub identifier: u16,
    pub sequence: u16,
}

/// A FORWARD-TSN chunk.
#[derive(Debug, Clone, Default)]
pub struct ChunkForwardTsn {
    pub new_cumulative_tsn: u32,
    pub streams: Vec<ChunkForwardTsnStream>,
}

/// What a FORWARD-TSN chunk holds, as mathematical values.
pub struct ForwardTsnModel {
    pub new_cumulative_tsn: u32,
    pub streams: Seq<ChunkForwardTsnStream>,
}

impl View for ChunkForwardTsn {
    type V = ForwardTsnModel;

    open spec fn view(&self) -> ForwardTsnModel {
        ForwardTsnModel { new_cumulative_tsn: self.new_cumulative_tsn, streams: self.streams@ }
    }
}

/// The text line of one stream entry.
pub open spec fn entry_text(s: ChunkForwardTsnStream) -> Seq<char> {
    " - si="@ + decimal(s.identifier as nat) + ", ssn="@ + decimal(s.sequence as nat)
}

/// The text lines of the stream entries, each after a line break.
pub open spec fn entries_text(ss: Seq<ChunkForwardTsnStream>) -> Seq<char>
    decreases ss.len(),
{
    if ss.len() == 0 {
        Seq::empty()
    } else {
        entries_text(ss.drop_last()) + "\n"@ + entry_text(ss.last())
    }
}

/// The text of a chunk: its type name, its cumulative TSN, and one line per
/// stream entry.
pub open spec fn forward_tsn_text(m: ForwardTsnModel) -> Seq<char> {
    "FORWARD-TSN"@ + "\nNew Cumulative TSN: "@ + decimal(m.new_cumulative_tsn as nat) + entries_text(
        m.streams,
    )
}

/// The four bytes of a stream entry.
pub open spec fn entry_bytes(s: ChunkForwardTsnStream) -> Seq<u8> {
    u16_bytes(s.identifier) + u16_bytes(s.sequence)
}

/// The bytes of a list of stream entries, one after the other.
pub open spec fn entries_bytes(ss: Seq<ChunkForwardTsnStream>) -> Seq<u8>
    decreases ss.len(),
{
    if ss.len() == 0 {
        Seq::empty()
    } else {
        entries_bytes(ss.drop_last()) + entry_bytes(ss.last())
    }
}

/// The stream entry whose four bytes start at `i`.
pub open spec fn entry_at(b: Seq<u8>, i: int) -> ChunkForwardTsnStream {
    ChunkForwardTsnStream {
        identifier: be16_at(b, i),
        sequence: be16_at(b, i + 2),
    }
}

/// The stream entries of a chunk value: one for each full four bytes;
/// fewer trailing bytes are ignored.
pub open spec fn parse_entries(b: Seq<u8>) -> Seq<ChunkForwardTsnStream> {
    Seq::new((b.len() / 4) as nat, |k: int| entry_at(b, 4 * k))
}

/// The header of the chunk that carries `m`.
pub open spec fn forward_tsn_header(m: ForwardTsnModel) -> ChunkHeader {
    ChunkHeader { typ: CT_FORWARD_TSN, flags: 0, value_length: (4 + 4 * m.streams.len()) as u16 }
}

/// The bytes of the chunk that carries `m`.
pub open spec fn forward_tsn_bytes(m: ForwardTsnModel) -> Seq<u8> {
    header_bytes(forward_tsn_header(m)) + u32_bytes(m.new_cumulative_tsn) + entries_bytes(
        m.streams,
    )
}

/// The FORWARD-TSN chunk that starts `b`, or why there is none: a header
/// error, another chunk type, or a value too short for the cumulative TSN.
pub open spec fn parse_forward_tsn(b: Seq<u8>) -> Result<ForwardTsnModel, Error> {
    match parse_header(b) {
        Err(e) => Err(e),
        Ok(h) => if h.typ != CT_FORWARD_TSN {
            Err(Error::ErrChunkTypeNotForwardTsn)
        } else if h.value_length < 4 {
            Err(Error::ErrChunkTooShort)
        } else {
            Ok(
                ForwardTsnModel {
                    new_cumulative_tsn: be32_at(b, 4),
                    streams: parse_entries(b.subrange(8, CHUNK_HEADER_SIZE + h.value_length)),
                },
            )
        },
    }
}

/// The bytes of `n` entries are `4 * n` bytes, and entry `k` is read back
/// from offset `4 * k`.
pub proof fn lemma_entries_bytes(ss: Seq<ChunkForwardTsnStream>)
    ensures
        entries_bytes(ss).len() == 4 * ss.len(),
        forall|k: int| 0 <= k < ss.len() ==> #[trigger] entry_at(entries_bytes(ss), 4 * k) == ss[k],
    decreases ss.len(),
{
    if ss.len() > 0 {
        let init = ss.drop_last();
        lemma_entries_bytes(init);
        let b = entries_bytes(ss);
        let n = init.len() as int;
        assert forall|k: int| 0 <= k < ss.len() implies #[trigger] entry_at(b, 4 * k) == ss[k] by {
            if k < n {
                assert(entry_at(entries_bytes(init), 4 * k) == init[k]);
                assert(b.subrange(0, 4 * n) == entries_bytes(init));
            } else {
                let e = ss.last();
                lemma_be16_of_bytes(e.identifier);
                lemma_be16_of_bytes(e.sequence);
                assert(b.subrange(4 * n, 4 * n + 4) == entry_bytes(e));
                assert(b.subrange(4 * n, 4 * n + 2) == u16_bytes(e.identifier));
                assert(b.subrange(4 * n + 2, 4 * n + 4) == u16_bytes(e.sequence));
            }
        }
    }
}

/// Decoding the bytes of entries gives the entries back.
pub proof fn lemma_entries_round_trip(ss: Seq<ChunkForwardTsnStream>)
    ensures
        parse_entries(entries_bytes(ss)) == ss,
{
    lemma_entries_bytes(ss);
    assert(parse_entries(entries_bytes(ss)) =~= ss);
}

/// Decoding an encoded FORWARD-TSN chunk gives the same chunk back, for
/// any number of stream entries that the length field can carry.
pub proof fn lemma_forward_tsn_round_trip(m: ForwardTsnModel)
    requires
        m.streams.len() <= MAX_FORWARD_TSN_STREAMS,
    ensures
        parse_forward_tsn(forward_tsn_bytes(m)) == Ok::<ForwardTsnModel, Error>(m),
{
    let h = forward_tsn_header(m);
    let rest = u32_bytes(m.new_cumulative_tsn) + entries_bytes(m.streams);
    let b = forward_tsn_bytes(m);
    lemma_entries_bytes(m.streams);
    lemma_entries_round_trip(m.streams);
    lemma_be32_of_bytes(m.new_cumulative_tsn);
    assert(b == header_bytes(h) + rest);
    lemma_header_round_trip(h, rest);
    assert(b.subrange(4, 8) == u32_bytes(m.new_cumulative_tsn));
    assert(b.subrange(8, CHUNK_HEADER_SIZE + h.value_length) == entries_bytes(m.streams));
}

/// The encoded chunk is eight bytes of header and cumulative TSN, then four
/// bytes per stream entry, and its length field holds that total.
pub proof fn lemma_forward_tsn_length(m: ForwardTsnModel)
    requires
        m.streams.len() <= MAX_FORWARD_TSN_STREAMS,
    ensures
        forward_tsn_bytes(m).len() == 8 + 4 * m.streams.len(),
        be16_at(forward_tsn_bytes(m), 2) == 8 + 4 * m.streams.len(),
{
    let h = forward_tsn_header(m);
    let n = (h.value_length + CHUNK_HEADER_SIZE) as u16;
    lemma_entries_bytes(m.streams);
    lemma_be16_of_bytes(n);
    assert(forward_tsn_bytes(m).subrange(2, 4) == u16_bytes(n));
}

/// Decoding an encoded chunk cut short of its full length fails with a
/// length error: the buffer is shorter than a header, or than the length
/// that the header declares.
pub proof fn lemma_forward_tsn_truncated(m: ForwardTsnModel, k: int)
    requires
        m.streams.len() <= MAX_FORWARD_TSN_STREAMS,
        0 <= k < forward_tsn_bytes(m).len(),
    ensures
        parse_forward_tsn(forward_tsn_bytes(m).take(k)) is Err,
        parse_forward_tsn(forward_tsn_bytes(m).take(k))->Err_0.is_length_error(),
{
    let b = forward_tsn_bytes(m);
    let t = b.take(k);
    lemma_forward_tsn_length(m);
    if k >= CHUNK_HEADER_SIZE {
        assert(be16_at(t, 2) == be16_at(b, 2));
    }
}

impl ChunkForwardTsn {
    /// Number of bytes of the chunk's value: the cumulative TSN and the
    /// stream entries.
    pub fn value_length(&self) -> (r: usize)
        requires
            self.streams@.len() <= (usize::MAX - 4) / 4,
        ensures
            r == 4 + 4 * self.streams@.len(),
    {
        4 + FORWARD_TSN_STREAM_ENTRY_LENGTH * self.streams.len()
    }

    /// The chunk's header: type 192, flags zero, and the value length.
    pub fn header(&self) -> (r: ChunkHeader)
        requires
            self.streams@.len() <= MAX_FORWARD_TSN_STREAMS,
        ensures
            r == forward_tsn_header(self@),
    {
        ChunkHeader { typ: CT_FORWARD_TSN, flags: 0, value_length: self.value_length() as u16 }
    }

    /// Every FORWARD-TSN chunk is well formed.
    pub fn check(&self) -> (r: Result<(), Error>)
        ensures
            r is Ok,
    {
        Ok(())
    }

    /// Decodes the FORWARD-TSN chunk that starts `buf`.
    pub fn parse(buf: &[u8]) -> (r: Result<ChunkForwardTsn, Error>)
        ensures
            match r {
                Ok(c) => parse_forward_tsn(buf@) == Ok::<ForwardTsnModel, Error>(c@),
                Err(e) => parse_forward_tsn(buf@) == Err::<ForwardTsnModel, Error>(e),
            },
    {
        let header = match ChunkHeader::parse(buf) {
            Ok(h) => h,
            Err(e) => return Err(e),
        };
        if header.typ != CT_FORWARD_TSN {
            return Err(Error::ErrChunkTypeNotForwardTsn);
        }
        if header.value_length < 4 {
            return Err(Error::ErrChunkTooShort);
        }
        let value_end = CHUNK_HEADER_SIZE + header.value_length();
        let new_cumulative_tsn = read_u32(buf, CHUNK_HEADER_SIZE);
        let ghost value = buf@.subrange(8, value_end as int);
        let mut streams: Vec<ChunkForwardTsnStream> = Vec::new();
        let mut offset: usize = CHUNK_HEADER_SIZE + 4;
        while offset + FORWARD_TSN_STREAM_ENTRY_LENGTH <= value_end
            invariant
                8 <= offset <= value_end <= buf@.len(),
                value_end <= 65535,
                value == buf@.subrange(8, value_end as int),
                (offset - 8) % 4 == 0,
                streams@ == parse_entries(value).take((offset - 8) / 4),
            decreases value_end - offset,
        {
            let identifier = read_u16(buf, offset);
            let sequence = read_u16(buf, offset + 2);
            let entry = ChunkForwardTsnStream { identifier, sequence };
            proof {
                let k = (offset - 8) / 4;
                assert(entry == entry_at(value, 4 * k));
                assert(parse_entries(value).take(k + 1) =~= parse_entries(value).take(k).push(entry));
            }
            streams.push(entry);
            offset += FORWARD_TSN_STREAM_ENTRY_LENGTH;
        }
        assert(streams@ =~= parse_entries(value));
        Ok(ChunkForwardTsn { new_cumulative_tsn, streams })
    }

    /// Decodes the FORWARD-TSN chunk that starts `buf`.
    pub fn unmarshal(buf: &Bytes) -> (r: Result<ChunkForwardTsn, Error>)
        ensures
            match r {
                Ok(c) => parse_forward_tsn(bytes_seq(*buf)) == Ok::<ForwardTsnModel, Error>(c@),
                Err(e) => parse_forward_tsn(bytes_seq(*buf)) == Err::<ForwardTsnModel, Error>(e),
            },
    {
        ChunkForwardTsn::parse(bytes_as_slice(buf))
    }

    /// Appends the bytes of the chunk to `v`.
    pub fn encode_to(&self, v: &mut Vec<u8>)
        requires
            self.streams@.len() <= MAX_FORWARD_TSN_STREAMS,
        ensures
            final(v)@ == old(v)@ + forward_tsn_bytes(self@),
    {
        self.header().encode_to(v);
        push_u32(v, self.new_cumulative_tsn);
        let ghost start = v@;
        let mut i: usize = 0;
        while i < self.streams.len()
            invariant
                0 <= i <= self.streams@.len(),
                v@ == start + entries_bytes(self.streams@.take(i as int)),
            decreases self.streams@.len() - i,
        {
            let s = self.streams[i];
            push_u16(v, s.identifier);
            push_u16(v, s.sequence);
            assert(self.streams@.take(i + 1).drop_last() =~= self.streams@.take(i as int));
            assert(v@ =~= start + entries_bytes(self.streams@.take(i + 1)));
            i += 1;
        }
        assert(self.streams@.take(i as int) =~= self.streams@);
        assert(final(v)@ =~= old(v)@ + forward_tsn_bytes(self@));
    }
    /// Appends the chunk to `writer` and returns the number of bytes
    /// written: eight, and four per stream entry.
    /// More stream entries than the length field can carry are refused and
    /// leave `writer` as it was.
    pub fn marshal_to(&self, writer: &mut BytesMut) -> (r: Result<usize, Error>)
        requires
            self.streams@.len() <= MAX_FORWARD_TSN_STREAMS ==> bytes_mut_seq(*old(writer)).len() + 8
                + 4 * self.streams@.len() <= isize::MAX,
        ensures
            self.streams@.len() <= MAX_FORWARD_TSN_STREAMS ==> bytes_mut_seq(*final(writer))
                == bytes_mut_seq(*old(writer)) + forward_tsn_bytes(self@) && r == Ok::<
                usize,
                Error,
            >((8 + 4 * self.streams@.len()) as usize),
            self.streams@.len() > MAX_FORWARD_TSN_STREAMS ==> bytes_mut_seq(*final(writer))
                == bytes_mut_seq(*old(writer)) && r == Err::<usize, Error>(
                Error::ErrChunkValueTooLarge,
            ),
    {
        if self.streams.len() > MAX_FORWARD_TSN_STREAMS {
            return Err(Error::ErrChunkValueTooLarge);
        }
        proof {
            lemma_forward_tsn_length(self@);
        }
        let mut v: Vec<u8> = Vec::new();
        self.encode_to(&mut v);
        bytes_mut_extend(writer, v.as_slice());
        Ok(8 + FORWARD_TSN_STREAM_ENTRY_LENGTH * self.streams.len())
    }

    /// The bytes of the chunk in a buffer of their own. More stream entries
    /// than the length field can carry are refused.
    pub fn marshal(&self) -> (r: Result<Bytes, Error>)
        ensures
            self.streams@.len() <= MAX_FORWARD_TSN_STREAMS ==> r is Ok && bytes_seq(r->Ok_0)
                == forward_tsn_bytes(self@),
            self.streams@.len() > MAX_FORWARD_TSN_STREAMS ==> r == Err::<Bytes, Error>(
                Error::ErrChunkValueTooLarge,
            ),
    {
        let mut writer = bytes_mut_new();
        match self.marshal_to(&mut writer) {
            Ok(_) => {
                assert(bytes_mut_seq(writer) =~= forward_tsn_bytes(self@));
                Ok(bytes_mut_freeze(writer))
            },
            Err(e) => Err(e),
        }
    }
    /// The chunk as text, one line for the type, one for the cumulative TSN
    /// and one per stream entry.
    pub fn to_string(&self) -> (r: String)
        ensures
            r@ == forward_tsn_text(self@),
    {
        let mut s = String::new();
        s.append("FORWARD-TSN");
        s.append("\nNew Cumulative TSN: ");
        push_decimal(&mut s, self.new_cumulative_tsn);
        let ghost start = s@;
        let mut i: usize = 0;
        while i < self.streams.len()
            invariant
                0 <= i <= self.streams@.len(),
                s@ == start + entries_text(self.streams@.take(i as int)),
            decreases self.streams@.len() - i,
        {
            let e = self.streams[i];
            s.append("\n - si=");
            push_decimal(&mut s, e.identifier as u32);
            s.append(", ssn=");
            push_decimal(&mut s, e.sequence as u32);
            assert(self.streams@.take(i + 1).drop_last() =~= self.streams@.take(i as int));
            proof {
                reveal_strlit("\n - si=");
                reveal_strlit("\n");
                reveal_strlit(" - si=");
            }
            assert(s@ =~= start + entries_text(self.streams@.take(i + 1)));
            i += 1;
        }
        assert(self.streams@.take(i as int) =~= self.streams@);
        assert(s@ =~= forward_tsn_text(self@));
        s
    }
}

} // verus!

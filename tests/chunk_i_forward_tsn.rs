use bytes::{Bytes, BytesMut};
use sctp_proto::chunk::chunk_header::ChunkHeader;
use sctp_proto::chunk::chunk_i_forward_tsn::{ChunkIForwardTsn, ChunkIForwardTsnStream};
use sctp_proto::Error;

fn stream(identifier: u16, unordered: bool, mid: u32) -> ChunkIForwardTsnStream {
    ChunkIForwardTsnStream {
        identifier,
        unordered,
        mid,
    }
}

fn round_trip(c: &ChunkIForwardTsn) -> ChunkIForwardTsn {
    let b = c.marshal().unwrap();
    ChunkIForwardTsn::unmarshal(&b).unwrap()
}

#[test]
fn i_forward_tsn_encode_scenario() {
    let c = ChunkIForwardTsn {
        new_cumulative_tsn: 1000,
        streams: vec![stream(3, true, 42)],
    };
    let b = c.marshal().unwrap();
    assert_eq!(b.len(), 16);
    assert_eq!(
        &b[..],
        &[194, 0x00, 0x00, 0x10, 0, 0, 0x03, 0xE8, 0x00, 0x03, 0x01, 0x00, 0x00, 0x00, 0x00, 0x2A][..]
    );
    let d = ChunkIForwardTsn::unmarshal(&b).unwrap();
    assert_eq!(d.new_cumulative_tsn, 1000);
    assert_eq!(d.streams, vec![stream(3, true, 42)]);
}

#[test]
fn i_forward_tsn_round_trip_empty() {
    let c = ChunkIForwardTsn {
        new_cumulative_tsn: 7,
        streams: vec![],
    };
    let b = c.marshal().unwrap();
    assert_eq!(&b[..], &[194, 0, 0, 8, 0, 0, 0, 7][..]);
    let d = round_trip(&c);
    assert_eq!(d.new_cumulative_tsn, 7);
    assert!(d.streams.is_empty());
}

#[test]
fn i_forward_tsn_round_trip_several() {
    let c = ChunkIForwardTsn {
        new_cumulative_tsn: 0xDEAD_BEEF,
        streams: vec![stream(0, false, 0), stream(2, false, 5), stream(65535, true, u32::MAX)],
    };
    let d = round_trip(&c);
    assert_eq!(d.new_cumulative_tsn, 0xDEAD_BEEF);
    assert_eq!(d.streams, c.streams);
}

#[test]
fn i_forward_tsn_round_trip_largest() {
    let streams: Vec<ChunkIForwardTsnStream> = (0..8190u32)
        .map(|i| stream(i as u16, i % 3 == 0, i * 7))
        .collect();
    let c = ChunkIForwardTsn {
        new_cumulative_tsn: 99,
        streams,
    };
    let b = c.marshal().unwrap();
    assert_eq!(b.len(), 8 + 8 * 8190);
    assert_eq!(&b[2..4], &[0xFF, 0xF8][..]);
    let d = ChunkIForwardTsn::unmarshal(&b).unwrap();
    assert_eq!(d.streams, c.streams);
}

#[test]
fn i_forward_tsn_too_many_streams() {
    let c = ChunkIForwardTsn {
        new_cumulative_tsn: 1,
        streams: vec![stream(1, false, 1); 8191],
    };
    assert_eq!(c.marshal().unwrap_err(), Error::ErrChunkValueTooLarge);
    assert_eq!(c.value_length(), 4 + 8 * 8191);
    let mut w = BytesMut::new();
    w.extend_from_slice(&[9, 9]);
    assert_eq!(c.marshal_to(&mut w), Err(Error::ErrChunkValueTooLarge));
    assert_eq!(&w[..], &[9, 9][..]);
}

#[test]
fn i_forward_tsn_truncated_is_rejected() {
    let c = ChunkIForwardTsn {
        new_cumulative_tsn: 1000,
        streams: vec![stream(3, true, 42), stream(4, false, 43)],
    };
    let b = c.marshal().unwrap();
    for k in 0..b.len() {
        let t = Bytes::copy_from_slice(&b[..k]);
        let e = ChunkIForwardTsn::unmarshal(&t).unwrap_err();
        if k < 4 {
            assert_eq!(e, Error::ErrChunkHeaderTooSmall);
        } else {
            assert_eq!(e, Error::ErrChunkHeaderNotEnoughSpace);
        }
    }
}

#[test]
fn i_forward_tsn_error_kinds() {
    let bad_length = Bytes::from(vec![194u8, 0, 0, 3, 0, 0, 0, 0]);
    assert_eq!(
        ChunkIForwardTsn::unmarshal(&bad_length).unwrap_err(),
        Error::ErrChunkHeaderInvalidLength
    );
    let wrong_type = Bytes::from(vec![192u8, 0, 0, 8, 0, 0, 0, 1]);
    assert_eq!(
        ChunkIForwardTsn::unmarshal(&wrong_type).unwrap_err(),
        Error::ErrChunkTypeNotForwardTsn
    );
    let too_short = Bytes::from(vec![194u8, 0, 0, 6, 0, 0, 0, 0]);
    assert_eq!(
        ChunkIForwardTsn::unmarshal(&too_short).unwrap_err(),
        Error::ErrChunkTooShort
    );
}

#[test]
fn i_forward_tsn_partial_entry_and_reserved_ignored() {
    // Value length 15: the TSN, one entry, and three bytes short of a
    // second entry. The reserved byte and the upper flag bits are not read.
    let raw = Bytes::from(vec![
        194u8, 0, 0, 19, 0, 0, 1, 0, 0, 2, 0xFE, 0x77, 0, 0, 0, 5, 1, 2, 3, 0xAA,
    ]);
    let d = ChunkIForwardTsn::unmarshal(&raw).unwrap();
    assert_eq!(d.new_cumulative_tsn, 256);
    assert_eq!(d.streams, vec![stream(2, false, 5)]);
}

#[test]
fn i_forward_tsn_marshal_to_appends() {
    let c = ChunkIForwardTsn {
        new_cumulative_tsn: 2,
        streams: vec![stream(1, false, 9)],
    };
    let mut w = BytesMut::new();
    w.extend_from_slice(&[0xAB; 3]);
    assert_eq!(c.marshal_to(&mut w), Ok(16));
    assert_eq!(w.len(), 19);
    assert_eq!(&w[..3], &[0xAB; 3][..]);
    assert_eq!(&w[3..], &[194, 0, 0, 16, 0, 0, 0, 2, 0, 1, 0, 0, 0, 0, 0, 9][..]);
}

#[test]
fn i_forward_tsn_header_and_check() {
    let c = ChunkIForwardTsn {
        new_cumulative_tsn: 2,
        streams: vec![stream(1, false, 9), stream(2, true, 10)],
    };
    assert_eq!(c.value_length(), 20);
    assert_eq!(
        c.header(),
        ChunkHeader {
            typ: 194,
            flags: 0,
            value_length: 20
        }
    );
    assert!(c.check().is_ok());
    let d = ChunkIForwardTsn::default();
    assert_eq!(d.value_length(), 4);
}

#[test]
fn chunk_header_codec() {
    let h = ChunkHeader {
        typ: 1,
        flags: 0x80,
        value_length: 12,
    };
    let mut w = BytesMut::new();
    assert_eq!(h.marshal_to(&mut w), Ok(4));
    assert_eq!(&w[..], &[1, 0x80, 0, 16][..]);
    let too_large = ChunkHeader {
        typ: 1,
        flags: 0,
        value_length: 65532,
    };
    assert_eq!(too_large.marshal_to(&mut w), Err(Error::ErrChunkValueTooLarge));
    let mut w2 = BytesMut::new();
    w2.extend_from_slice(&[7; 5]);
    assert_eq!(h.marshal_to(&mut w2), Ok(4));
    assert_eq!(&w2[5..], &[1, 0x80, 0, 16][..]);
    assert_eq!(w.len(), 4);
    w.extend_from_slice(&[0u8; 12]);
    let b = w.freeze();
    assert_eq!(ChunkHeader::unmarshal(&b), Ok(h));
    assert_eq!(h.value_length(), 12);
    assert_eq!(
        ChunkHeader::unmarshal(&Bytes::from(vec![1u8, 0, 0])),
        Err(Error::ErrChunkHeaderTooSmall)
    );
    assert_eq!(
        ChunkHeader::unmarshal(&Bytes::from(vec![1u8, 0, 0, 5])),
        Err(Error::ErrChunkHeaderNotEnoughSpace)
    );
}

#[test]
fn i_forward_tsn_text() {
    let c = ChunkIForwardTsn {
        new_cumulative_tsn: 1000,
        streams: vec![stream(3, true, 42), stream(10, false, 0)],
    };
    assert_eq!(
        c.to_string(),
        "I-FORWARD-TSN\nNew Cumulative TSN: 1000\n - si=3, unordered=true, mid=42\n - si=10, unordered=false, mid=0"
    );
    let empty = ChunkIForwardTsn::default();
    assert_eq!(empty.to_string(), "I-FORWARD-TSN\nNew Cumulative TSN: 0");
}

#[test]
fn decimal_text() {
    let mut s = String::from("n=");
    sctp_proto::text::push_decimal(&mut s, 0);
    assert_eq!(s, "n=0");
    let mut t = String::new();
    sctp_proto::text::push_decimal(&mut t, u32::MAX);
    assert_eq!(t, "4294967295");
    let mut u = String::new();
    sctp_proto::text::push_decimal(&mut u, 1009);
    assert_eq!(u, "1009");
}

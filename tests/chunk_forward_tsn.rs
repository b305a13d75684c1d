use bytes::Bytes;
use sctp_proto::chunk::chunk_forward_tsn::{ChunkForwardTsn, ChunkForwardTsnStream};
use sctp_proto::Error;

#[test]
fn forward_tsn_exact_bytes() {
    let c = ChunkForwardTsn {
        new_cumulative_tsn: 1000,
        streams: vec![ChunkForwardTsnStream {
            identifier: 3,
            sequence: 42,
        }],
    };
    let b = c.marshal().unwrap();
    assert_eq!(&b[..], &[192, 0, 0, 12, 0, 0, 3, 232, 0, 3, 0, 42][..]);
    let d = ChunkForwardTsn::unmarshal(&b).unwrap();
    assert_eq!(d.new_cumulative_tsn, 1000);
    assert_eq!(d.streams, c.streams);
    assert_eq!(
        c.to_string(),
        "FORWARD-TSN\nNew Cumulative TSN: 1000\n - si=3, ssn=42"
    );
}

#[test]
fn forward_tsn_round_trip_empty_and_largest() {
    let empty = ChunkForwardTsn::default();
    let b = empty.marshal().unwrap();
    assert_eq!(&b[..], &[192, 0, 0, 8, 0, 0, 0, 0][..]);
    assert!(ChunkForwardTsn::unmarshal(&b).unwrap().streams.is_empty());
    let streams: Vec<ChunkForwardTsnStream> = (0..16381u32)
        .map(|i| ChunkForwardTsnStream {
            identifier: i as u16,
            sequence: (i * 3) as u16,
        })
        .collect();
    let big = ChunkForwardTsn {
        new_cumulative_tsn: u32::MAX,
        streams,
    };
    let b = big.marshal().unwrap();
    assert_eq!(b.len(), 8 + 4 * 16381);
    let d = ChunkForwardTsn::unmarshal(&b).unwrap();
    assert_eq!(d.new_cumulative_tsn, u32::MAX);
    assert_eq!(d.streams, big.streams);
    let mut over = big.clone();
    over.streams.push(ChunkForwardTsnStream {
        identifier: 0,
        sequence: 0,
    });
    assert_eq!(over.marshal().unwrap_err(), Error::ErrChunkValueTooLarge);
    assert_eq!(over.value_length(), 4 + 4 * 16382);
    let mut w = bytes::BytesMut::new();
    w.extend_from_slice(&[1, 2]);
    assert_eq!(empty.marshal_to(&mut w), Ok(8));
    assert_eq!(w.len(), 10);
}

#[test]
fn forward_tsn_rejections() {
    let b = Bytes::from(vec![192u8, 0, 0, 12, 0, 0, 0, 1, 0, 2, 0, 3]);
    for k in 0..b.len() {
        let e = ChunkForwardTsn::unmarshal(&Bytes::copy_from_slice(&b[..k])).unwrap_err();
        assert!(e == Error::ErrChunkHeaderTooSmall || e == Error::ErrChunkHeaderNotEnoughSpace);
    }
    let i_forward = Bytes::from(vec![194u8, 0, 0, 8, 0, 0, 0, 1]);
    assert_eq!(
        ChunkForwardTsn::unmarshal(&i_forward).unwrap_err(),
        Error::ErrChunkTypeNotForwardTsn
    );
    let partial = Bytes::from(vec![192u8, 0, 0, 11, 0, 0, 0, 1, 0, 2, 0]);
    assert!(ChunkForwardTsn::unmarshal(&partial).unwrap().streams.is_empty());
}

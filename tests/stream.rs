use sctp_proto::chunk::chunk_i_forward_tsn::ChunkIForwardTsnStream;
use sctp_proto::reassembly::{Message, StreamReassembly};
use sctp_proto::stream::{abandons, forward_advisory, ReliabilityType};

fn entry(identifier: u16, unordered: bool, mid: u32) -> ChunkIForwardTsnStream {
    ChunkIForwardTsnStream {
        identifier,
        unordered,
        mid,
    }
}

#[test]
fn abandonment_by_reliability_type() {
    assert!(!abandons(ReliabilityType::Reliable, 0, 100, 0, 1_000_000));
    assert!(!abandons(ReliabilityType::Rexmit, 3, 2, 0, 0));
    assert!(abandons(ReliabilityType::Rexmit, 3, 3, 0, 0));
    assert!(!abandons(ReliabilityType::Timed, 500, 1, 1000, 1499));
    assert!(abandons(ReliabilityType::Timed, 500, 1, 1000, 1500));
    assert!(!abandons(ReliabilityType::Timed, 0, 1, 1000, 999));
}

#[test]
fn advisory_keeps_highest_mid_per_stream_and_sequence() {
    let msgs = vec![
        entry(2, false, 4),
        entry(2, false, 5),
        entry(2, true, 9),
        entry(7, false, 1),
        entry(2, false, 3),
        entry(2, true, 8),
    ];
    let c = forward_advisory(77, &msgs);
    assert_eq!(c.new_cumulative_tsn, 77);
    assert_eq!(
        c.streams,
        vec![entry(2, false, 5), entry(2, true, 9), entry(7, false, 1)]
    );
    assert!(forward_advisory(1, &vec![]).streams.is_empty());
}

#[test]
fn advisory_unblocks_the_peer() {
    let abandoned = vec![entry(2, false, 4), entry(2, false, 5)];
    let c = forward_advisory(100, &abandoned);
    let bytes = c.marshal().unwrap();
    let decoded =
        sctp_proto::chunk::chunk_i_forward_tsn::ChunkIForwardTsn::unmarshal(&bytes).unwrap();
    let mut q = StreamReassembly::new(2);
    q.push(Message {
        mid: 6,
        unordered: false,
        payload: vec![6],
    });
    assert_eq!(q.ready_len(), 0);
    q.handle_forward_tsn(&decoded);
    assert_eq!(q.pop().unwrap().mid, 6);
    assert_eq!(q.next_mid(), 7);
}

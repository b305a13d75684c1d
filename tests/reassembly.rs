use bytes::Bytes;
use sctp_proto::chunk::chunk_i_forward_tsn::{ChunkIForwardTsn, ChunkIForwardTsnStream};
use sctp_proto::reassembly::{Message, StreamReassembly};

fn ordered(mid: u32) -> Message {
    Message {
        mid,
        unordered: false,
        payload: vec![mid as u8],
    }
}

fn unordered(mid: u32) -> Message {
    Message {
        mid,
        unordered: true,
        payload: vec![0xF0 | mid as u8],
    }
}

fn drain_mids(q: &mut StreamReassembly) -> Vec<u32> {
    let mut out = vec![];
    while let Some(m) = q.pop() {
        out.push(m.mid);
    }
    out
}

#[test]
fn ordered_messages_out_of_network_order() {
    let mut q = StreamReassembly::new(1);
    q.push(ordered(2));
    q.push(ordered(1));
    assert_eq!(q.ready_len(), 0);
    q.push(ordered(0));
    assert_eq!(q.ready_len(), 3);
    q.push(ordered(4));
    assert_eq!(drain_mids(&mut q), vec![0, 1, 2]);
    q.push(ordered(3));
    let m = q.pop().unwrap();
    assert_eq!((m.mid, m.payload), (3, vec![3]));
    assert_eq!(drain_mids(&mut q), vec![4]);
    assert_eq!(q.next_mid(), 5);
}

#[test]
fn unordered_messages_in_completion_order() {
    let mut q = StreamReassembly::new(1);
    q.push(unordered(9));
    q.push(ordered(1));
    q.push(unordered(3));
    q.push(unordered(7));
    assert_eq!(drain_mids(&mut q), vec![9, 3, 7]);
    assert_eq!(q.next_mid(), 0);
}

#[test]
fn duplicates_and_stale_messages_are_dropped() {
    let mut q = StreamReassembly::new(1);
    q.push(ordered(0));
    q.push(ordered(0));
    q.push(ordered(2));
    q.push(ordered(2));
    assert_eq!(drain_mids(&mut q), vec![0]);
    q.push(ordered(1));
    assert_eq!(drain_mids(&mut q), vec![1, 2]);
}

#[test]
fn forward_tsn_skips_stream_two_up_to_five() {
    let mut q = StreamReassembly::new(2);
    q.push(ordered(3));
    q.push(ordered(6));
    q.push(ordered(8));
    assert_eq!(q.ready_len(), 0);
    q.forward(&ChunkIForwardTsnStream {
        identifier: 2,
        unordered: false,
        mid: 5,
    });
    assert_eq!(q.next_mid(), 7);
    assert_eq!(drain_mids(&mut q), vec![6]);
    for mid in 0..=5 {
        q.push(ordered(mid));
    }
    assert_eq!(q.ready_len(), 0);
    q.push(ordered(7));
    assert_eq!(drain_mids(&mut q), vec![7, 8]);
}

#[test]
fn forward_tsn_for_other_streams_or_unordered_is_ignored() {
    let mut q = StreamReassembly::new(2);
    q.push(ordered(1));
    q.forward(&ChunkIForwardTsnStream {
        identifier: 3,
        unordered: false,
        mid: 5,
    });
    q.forward(&ChunkIForwardTsnStream {
        identifier: 2,
        unordered: true,
        mid: 5,
    });
    assert_eq!(q.next_mid(), 0);
    assert_eq!(q.stream_identifier(), 2);
    q.push(ordered(0));
    assert_eq!(drain_mids(&mut q), vec![0, 1]);
    q.forward(&ChunkIForwardTsnStream {
        identifier: 2,
        unordered: false,
        mid: 1,
    });
    assert_eq!(q.next_mid(), 2);
}

#[test]
fn forward_tsn_chunk_from_the_wire() {
    let raw = Bytes::from(vec![
        194u8, 0, 0, 24, 0, 0, 3, 232, 0, 2, 0, 0, 0, 0, 0, 5, 0, 9, 0, 0, 0, 0, 0, 1,
    ]);
    let c = ChunkIForwardTsn::unmarshal(&raw).unwrap();
    let mut q = StreamReassembly::new(2);
    q.push(ordered(6));
    q.handle_forward_tsn(&c);
    assert_eq!(drain_mids(&mut q), vec![6]);
    assert_eq!(q.next_mid(), 7);
}

#[test]
fn largest_mid_ends_the_ordered_sequence() {
    let mut q = StreamReassembly::new(0);
    q.forward(&ChunkIForwardTsnStream {
        identifier: 0,
        unordered: false,
        mid: u32::MAX - 1,
    });
    q.push(ordered(u32::MAX));
    assert_eq!(drain_mids(&mut q), vec![u32::MAX]);
    assert_eq!(q.next_mid(), 1u64 << 32);
    q.push(ordered(u32::MAX));
    assert_eq!(q.ready_len(), 0);
}

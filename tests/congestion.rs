use sctp_proto::congestion::{CongestionControl, GapAckBlock};
use sctp_proto::Error;

fn sender() -> CongestionControl {
    let mut c = CongestionControl::new(9, 1200).unwrap();
    for tsn in 10..=14 {
        c.send(tsn, 1200).unwrap();
    }
    c
}

#[test]
fn three_miss_reports_trigger_fast_retransmit() {
    let mut c = sender();
    assert_eq!(c.cwnd(), 4800);
    let r = c.handle_sack(9, &vec![GapAckBlock { start: 2, end: 2 }]);
    assert!(r.is_empty());
    assert_eq!(c.inflight(0).unwrap().miss_indications, 1);
    let r = c.handle_sack(9, &vec![GapAckBlock { start: 2, end: 3 }]);
    assert!(r.is_empty());
    assert_eq!(c.ssthresh(), u32::MAX);
    let r = c.handle_sack(9, &vec![GapAckBlock { start: 2, end: 4 }]);
    assert_eq!(r, vec![10]);
    assert!(c.inflight(0).unwrap().fast_retransmit);
    assert_eq!(c.ssthresh(), 2400);
    assert_eq!(c.cwnd(), 2400);
    assert_eq!(c.inflight(1).unwrap().miss_indications, 0);
}

#[test]
fn cumulative_ack_point_never_decreases() {
    let mut c = sender();
    c.handle_sack(12, &vec![]);
    assert_eq!(c.cumulative_tsn_ack_point(), 12);
    assert_eq!(c.cwnd(), 6000);
    assert_eq!(c.inflight(0).unwrap().tsn, 13);
    assert!(c.inflight(2).is_none());
    let r = c.handle_sack(10, &vec![GapAckBlock { start: 4, end: 4 }]);
    assert!(r.is_empty());
    assert_eq!(c.cumulative_tsn_ack_point(), 12);
    assert_eq!(c.inflight(0).unwrap().miss_indications, 0);
    c.handle_sack(14, &vec![]);
    assert_eq!(c.cumulative_tsn_ack_point(), 14);
    assert_eq!(c.cwnd(), 7200);
    assert!(c.inflight(0).is_none());
}

#[test]
fn window_halving_keeps_one_mtu() {
    let mut c = CongestionControl::new(0, 1000).unwrap();
    c.send(1, 0).unwrap();
    for _ in 0..3 {
        c.handle_sack(0, &vec![GapAckBlock { start: 2, end: 2 }]);
    }
    assert_eq!(c.ssthresh(), 2000);
    assert_eq!(c.cwnd(), 2000);
    c.send(2, 0).unwrap();
    for _ in 0..3 {
        c.handle_sack(1, &vec![GapAckBlock { start: 2, end: 2 }]);
    }
    assert_eq!(c.ssthresh(), 1000);
    assert_eq!(c.cwnd(), 1000);
    c.send(3, 0).unwrap();
    for _ in 0..3 {
        c.handle_sack(2, &vec![GapAckBlock { start: 2, end: 2 }]);
    }
    assert_eq!(c.ssthresh(), 500);
    assert_eq!(c.cwnd(), 1000);
}

#[test]
fn send_errors() {
    assert!(matches!(CongestionControl::new(0, 0), Err(Error::ErrZeroMtu)));
    let mut c = sender();
    assert_eq!(c.send(14, 10), Err(Error::ErrTsnNotIncreasing));
    assert_eq!(c.send(3, 10), Err(Error::ErrTsnNotIncreasing));
    assert_eq!(c.send(15, 10), Ok(()));
}

#[test]
fn slow_start_then_congestion_avoidance() {
    let mut c = CongestionControl::new(0, 1000).unwrap();
    c.send(1, 1000).unwrap();
    c.send(2, 1000).unwrap();
    for _ in 0..3 {
        c.handle_sack(0, &vec![GapAckBlock { start: 2, end: 2 }]);
    }
    assert_eq!((c.cwnd(), c.ssthresh()), (2000, 2000));
    c.handle_sack(2, &vec![]);
    assert_eq!(c.cwnd(), 3000);
    assert_eq!(c.partial_bytes_acked(), 0);
    for tsn in 3..=5 {
        c.send(tsn, 1000).unwrap();
    }
    c.handle_sack(3, &vec![]);
    assert_eq!((c.cwnd(), c.partial_bytes_acked()), (3000, 1000));
    c.handle_sack(5, &vec![]);
    assert_eq!((c.cwnd(), c.partial_bytes_acked()), (4000, 0));
}

#[test]
fn tsn_order_wraps_at_two_to_the_32() {
    let mut c = CongestionControl::new(u32::MAX - 1, 1000).unwrap();
    c.send(u32::MAX, 100).unwrap();
    c.send(0, 100).unwrap();
    c.send(1, 100).unwrap();
    c.send(2, 100).unwrap();
    assert_eq!(c.send(u32::MAX, 1), Err(Error::ErrTsnNotIncreasing));
    assert_eq!(c.send(u32::MAX - 1, 1), Err(Error::ErrTsnNotIncreasing));
    c.handle_sack(0, &vec![]);
    assert_eq!(c.cumulative_tsn_ack_point(), 0);
    assert_eq!(c.inflight(0).unwrap().tsn, 1);
    let r = c.handle_sack(u32::MAX - 5, &vec![]);
    assert!(r.is_empty());
    assert_eq!(c.cumulative_tsn_ack_point(), 0);
    for _ in 0..2 {
        c.handle_sack(0, &vec![GapAckBlock { start: 2, end: 2 }]);
    }
    let r = c.handle_sack(0, &vec![GapAckBlock { start: 2, end: 2 }]);
    assert_eq!(r, vec![1]);
    c.handle_sack(2, &vec![]);
    assert_eq!(c.cumulative_tsn_ack_point(), 2);
    assert!(c.inflight(0).is_none());
}

use sctp_proto::timer::RetransmitTimer;
use sctp_proto::Error;

#[test]
fn timer_backs_off_and_caps() {
    let mut t = RetransmitTimer::new(1000, 5000, 3).unwrap();
    assert!(!t.is_expired(10_000));
    t.start(100);
    assert_eq!(t.deadline, Some(1100));
    assert!(!t.is_expired(1099));
    assert!(t.is_expired(1100));
    assert_eq!(t.on_expiry(1100), Ok(2000));
    assert_eq!(t.deadline, Some(3100));
    assert_eq!(t.on_expiry(3100), Ok(4000));
    assert_eq!(t.on_expiry(7100), Ok(5000));
    assert_eq!(t.expirations, 3);
    assert_eq!(t.on_expiry(12100), Err(Error::ErrPeerUnreachable));
    assert_eq!(t.deadline, None);
}

#[test]
fn timer_progress_resets_expirations() {
    let mut t = RetransmitTimer::new(200, 800, 1).unwrap();
    t.start(0);
    assert_eq!(t.on_expiry(200), Ok(400));
    t.on_progress(300);
    assert_eq!(t.expirations, 0);
    assert_eq!(t.deadline, Some(700));
    assert_eq!(t.on_expiry(700), Ok(800));
    t.stop();
    assert!(!t.is_expired(u64::MAX));
    t.start(u64::MAX - 1);
    assert_eq!(t.deadline, Some(u64::MAX));
}

#[test]
fn timer_bounds_refused() {
    assert_eq!(RetransmitTimer::new(0, 10, 1), Err(Error::ErrInvalidRtoBounds));
    assert_eq!(RetransmitTimer::new(20, 10, 1), Err(Error::ErrInvalidRtoBounds));
}

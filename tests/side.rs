use sctp_proto::association::Handshake;
use sctp_proto::chunk::chunk_i_forward_tsn::ChunkIForwardTsn;
use sctp_proto::congestion::CongestionControl;
use sctp_proto::endpoint::Endpoint;
use sctp_proto::reassembly::StreamReassembly;
use sctp_proto::Side;

#[test]
fn ensure_send_sync() {
    fn is_send_sync(_a: impl Send + Sync) {}

    is_send_sync(Side::default());
    is_send_sync(ChunkIForwardTsn::default());
    is_send_sync(Endpoint::new(true));
    is_send_sync(Handshake::new(Side::Client, 1));
    is_send_sync(StreamReassembly::new(0));
    is_send_sync(CongestionControl::new(0, 1200).unwrap());
}

#[test]
fn side_queries() {
    assert!(Side::Client.is_client());
    assert!(!Side::Client.is_server());
    assert!(Side::Server.is_server());
    assert!(!Side::Server.is_client());
    assert_eq!(Side::default(), Side::Client);
}

#[test]
fn side_not_and_name() {
    assert_eq!(!Side::Client, Side::Server);
    assert_eq!(Side::Client.opposite_side(), Side::Server);
    assert_eq!(!Side::Server, Side::Client);
    assert_eq!(Side::Client.to_string(), "Client");
    assert_eq!(Side::Server.to_string(), "Server");
}

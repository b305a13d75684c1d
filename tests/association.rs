use sctp_proto::association::{
    AssociationEvent, AssociationState, Handshake, Inbound, Outbound, Reaction,
};
use sctp_proto::{Error, Side};

#[test]
fn client_handshake_reaches_established() {
    let mut client = Handshake::new(Side::Client, 0x1111);
    assert_eq!(client.connect(), Ok(Outbound::Init { initiate_tag: 0x1111 }));
    assert_eq!(client.state, AssociationState::CookieWait);
    let r = client.handle(0x1111, Inbound::InitAck { initiate_tag: 0x2222 });
    assert_eq!(r.outbound, Some(Outbound::CookieEcho));
    assert_eq!(r.event, None);
    assert_eq!(client.state, AssociationState::CookieEchoed);
    assert_eq!(client.peer_tag, 0x2222);
    let r = client.handle(0x1111, Inbound::CookieAck);
    assert_eq!(r.outbound, None);
    assert_eq!(r.event, Some(AssociationEvent::Established));
    assert_eq!(client.state, AssociationState::Established);
}

#[test]
fn server_handshake_reaches_established() {
    let mut server = Handshake::new(Side::Server, 0x2222);
    let r = server.handle(0, Inbound::Init { initiate_tag: 0x1111 });
    assert_eq!(r.outbound, Some(Outbound::InitAck { initiate_tag: 0x2222 }));
    assert_eq!(server.state, AssociationState::Closed);
    assert_eq!(server.peer_tag, 0x1111);
    let r = server.handle(0x2222, Inbound::CookieEcho);
    assert_eq!(
        r,
        Reaction {
            outbound: Some(Outbound::CookieAck),
            event: Some(AssociationEvent::Established)
        }
    );
    assert_eq!(server.state, AssociationState::Established);
}

#[test]
fn wrong_tag_is_discarded_and_abort_closes() {
    let mut client = Handshake::new(Side::Client, 7);
    client.connect().unwrap();
    let r = client.handle(8, Inbound::InitAck { initiate_tag: 9 });
    assert_eq!(r.outbound, None);
    assert_eq!(client.state, AssociationState::CookieWait);
    assert_eq!(client.connect(), Err(Error::ErrAssociationNotClosed));
    let r = client.handle(7, Inbound::Abort);
    assert_eq!(r.event, Some(AssociationEvent::Aborted));
    assert_eq!(client.state, AssociationState::Closed);
    let mut server = Handshake::new(Side::Server, 3);
    assert_eq!(server.connect(), Err(Error::ErrAssociationNotClosed));
    let r = server.handle(5, Inbound::Init { initiate_tag: 1 });
    assert_eq!(r.outbound, None);
}

use sctp_proto::endpoint::{AssociationHandle, CommonHeader, DatagramEvent, Endpoint};
use sctp_proto::shared::EcnCodepoint;
use sctp_proto::Error;

fn packet(tag: u32, first_chunk: u8) -> Vec<u8> {
    let mut p = vec![0x13, 0x88, 0x13, 0x89];
    p.extend_from_slice(&tag.to_be_bytes());
    p.extend_from_slice(&[0xAA, 0xBB, 0xCC, 0xDD]);
    p.extend_from_slice(&[first_chunk, 0, 0, 4]);
    p
}

#[test]
fn common_header_decodes() {
    let p = packet(0x0102_0304, 0);
    assert_eq!(
        CommonHeader::parse(&p),
        Ok(CommonHeader {
            source_port: 5000,
            destination_port: 5001,
            verification_tag: 0x0102_0304,
            checksum: 0xAABB_CCDD,
        })
    );
    assert_eq!(CommonHeader::parse(&p[..11]), Err(Error::ErrPacketTooShort));
}

#[test]
fn datagrams_route_by_tag() {
    let mut e = Endpoint::new(true);
    assert!(e.insert(7, AssociationHandle(0)));
    assert!(e.insert(9, AssociationHandle(1)));
    assert!(!e.insert(9, AssociationHandle(2)));
    assert!(!e.insert(0, AssociationHandle(3)));
    assert_eq!(e.route(&packet(9, 0)), DatagramEvent::Existing(AssociationHandle(1)));
    assert_eq!(e.route(&packet(7, 3)), DatagramEvent::Existing(AssociationHandle(0)));
    assert_eq!(e.route(&packet(8, 0)), DatagramEvent::Ignored);
    assert_eq!(e.route(&packet(0, 1)), DatagramEvent::NewAssociation);
    assert_eq!(e.route(&packet(0, 0)), DatagramEvent::Ignored);
    assert_eq!(e.route(&packet(0, 1)[..12]), DatagramEvent::Ignored);
    assert_eq!(e.route(&[1, 2, 3]), DatagramEvent::Ignored);
}

#[test]
fn client_endpoint_refuses_init() {
    let e = Endpoint::new(false);
    assert_eq!(e.route(&packet(0, 1)), DatagramEvent::Ignored);
}

#[test]
fn ecn_codepoint_from_bits() {
    assert_eq!(EcnCodepoint::from_bits(0b10), Some(EcnCodepoint::Ect0));
    assert_eq!(EcnCodepoint::from_bits(0b01), Some(EcnCodepoint::Ect1));
    assert_eq!(EcnCodepoint::from_bits(0b111), Some(EcnCodepoint::Ce));
    assert_eq!(EcnCodepoint::from_bits(0b100), None);
}

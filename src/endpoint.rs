//! The common packet header and the routing of datagrams to associations
//! by verification tag.
use vstd::prelude::*;

use crate::chunk::wire::{be16_at, be32_at, read_u16, read_u32};
use crate::error::Error;

verus! {

/// Size of the common packet header in bytes.
pub const COMMON_HEADER_SIZE: usize = 12;

/// Chunk type of INIT.
pub const CT_INIT: u8 = 1;

/// The header that starts every SCTP packet.
#[derive(Debug, Copy, Clone, PartialEq, Eq, Structural)]
pub struct CommonHeader {
    pub source_port: u16,
    pub destination_port: u16,
    pub verification_tag: u32,
    pub checksum: u32,
}

/// The common header that starts `b`, or `ErrPacketTooShort` when `b` is
/// shorter than one.
pub open spec fn parse_common_header(b: Seq<u8>) -> Result<CommonHeader, Error> {
    if b.len() < COMMON_HEADER_SIZE {
        Err(Error::ErrPacketTooShort)
    } else {
        Ok(
            CommonHeader {
                source_port: be16_at(b, 0),
                destination_port: be16_at(b, 2),
                verification_tag: be32_at(b, 4),
                checksum: be32_at(b, 8),
            },
        )
    }
}

impl CommonHeader {
    /// Decodes the common header that starts `buf`.
    pub fn parse(buf: &[u8]) -> (r: Result<CommonHeader, Error>)
        ensures
            r == parse_common_header(buf@),
    {
        if buf.len() < COMMON_HEADER_SIZE {
            return Err(Error::ErrPacketTooShort);
        }
        Ok(
            CommonHeader {
                source_port: read_u16(buf, 0),
                destination_port: read_u16(buf, 2),
                verification_tag: read_u32(buf, 4),
                checksum: read_u32(buf, 8),
            },
        )
    }
}

/// Identifies an association within its endpoint.
#[derive(Debug, Copy, Clone, PartialEq, Eq, Structural, Hash)]
pub struct AssociationHandle(pub usize);

/// Where a datagram goes.
#[derive(Debug, Copy, Clone, PartialEq, Eq, Structural)]
pub enum DatagramEvent {
    /// To the association with this handle.
    Existing(AssociationHandle),
    /// It opens a new association on the server side.
    NewAssociation,
    /// Nowhere: it is malformed, or no association or server takes it.
    Ignored,
}

/// The associations of one endpoint by local verification tag, and whether
/// it accepts new ones.
pub struct Endpoint {
    associations: Vec<(u32, AssociationHandle)>,
    accept: bool,
}

/// The endpoint as mathematical values.
pub struct EndpointModel {
    pub associations: Seq<(u32, AssociationHandle)>,
    pub accept: bool,
}

impl View for Endpoint {
    type V = EndpointModel;

    closed spec fn view(&self) -> EndpointModel {
        EndpointModel { associations: self.associations@, accept: self.accept }
    }
}

/// No two associations share a local tag.
pub open spec fn tags_unique(e: EndpointModel) -> bool {
    forall|i: int, j: int|
        0 <= i < j < e.associations.len() ==> (#[trigger] e.associations[i]).0 != (#[trigger] e.associations[j]).0
}

/// Whether an association has local tag `tag`.
pub open spec fn has_tag(e: EndpointModel, tag: u32) -> bool {
    exists|i: int| 0 <= i < e.associations.len() && (#[trigger] e.associations[i]).0 == tag
}

/// Whether the first chunk after the common header is an INIT.
pub open spec fn starts_with_init(b: Seq<u8>) -> bool {
    b.len() > COMMON_HEADER_SIZE && b[COMMON_HEADER_SIZE as int] == CT_INIT
}

/// Where a datagram goes: a datagram too short for the common header is
/// ignored; one whose tag is an association's local tag goes to it; one with
/// tag zero whose first chunk is an INIT opens a new association when the
/// endpoint accepts them; any other is ignored.
pub open spec fn route_spec(e: EndpointModel, b: Seq<u8>) -> DatagramEvent {
    match parse_common_header(b) {
        Err(_) => DatagramEvent::Ignored,
        Ok(h) => if h.verification_tag != 0 && has_tag(e, h.verification_tag) {
            DatagramEvent::Existing(
                e.associations[choose|i: int| 0 <= i < e.associations.len() && (#[trigger] e.associations[i]).0 == h.verification_tag].1,
            )
        } else if h.verification_tag == 0 && starts_with_init(b) && e.accept {
            DatagramEvent::NewAssociation
        } else {
            DatagramEvent::Ignored
        },
    }
}

impl Endpoint {
    /// An endpoint without associations; `accept` says whether it takes new
    /// ones (a server).
    pub fn new(accept: bool) -> (r: Endpoint)
        ensures
            r@ == (EndpointModel { associations: Seq::empty(), accept }),
            tags_unique(r@),
    {
        Endpoint { associations: Vec::new(), accept }
    }

    /// The position of the association with local tag `tag`, if any.
    fn find(&self, tag: u32) -> (r: Option<usize>)
        ensures
            r is Some ==> r->Some_0 < self@.associations.len() && self@.associations[r->Some_0 as int].0 == tag,
            r is None ==> !has_tag(self@, tag),
    {
        let mut i: usize = 0;
        while i < self.associations.len()
            invariant
                0 <= i <= self@.associations.len(),
                self@.associations == self.associations@,
                forall|k: int| 0 <= k < i ==> (#[trigger] self@.associations[k]).0 != tag,
            decreases self@.associations.len() - i,
        {
            if self.associations[i].0 == tag {
                return Some(i);
            }
            i += 1;
        }
        None
    }

    /// Registers an association under its local tag. A tag that is zero or
    /// already in use is refused, and `false` returned.
    pub fn insert(&mut self, tag: u32, handle: AssociationHandle) -> (r: bool)
        requires
            tags_unique(old(self)@),
        ensures
            tags_unique(final(self)@),
            r == (tag != 0 && !has_tag(old(self)@, tag)),
            r ==> final(self)@ == (EndpointModel {
                associations: old(self)@.associations.push((tag, handle)),
                ..old(self)@
            }),
            !r ==> final(self)@ == old(self)@,
    {
        if tag == 0 {
            return false;
        }
        match self.find(tag) {
            Some(_) => false,
            None => {
                self.associations.push((tag, handle));
                proof {
                    let s = self@.associations;
                    let o = old(self)@.associations;
                    assert forall|i: int, j: int| 0 <= i < j < s.len() implies (#[trigger] s[i]).0 != (#[trigger] s[j]).0 by {
                        assert(s[i] == o[i]);
                        if j < o.len() {
                            assert(s[j] == o[j]);
                        } else {
                            assert(!(0 <= i < o.len() && o[i].0 == tag));
                        }
                    }
                }
                true
            },
        }
    }

    /// Decides where a datagram goes; see `route_spec`.
    pub fn route(&self, datagram: &[u8]) -> (r: DatagramEvent)
        requires
            tags_unique(self@),
        ensures
            r == route_spec(self@, datagram@),
    {
        let h = match CommonHeader::parse(datagram) {
            Ok(h) => h,
            Err(_) => return DatagramEvent::Ignored,
        };
        if h.verification_tag != 0 {
            match self.find(h.verification_tag) {
                Some(i) => {
                    proof {
                        let e = self@;
                        let c = choose|k: int| 0 <= k < e.associations.len() && (#[trigger] e.associations[k]).0 == h.verification_tag;
                        assert(c == i as int);
                    }
                    return DatagramEvent::Existing(self.associations[i].1);
                },
                None => {},
            }
        }
        if h.verification_tag == 0 && datagram.len() > COMMON_HEADER_SIZE && datagram[COMMON_HEADER_SIZE] == CT_INIT
            && self.accept {
            return DatagramEvent::NewAssociation;
        }
        DatagramEvent::Ignored
    }
}

} // verus!

//! The establishment part of the association state machine: which chunk a
//! side sends and which state it reaches for each chunk it receives. The
//! caller supplies the verification tags and does the sending.
use vstd::prelude::*;

use crate::error::Error;
use crate::Side;

verus! {

/// The states of an association.
#[derive(Debug, Copy, Clone, PartialEq, Eq, Structural)]
pub enum AssociationState {
    Closed,
    CookieWait,
    CookieEchoed,
    Established,
    ShutdownPending,
    ShutdownSent,
    ShutdownReceived,
    ShutdownAckSent,
}

/// A received chunk, as far as establishment reads it.
#[derive(Debug, Copy, Clone, PartialEq, Eq, Structural)]
pub enum Inbound {
    Init { initiate_tag: u32 },
    InitAck { initiate_tag: u32 },
    CookieEcho,
    CookieAck,
    Abort,
}

/// A chunk to send.
#[derive(Debug, Copy, Clone, PartialEq, Eq, Structural)]
pub enum Outbound {
    Init { initiate_tag: u32 },
    InitAck { initiate_tag: u32 },
    CookieEcho,
    CookieAck,
}

/// A connection-level event for the application.
#[derive(Debug, Copy, Clone, PartialEq, Eq, Structural)]
pub enum AssociationEvent {
    Established,
    Aborted,
}

/// What handling one received chunk produced.
#[derive(Debug, Copy, Clone, PartialEq, Eq, Structural)]
pub struct Reaction {
    pub outbound: Option<Outbound>,
    pub event: Option<AssociationEvent>,
}

/// One side of an association during establishment: its state, its own
/// verification tag, and the peer's once known.
#[derive(Debug, Copy, Clone, PartialEq, Eq, Structural)]
pub struct Handshake {
    pub side: Side,
    pub state: AssociationState,
    pub local_tag: u32,
    pub peer_tag: u32,
}

/// Nothing sent, no event.
pub open spec fn no_reaction() -> Reaction {
    Reaction { outbound: None, event: None }
}

/// The state and the reaction after receiving `chunk` in a packet with
/// verification tag `tag`. An INIT must carry tag zero and every other chunk
/// the local tag; other packets are discarded. A server answers an INIT in
/// `Closed` with an INIT-ACK and keeps no state but the peer's tag, and
/// reaches `Established` on the COOKIE-ECHO, answering with a COOKIE-ACK. A
/// client in `CookieWait` answers an INIT-ACK with a COOKIE-ECHO, and
/// reaches `Established` on the COOKIE-ACK. An ABORT closes any open
/// association. Anything else is ignored.
pub open spec fn handle_spec(h: Handshake, tag: u32, chunk: Inbound) -> (Handshake, Reaction) {
    match chunk {
        Inbound::Init { initiate_tag } => if tag == 0 && h.side == Side::Server && h.state
            == AssociationState::Closed {
            (
                Handshake { peer_tag: initiate_tag, ..h },
                Reaction { outbound: Some(Outbound::InitAck { initiate_tag: h.local_tag }), event: None },
            )
        } else {
            (h, no_reaction())
        },
        _ => if tag != h.local_tag {
            (h, no_reaction())
        } else {
            match chunk {
                Inbound::InitAck { initiate_tag } => if h.state == AssociationState::CookieWait {
                    (
                        Handshake { state: AssociationState::CookieEchoed, peer_tag: initiate_tag, ..h },
                        Reaction { outbound: Some(Outbound::CookieEcho), event: None },
                    )
                } else {
                    (h, no_reaction())
                },
                Inbound::CookieEcho => if h.side == Side::Server && h.state == AssociationState::Closed {
                    (
                        Handshake { state: AssociationState::Established, ..h },
                        Reaction {
                            outbound: Some(Outbound::CookieAck),
                            event: Some(AssociationEvent::Established),
                        },
                    )
                } else {
                    (h, no_reaction())
                },
                Inbound::CookieAck => if h.state == AssociationState::CookieEchoed {
                    (
                        Handshake { state: AssociationState::Established, ..h },
                        Reaction { outbound: None, event: Some(AssociationEvent::Established) },
                    )
                } else {
                    (h, no_reaction())
                },
                _ => if h.state != AssociationState::Closed {
                    (
                        Handshake { state: AssociationState::Closed, ..h },
                        Reaction { outbound: None, event: Some(AssociationEvent::Aborted) },
                    )
                } else {
                    (h, no_reaction())
                },
            }
        },
    }
}

impl Handshake {
    /// A closed association on `side` with its own verification tag.
    pub fn new(side: Side, local_tag: u32) -> (r: Handshake)
        ensures
            r == (Handshake { side, state: AssociationState::Closed, local_tag, peer_tag: 0 }),
    {
        Handshake { side, state: AssociationState::Closed, local_tag, peer_tag: 0 }
    }

    /// Starts establishment on a closed client: the INIT to send carries the
    /// local tag as its initiate tag, and the state becomes `CookieWait`.
    /// Any other side or state is refused and left as it was.
    pub fn connect(&mut self) -> (r: Result<Outbound, Error>)
        ensures
            old(self).side == Side::Client && old(self).state == AssociationState::Closed ==> r
                == Ok::<Outbound, Error>(Outbound::Init { initiate_tag: old(self).local_tag })
                && *final(self) == (Handshake { state: AssociationState::CookieWait, ..*old(self) }),
            !(old(self).side == Side::Client && old(self).state == AssociationState::Closed) ==> r
                == Err::<Outbound, Error>(Error::ErrAssociationNotClosed) && *final(self) == *old(self),
    {
        if self.side != Side::Client || self.state != AssociationState::Closed {
            return Err(Error::ErrAssociationNotClosed);
        }
        self.state = AssociationState::CookieWait;
        Ok(Outbound::Init { initiate_tag: self.local_tag })
    }

    /// Handles one received chunk; see `handle_spec`.
    pub fn handle(&mut self, tag: u32, chunk: Inbound) -> (r: Reaction)
        ensures
            (*final(self), r) == handle_spec(*old(self), tag, chunk),
    {
        match chunk {
            Inbound::Init { initiate_tag } => {
                if tag == 0 && self.side == Side::Server && self.state == AssociationState::Closed {
                    self.peer_tag = initiate_tag;
                    return Reaction {
                        outbound: Some(Outbound::InitAck { initiate_tag: self.local_tag }),
                        event: None,
                    };
                }
                return Reaction { outbound: None, event: None };
            },
            _ => {},
        }
        if tag != self.local_tag {
            return Reaction { outbound: None, event: None };
        }
        match chunk {
            Inbound::InitAck { initiate_tag } => {
                if self.state == AssociationState::CookieWait {
                    self.state = AssociationState::CookieEchoed;
                    self.peer_tag = initiate_tag;
                    return Reaction { outbound: Some(Outbound::CookieEcho), event: None };
                }
            },
            Inbound::CookieEcho => {
                if self.side == Side::Server && self.state == AssociationState::Closed {
                    self.state = AssociationState::Established;
                    return Reaction {
                        outbound: Some(Outbound::CookieAck),
                        event: Some(AssociationEvent::Established),
                    };
                }
            },
            Inbound::CookieAck => {
                if self.state == AssociationState::CookieEchoed {
                    self.state = AssociationState::Established;
                    return Reaction { outbound: None, event: Some(AssociationEvent::Established) };
                }
            },
            _ => {
                if self.state != AssociationState::Closed {
                    self.state = AssociationState::Closed;
                    return Reaction { outbound: None, event: Some(AssociationEvent::Aborted) };
                }
            },
        }
        Reaction { outbound: None, event: None }
    }
}

/// A client and a server that start closed, with their own tags, reach
/// `Established` by exchanging the chunks that each hands out: INIT,
/// INIT-ACK, COOKIE-ECHO, COOKIE-ACK. Each side reports the establishment
/// once and learns the other's tag.
pub proof fn lemma_handshake_establishes(client_tag: u32, server_tag: u32)
    requires
        client_tag != 0,
    ensures
        ({
            let c0 = Handshake { side: Side::Client, state: AssociationState::Closed, local_tag: client_tag, peer_tag: 0 };
            let s0 = Handshake { side: Side::Server, state: AssociationState::Closed, local_tag: server_tag, peer_tag: 0 };
            let c1 = Handshake { state: AssociationState::CookieWait, ..c0 };
            let (s1, r1) = handle_spec(s0, 0, Inbound::Init { initiate_tag: client_tag });
            let (c2, r2) = handle_spec(c1, client_tag, Inbound::InitAck { initiate_tag: server_tag });
            let (s2, r3) = handle_spec(s1, server_tag, Inbound::CookieEcho);
            let (c3, r4) = handle_spec(c2, client_tag, Inbound::CookieAck);
            &&& r1.outbound == Some(Outbound::InitAck { initiate_tag: server_tag })
            &&& r2.outbound == Some(Outbound::CookieEcho)
            &&& c2.state == AssociationState::CookieEchoed
            &&& r3 == (Reaction { outbound: Some(Outbound::CookieAck), event: Some(AssociationEvent::Established) })
            &&& r4 == (Reaction { outbound: None, event: Some(AssociationEvent::Established) })
            &&& s2.state == AssociationState::Established && s2.peer_tag == client_tag
            &&& c3.state == AssociationState::Established && c3.peer_tag == server_tag
        }),
{
}

} // verus!

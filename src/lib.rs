//! The deterministic core of an SCTP implementation. Nothing here does I/O
//! or reads a clock: data and time come in as arguments, and what to send
//! comes back as values.
//!
//! - [`chunk`]: the chunk header and the FORWARD-TSN and I-FORWARD-TSN
//!   codecs, each proved against a byte-level model (round trip, rejection
//!   of truncated input).
//! - [`reassembly`]: delivery of a stream's complete messages, ordered by
//!   MID or as they complete, with skipping by I-FORWARD-TSN entries.
//! - [`congestion`]: SACK processing, fast retransmit and the congestion
//!   window.
//! - [`stream`]: partial reliability: when a message is abandoned, and the
//!   I-FORWARD-TSN advisory for abandoned messages.
//! - [`timer`]: the retransmission timer with exponential backoff.
//! - [`association`]: the establishment handshake.
//! - [`endpoint`]: the common packet header and the routing of datagrams
//!   to associations by verification tag.
//! - [`buf`]: the byte buffers of the `bytes` crate as the codecs see them.
use vstd::prelude::*;

pub mod association;
pub mod buf;
pub mod chunk;
pub mod congestion;
pub mod endpoint;
pub mod error;
pub mod reassembly;
pub mod shared;
pub mod stream;
pub mod text;
pub mod timer;

pub use crate::error::Error;

verus! {

/// Whether an endpoint was the initiator of an association.
#[derive(Debug, Copy, Clone, PartialEq, Eq, Structural, Hash, PartialOrd, Ord)]
pub enum Side {
    /// The initiator of an association
    Client,
    /// The acceptor of an association
    Server,
}

impl Side {
    /// The other end of the association.
    pub open spec fn opposite(self) -> Side {
        match self {
            Side::Client => Side::Server,
            Side::Server => Side::Client,
        }
    }

    /// Shorthand for `self == Side::Client`
    pub fn is_client(self) -> (r: bool)
        ensures
            r == (self == Side::Client),
    {
        self == Side::Client
    }

    /// Shorthand for `self == Side::Server`
    pub fn is_server(self) -> (r: bool)
        ensures
            r == (self == Side::Server),
    {
        self == Side::Server
    }

    /// The side of the peer: a client's peer is a server and the reverse.
    pub fn opposite_side(self) -> (r: Side)
        ensures
            r == self.opposite(),
    {
        match self {
            Side::Client => Side::Server,
            Side::Server => Side::Client,
        }
    }

    /// The name of the side, `"Client"` or `"Server"`.
    pub fn to_string(self) -> (r: String)
        ensures
            self == Side::Client ==> r@ == "Client"@,
            self == Side::Server ==> r@ == "Server"@,
    {
        match self {
            Side::Client => "Client".to_owned(),
            Side::Server => "Server".to_owned(),
        }
    }
}

impl std::ops::Not for Side {
    type Output = Side;

    fn not(self) -> Side {
        self.opposite_side()
    }
}

impl vstd::std_specs::ops::NotSpecImpl for Side {
    open spec fn obeys_not_spec() -> bool {
        true
    }

    open spec fn not_req(self) -> bool {
        true
    }

    open spec fn not_spec(self) -> Side {
        self.opposite()
    }
}

impl Default for Side {
    fn default() -> (r: Side)
        ensures
            r == Side::Client,
    {
        Side::Client
    }
}

} // verus!

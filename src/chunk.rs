//! SCTP chunks on the wire.
pub mod chunk_forward_tsn;
pub mod chunk_header;
pub mod chunk_i_forward_tsn;
pub mod wire;

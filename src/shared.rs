//! Values shared between an association and the datagrams that carry it.
use vstd::prelude::*;

verus! {

/// Explicit congestion notification codepoint of a datagram.
#[derive(Debug, Copy, Clone, PartialEq, Eq, Structural)]
pub enum EcnCodepoint {
    /// Bits `10`.
    Ect0,
    /// Bits `01`.
    Ect1,
    /// Bits `11`: congestion experienced.
    Ce,
}

impl EcnCodepoint {
    /// The codepoint of the two low bits of `x`; bits `00` carry none.
    pub fn from_bits(x: u8) -> (r: Option<EcnCodepoint>)
        ensures
            x % 4 == 2 ==> r == Some(EcnCodepoint::Ect0),
            x % 4 == 1 ==> r == Some(EcnCodepoint::Ect1),
            x % 4 == 3 ==> r == Some(EcnCodepoint::Ce),
            x % 4 == 0 ==> r is None,
    {
        let b = x % 4;
        if b == 2 {
            Some(EcnCodepoint::Ect0)
        } else if b == 1 {
            Some(EcnCodepoint::Ect1)
        } else if b == 3 {
            Some(EcnCodepoint::Ce)
        } else {
            None
        }
    }
}

} // verus!

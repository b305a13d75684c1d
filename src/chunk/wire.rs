//! Integers in network byte order.
use vstd::prelude::*;

verus! {

/// The two bytes of `n`, most significant first.
pub open spec fn u16_bytes(n: u16) -> Seq<u8> {
    seq![(n / 256) as u8, (n % 256) as u8]
}

/// The four bytes of `n`, most significant first.
pub open spec fn u32_bytes(n: u32) -> Seq<u8> {
    seq![(n / 0x100_0000) as u8, ((n / 0x1_0000) % 256) as u8, ((n / 256) % 256) as u8, (n % 256) as u8]
}

/// The 16-bit integer whose bytes, most significant first, start at `i`.
pub open spec fn be16_at(b: Seq<u8>, i: int) -> u16 {
    (b[i] as int * 256 + b[i + 1] as int) as u16
}

/// The 32-bit integer whose bytes, most significant first, start at `i`.
pub open spec fn be32_at(b: Seq<u8>, i: int) -> u32 {
    (b[i] as int * 0x100_0000 + b[i + 1] as int * 0x1_0000 + b[i + 2] as int * 256
        + b[i + 3] as int) as u32
}

/// Reading back the bytes of a 16-bit integer gives the integer.
pub proof fn lemma_be16_of_bytes(n: u16)
    ensures
        be16_at(u16_bytes(n), 0) == n,
{
}

/// Reading back the bytes of a 32-bit integer gives the integer.
pub proof fn lemma_be32_of_bytes(n: u32)
    ensures
        be32_at(u32_bytes(n), 0) == n,
{
}

/// Appends the bytes of `n`, most significant first.
pub fn push_u16(v: &mut Vec<u8>, n: u16)
    ensures
        final(v)@ == old(v)@ + u16_bytes(n),
{
    v.push((n / 256) as u8);
    v.push((n % 256) as u8);
}

/// Appends the bytes of `n`, most significant first.
pub fn push_u32(v: &mut Vec<u8>, n: u32)
    ensures
        final(v)@ == old(v)@ + u32_bytes(n),
{
    v.push((n / 0x100_0000) as u8);
    v.push(((n / 0x1_0000) % 256) as u8);
    v.push(((n / 256) % 256) as u8);
    v.push((n % 256) as u8);
}

/// The 16-bit integer stored most significant byte first at `i`.
pub fn read_u16(b: &[u8], i: usize) -> (r: u16)
    requires
        i + 2 <= b@.len(),
    ensures
        r == be16_at(b@, i as int),
{
    (b[i] as u16) * 256 + b[i + 1] as u16
}

/// The 32-bit integer stored most significant byte first at `i`.
pub fn read_u32(b: &[u8], i: usize) -> (r: u32)
    requires
        i + 4 <= b@.len(),
    ensures
        r == be32_at(b@, i as int),
{
    (b[i] as u32) * 0x100_0000 + (b[i + 1] as u32) * 0x1_0000 + (b[i + 2] as u32) * 256
        + b[i + 3] as u32
}

} // verus!

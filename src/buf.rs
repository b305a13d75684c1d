//! The byte buffers of the `bytes` crate, as the codec sees them: a `Bytes`
//! or a `BytesMut` holds a sequence of bytes, and each operation the codec
//! uses is stated over that sequence.
use vstd::prelude::*;

use bytes::{Bytes, BytesMut};

verus! {

#[verifier::external_type_specification]
#[verifier::external_body]
pub struct ExBytes(Bytes);

#[verifier::external_type_specification]
#[verifier::external_body]
pub struct ExBytesMut(BytesMut);

/// The bytes that a `Bytes` holds, in order.
pub uninterp spec fn bytes_seq(b: Bytes) -> Seq<u8>;

/// The bytes that a `BytesMut` holds, in order.
pub uninterp spec fn bytes_mut_seq(b: BytesMut) -> Seq<u8>;

/// Relies on `<Bytes as AsRef<[u8]>>::as_ref`: the slice of the held bytes.
#[verifier::external_body]
pub(crate) fn bytes_as_slice(b: &Bytes) -> (r: &[u8])
    ensures
        r@ == bytes_seq(*b),
{
    b.as_ref()
}

/// Relies on `BytesMut::new`: an empty buffer.
#[verifier::external_body]
pub(crate) fn bytes_mut_new() -> (r: BytesMut)
    ensures
        bytes_mut_seq(r) == Seq::<u8>::empty(),
{
    BytesMut::new()
}

/// Relies on `BytesMut::extend_from_slice`: appends the slice, growing the
/// buffer first; it panics only when the new capacity overflows.
#[verifier::external_body]
pub(crate) fn bytes_mut_extend(w: &mut BytesMut, s: &[u8])
    requires
        bytes_mut_seq(*old(w)).len() + s@.len() <= isize::MAX,
    ensures
        bytes_mut_seq(*final(w)) == bytes_mut_seq(*old(w)) + s@,
{
    w.extend_from_slice(s)
}

/// Relies on `BytesMut::freeze`: the same bytes, now immutable.
#[verifier::external_body]
pub(crate) fn bytes_mut_freeze(w: BytesMut) -> (r: Bytes)
    ensures
        bytes_seq(r) == bytes_mut_seq(w),
{
    w.freeze()
}

} // verus!

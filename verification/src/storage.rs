//! The raw byte storage behind both cursors: `bytes::BytesMut` as the
//! growable buffer of the write cursor and `bytes::Bytes` as the immutable
//! sequence of the read cursor.  Each is opaque to the verifier; its
//! contents are named by an uninterpreted view, and every operation the
//! cursors use goes through a trusted wrapper whose contract states what
//! the `bytes` crate's source shows.

use vstd::prelude::*;
use bytes::Buf;

verus! {

#[verifier::external_type_specification]
#[verifier::external_body]
pub struct ExBytesMut(bytes::BytesMut);

#[verifier::external_type_specification]
#[verifier::external_body]
pub struct ExBytes(bytes::Bytes);

/// The bytes a `BytesMut` buffer holds, in order.
pub uninterp spec fn bytes_mut_view(b: bytes::BytesMut) -> Seq<u8>;

/// The bytes a `Bytes` sequence holds, in order.
pub uninterp spec fn bytes_view(b: bytes::Bytes) -> Seq<u8>;

/// Relies on bytes::BytesMut::new: creates an empty buffer.
#[verifier::external_body]
pub(crate) fn bytes_mut_new() -> (r: bytes::BytesMut)
    ensures
        bytes_mut_view(r) == Seq::<u8>::empty(),
{
    bytes::BytesMut::new()
}

/// Relies on bytes::BytesMut::len: the number of bytes in the buffer.
#[verifier::external_body]
pub(crate) fn bytes_mut_len(b: &bytes::BytesMut) -> (r: usize)
    ensures
        r == bytes_mut_view(*b).len(),
{
    b.len()
}

/// Relies on bytes::BytesMut::resize: growth appends copies of the fill
/// byte, shrinking keeps a prefix.
#[verifier::external_body]
pub(crate) fn bytes_mut_resize(b: &mut bytes::BytesMut, new_len: usize, value: u8)
    ensures
        bytes_mut_view(*final(b)).len() == new_len,
        forall|i: int|
            0 <= i < new_len ==> bytes_mut_view(*final(b))[i] == (if i < bytes_mut_view(
                *old(b),
            ).len() {
                bytes_mut_view(*old(b))[i]
            } else {
                value
            }),
{
    b.resize(new_len, value)
}

/// Relies on BytesMut's DerefMut to `[u8]` and slice::copy_from_slice:
/// overwrites `src.len()` bytes in place starting at `pos`.
#[verifier::external_body]
pub(crate) fn bytes_mut_copy_at(b: &mut bytes::BytesMut, pos: usize, src: &[u8])
    requires
        pos + src@.len() <= bytes_mut_view(*old(b)).len(),
    ensures
        bytes_mut_view(*final(b)).len() == bytes_mut_view(*old(b)).len(),
        forall|i: int|
            0 <= i < bytes_mut_view(*old(b)).len() ==> bytes_mut_view(*final(b))[i] == (if pos <= i
                < pos + src@.len() {
                src@[i - pos]
            } else {
                bytes_mut_view(*old(b))[i]
            }),
{
    b[pos..pos + src.len()].copy_from_slice(src);
}

/// Relies on BytesMut's Deref to `[u8]` and slice::to_vec: copies the whole
/// buffer out.
#[verifier::external_body]
pub(crate) fn bytes_mut_to_vec(b: &bytes::BytesMut) -> (r: Vec<u8>)
    ensures
        r@ == bytes_mut_view(*b),
{
    b.to_vec()
}

/// Relies on Bytes's Deref to `[u8]`: a borrowed view of the whole
/// sequence.
#[verifier::external_body]
pub(crate) fn bytes_as_slice(b: &bytes::Bytes) -> (r: &[u8])
    ensures
        r@ == bytes_view(*b),
{
    &b[..]
}

/// Relies on bytes::Bytes::advance (the Buf impl): drops the first `cnt`
/// bytes; it panics past the end, so the bound is required here.
#[verifier::external_body]
pub(crate) fn bytes_advance(b: &mut bytes::Bytes, cnt: usize)
    requires
        cnt <= bytes_view(*old(b)).len(),
    ensures
        bytes_view(*final(b)) == bytes_view(*old(b)).skip(cnt as int),
{
    b.advance(cnt)
}

} // verus!

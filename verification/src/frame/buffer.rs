//! The bytes that have arrived and are not read yet.

use bytes::{Buf, BytesMut};
use vstd::prelude::*;

verus! {

/// `bytes::BytesMut`.
#[verifier::external_type_specification]
#[verifier::external_body]
pub struct ExBytesMut(BytesMut);

/// The bytes in a buffer, from its front.
pub uninterp spec fn held(b: BytesMut) -> Seq<u8>;

/// Calls `BytesMut::with_capacity`: an empty buffer.
#[verifier::external_body]
pub(crate) fn empty_buffer(capacity: usize) -> (b: BytesMut)
    ensures
        held(b) == Seq::<u8>::empty(),
{
    BytesMut::with_capacity(capacity)
}

/// Calls `BytesMut::len`: how many bytes the buffer holds.
#[verifier::external_body]
pub(crate) fn buffered(b: &BytesMut) -> (n: usize)
    ensures
        n == held(*b).len(),
{
    b.len()
}

/// Calls `BytesMut::extend_from_slice`: bytes are put behind those that are
/// there.
#[verifier::external_body]
pub(crate) fn append(b: &mut BytesMut, data: &[u8])
    requires
        held(*old(b)).len() + data@.len() <= isize::MAX,
    ensures
        held(*final(b)) == held(*old(b)) + data@,
{
    b.extend_from_slice(data)
}

/// Calls `BytesMut::split_to`: the first `n` bytes leave the buffer.
#[verifier::external_body]
pub(crate) fn take_front(b: &mut BytesMut, n: usize) -> (front: Vec<u8>)
    requires
        n <= held(*old(b)).len(),
    ensures
        front@ == held(*old(b)).take(n as int),
        held(*final(b)) == held(*old(b)).skip(n as int),
{
    b.split_to(n).to_vec()
}

/// Calls `Buf::advance` of `BytesMut`: the first `n` bytes are dropped.
#[verifier::external_body]
pub(crate) fn drop_front(b: &mut BytesMut, n: usize)
    requires
        n <= held(*old(b)).len(),
    ensures
        held(*final(b)) == held(*old(b)).skip(n as int),
{
    b.advance(n)
}

} // verus!

//! Growable and frozen byte buffers.

use bytes::Bytes;
use bytes::BytesMut;
use vstd::prelude::*;

verus! {

/// The growable buffer of the `bytes` crate.
#[verifier::external_type_specification]
#[verifier::external_body]
pub struct ExBytesMut(BytesMut);

/// The frozen buffer of the `bytes` crate.
#[verifier::external_type_specification]
#[verifier::external_body]
pub struct ExBytes(Bytes);

/// The bytes that a growable buffer holds.
pub uninterp spec fn buffered(buffer: BytesMut) -> Seq<u8>;

/// The bytes that a frozen buffer holds.
pub uninterp spec fn frozen(bytes: Bytes) -> Seq<u8>;

/// `bytes::BytesMut::with_capacity`: an empty buffer. It panics for a capacity
/// that no allocation can have.
#[verifier::external_body]
pub(crate) fn new_buffer(capacity: usize) -> (r: BytesMut)
    requires
        capacity <= 0x3fff_ffff,
    ensures
        buffered(r) == Seq::<u8>::empty(),
{
    BytesMut::with_capacity(capacity)
}

/// `bytes::BytesMut::len`: the number of bytes that the buffer holds.
#[verifier::external_body]
pub(crate) fn buffer_len(buffer: &BytesMut) -> (r: usize)
    ensures
        r == buffered(*buffer).len(),
{
    buffer.len()
}

/// `bytes::BytesMut::extend_from_slice`: the given bytes are appended. It panics
/// where the buffer would outgrow what can be allocated.
#[verifier::external_body]
pub(crate) fn extend_buffer(buffer: &mut BytesMut, chunk: &[u8])
    requires
        buffered(*old(buffer)).len() + chunk@.len() <= 0x3fff_ffff,
    ensures
        buffered(*final(buffer)) == buffered(*old(buffer)) + chunk@,
{
    buffer.extend_from_slice(chunk);
}

/// `bytes::BytesMut::freeze`: the same bytes, which can no longer be changed.
#[verifier::external_body]
pub(crate) fn freeze_buffer(buffer: BytesMut) -> (r: Bytes)
    ensures
        frozen(r) == buffered(buffer),
{
    buffer.freeze()
}

/// `bytes::Bytes::len`: the number of bytes that the buffer holds.
#[verifier::external_body]
pub(crate) fn frozen_len(bytes: &Bytes) -> (r: usize)
    ensures
        r == frozen(*bytes).len(),
{
    bytes.len()
}

} // verus!

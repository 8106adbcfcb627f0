//! The storage of packet buffers, which is aligned so that payloads can be accessed in place.

use rkyv::AlignedBytes;
use vstd::prelude::*;

use crate::packet::PACKET_BUFFER_SIZE;

verus! {

/// The byte array of `rkyv`, whose address is a multiple of 16.
#[verifier::external_type_specification]
#[verifier::external_body]
pub struct ExAlignedBytes<const N: usize>(AlignedBytes<N>);

/// The bytes that the array of `rkyv` holds.
pub uninterp spec fn stored_bytes(storage: AlignedBytes<PACKET_BUFFER_SIZE>) -> Seq<u8>;

/// Calls `AlignedBytes::default`, which fills the array with zeros.
#[verifier::external_body]
pub(crate) fn zeroed() -> (storage: AlignedBytes<PACKET_BUFFER_SIZE>)
    ensures
        stored_bytes(storage) == Seq::new(PACKET_BUFFER_SIZE as nat, |i: int| 0u8),
{
    AlignedBytes::default()
}

/// Calls `AlignedBytes::deref`, which gives access to the whole array.
#[verifier::external_body]
pub(crate) fn bytes(storage: &AlignedBytes<PACKET_BUFFER_SIZE>) -> (array:
    &[u8; PACKET_BUFFER_SIZE])
    ensures
        array@ == stored_bytes(*storage),
{
    core::ops::Deref::deref(storage)
}

/// Calls `AlignedBytes::deref_mut`, which gives access to the whole array: what is written through
/// the result is what the array holds afterwards. Only borrows the array, so it never panics.
#[verifier::external_body]
pub(crate) fn bytes_mut(storage: &mut AlignedBytes<PACKET_BUFFER_SIZE>) -> (array:
    &mut [u8; PACKET_BUFFER_SIZE])
    ensures
        array@ == stored_bytes(*old(storage)),
        stored_bytes(*final(storage)) == final(array)@,
    no_unwind
{
    core::ops::DerefMut::deref_mut(storage)
}

} // verus!

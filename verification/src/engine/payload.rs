//! Packet and datagram contents, held as [`bytes::Bytes`].

use bytes::Bytes;
use vstd::prelude::*;

verus! {

/// `bytes::Bytes`, a cheaply shared, immutable run of octets.
#[verifier::external_type_specification]
#[verifier::external_body]
pub struct ExBytes(Bytes);

/// The octets that a `Bytes` holds.
pub uninterp spec fn octets(data: Bytes) -> Seq<u8>;

/// The contents of a run of `Bytes`, one by one.
pub open spec fn all_octets(data: Seq<Bytes>) -> Seq<Seq<u8>> {
    data.map_values(|b: Bytes| octets(b))
}

/// Calls `Bytes::copy_from_slice`, which copies a slice into a `Bytes` of its own.
#[verifier::external_body]
pub(crate) fn copy_from_slice(data: &[u8]) -> (copy: Bytes)
    ensures
        octets(copy) == data@,
{
    Bytes::copy_from_slice(data)
}

/// Calls `<Bytes as Deref>::deref`, which lends the octets as a slice.
#[verifier::external_body]
pub(crate) fn as_slice(data: &Bytes) -> (slice: &[u8])
    ensures
        slice@ == octets(*data),
{
    data
}

} // verus!

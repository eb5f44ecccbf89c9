//! Byte buffers as the transport hands them over and takes them.

use bytes::Bytes;
use vstd::prelude::*;

verus! {

#[verifier::external_type_specification]
#[verifier::external_body]
pub struct ExBytes(Bytes);

/// The bytes that a buffer holds, in order.
pub uninterp spec fn bytes_contents(b: Bytes) -> Seq<u8>;

/// Trusted: `Bytes::from(Vec<u8>)`. The buffer that comes back holds exactly
/// the bytes of the vector it was made from.
#[verifier::external_body]
pub(crate) fn bytes_from_vec(v: Vec<u8>) -> (b: Bytes)
    ensures
        bytes_contents(b) == v@,
{
    Bytes::from(v)
}

/// Trusted: `AsRef<[u8]>::as_ref` of `Bytes`. The slice shows exactly the
/// bytes that the buffer holds.
#[verifier::external_body]
pub(crate) fn bytes_as_slice(b: &Bytes) -> (s: &[u8])
    ensures
        s@ == bytes_contents(*b),
{
    b.as_ref()
}

/// The number of bytes in a buffer.
pub fn bytes_len(b: &Bytes) -> (n: usize)
    ensures
        n == bytes_contents(*b).len(),
{
    bytes_as_slice(b).len()
}

} // verus!

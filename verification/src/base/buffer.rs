//! Byte buffers.
//!
//! Record payloads travel as `bytes::Bytes`, a cheaply shared, immutable
//! buffer. The verifier cannot look into such a buffer, so this module names
//! what a buffer holds and states, for each operation the library uses, what
//! the operation does to that content. These statements are taken on trust
//! from the `bytes` crate.

use vstd::prelude::*;
use bytes::Bytes;

verus! {

#[verifier::external_type_specification]
#[verifier::external_body]
pub struct ExBytes(bytes::Bytes);

/// The bytes that a buffer holds, in order.
pub uninterp spec fn bytes_of(b: Bytes) -> Seq<u8>;

/// The content of a buffer that may be absent.
pub open spec fn opt_bytes_of(b: Option<Bytes>) -> Option<Seq<u8>> {
    match b {
        Some(b) => Some(bytes_of(b)),
        None => None,
    }
}

/// `Bytes::len`: the number of bytes the buffer holds.
#[verifier::external_body]
pub(crate) fn buffer_len(b: &Bytes) -> (n: usize)
    ensures
        n == bytes_of(*b).len(),
{
    b.len()
}

/// `Bytes::copy_from_slice`: a new buffer holding a copy of `data`.
#[verifier::external_body]
pub(crate) fn buffer_from_slice(data: &[u8]) -> (b: Bytes)
    ensures
        bytes_of(b) == data@,
{
    Bytes::copy_from_slice(data)
}

/// `Bytes::clone`: a second handle on the same content.
pub assume_specification[ <Bytes as Clone>::clone ](b: &Bytes) -> (r: Bytes)
    ensures
        bytes_of(r) == bytes_of(*b),
;

/// `Bytes::deref`: the content of the buffer as a slice.
#[verifier::external_body]
pub(crate) fn buffer_as_slice(b: &Bytes) -> (s: &[u8])
    ensures
        s@ == bytes_of(*b),
{
    b
}

/// A second handle on the content of a buffer that may be absent.
pub(crate) fn opt_buffer_clone(b: &Option<Bytes>) -> (r: Option<Bytes>)
    ensures
        opt_bytes_of(r) == opt_bytes_of(*b),
{
    match b {
        Some(b) => Some(b.clone()),
        None => None,
    }
}

} // verus!

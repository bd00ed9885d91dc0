//! Trusted wrappers around the outside hashing primitives.
//!
//! The digests are functions of the input bytes alone; their values are not
//! written out here but given names, and every contract that mentions a
//! token identifier speaks of those names.

use vstd::prelude::*;

verus! {

/// The 256-bit Blake2b digest of a byte sequence, as computed by the outside
/// hashing crate.
pub uninterp spec fn blake2_256_of(bytes: Seq<u8>) -> Seq<u8>;

/// The 128-bit Blake2b digest of a byte sequence, as computed by the outside
/// hashing crate.
pub uninterp spec fn blake2_128_of(bytes: Seq<u8>) -> Seq<u8>;

/// Relies on sp_io::hashing::blake2_256: the 256-bit Blake2 digest of the
/// input bytes, a function of the bytes alone.
#[verifier::external_body]
pub(crate) fn blake2_256(data: &[u8]) -> (r: [u8; 32])
    ensures
        r@ == blake2_256_of(data@),
{
    sp_io::hashing::blake2_256(data)
}

/// Relies on sp_io::hashing::blake2_128: the 128-bit Blake2 digest of the
/// input bytes, a function of the bytes alone.
#[verifier::external_body]
pub(crate) fn blake2_128(data: &[u8]) -> (r: [u8; 16])
    ensures
        r@ == blake2_128_of(data@),
{
    sp_io::hashing::blake2_128(data)
}

} // verus!

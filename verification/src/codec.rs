//! Canonical encoding of the values that feed the content hashes.
//!
//! Token identifiers are content hashes of the token record, so the record
//! must be serialized in one fixed, order-stable way, independent of the
//! in-memory layout. The encoding used here is the standard compact wire
//! form for these field types: fixed-size byte payloads as-is, integers in
//! little-endian order, and an `Option` as a tag byte (`0` for `None`, `1`
//! followed by the value for `Some`).

use vstd::prelude::*;

verus! {

/// The little-endian bytes of a 64-bit integer.
pub open spec fn u64_le_bytes(x: u64) -> Seq<u8> {
    seq![
        (x & 0xff) as u8,
        ((x >> 8) & 0xff) as u8,
        ((x >> 16) & 0xff) as u8,
        ((x >> 24) & 0xff) as u8,
        ((x >> 32) & 0xff) as u8,
        ((x >> 40) & 0xff) as u8,
        ((x >> 48) & 0xff) as u8,
        ((x >> 56) & 0xff) as u8,
    ]
}

/// The little-endian bytes of a 32-bit integer.
pub open spec fn u32_le_bytes(x: u32) -> Seq<u8> {
    seq![
        (x & 0xff) as u8,
        ((x >> 8) & 0xff) as u8,
        ((x >> 16) & 0xff) as u8,
        ((x >> 24) & 0xff) as u8,
    ]
}

/// The encoding of an optional amount: a tag byte, then the amount if any.
pub open spec fn option_u64_bytes(p: Option<u64>) -> Seq<u8> {
    match p {
        None => seq![0u8],
        Some(v) => seq![1u8] + u64_le_bytes(v),
    }
}

/// The canonical encoding of a token record, field by field in declaration
/// order: dna payload, asking price, owner.
pub open spec fn nft_record_bytes(dna: Seq<u8>, price: Option<u64>, owner: u64) -> Seq<u8> {
    dna + option_u64_bytes(price) + u64_le_bytes(owner)
}

/// The canonical encoding of the dna-generation payload: the randomness
/// draw, the operation index within the current batch, and the logical time
/// counter.
pub open spec fn dna_payload_bytes(
    randomness: Seq<u8>,
    extrinsic_index: u32,
    block_number: u64,
) -> Seq<u8> {
    randomness + u32_le_bytes(extrinsic_index) + u64_le_bytes(block_number)
}

/// Appends the little-endian bytes of `x` to `out`.
pub fn push_u64_le(out: &mut Vec<u8>, x: u64)
    ensures
        final(out)@ == old(out)@ + u64_le_bytes(x),
{
    out.push((x & 0xff) as u8);
    out.push(((x >> 8) & 0xff) as u8);
    out.push(((x >> 16) & 0xff) as u8);
    out.push(((x >> 24) & 0xff) as u8);
    out.push(((x >> 32) & 0xff) as u8);
    out.push(((x >> 40) & 0xff) as u8);
    out.push(((x >> 48) & 0xff) as u8);
    out.push(((x >> 56) & 0xff) as u8);
    assert(out@ =~= old(out)@ + u64_le_bytes(x));
}

/// Appends the little-endian bytes of `x` to `out`.
pub fn push_u32_le(out: &mut Vec<u8>, x: u32)
    ensures
        final(out)@ == old(out)@ + u32_le_bytes(x),
{
    out.push((x & 0xff) as u8);
    out.push(((x >> 8) & 0xff) as u8);
    out.push(((x >> 16) & 0xff) as u8);
    out.push(((x >> 24) & 0xff) as u8);
    assert(out@ =~= old(out)@ + u32_le_bytes(x));
}

/// Appends the encoding of an optional amount to `out`.
pub fn push_option_u64(out: &mut Vec<u8>, p: Option<u64>)
    ensures
        final(out)@ == old(out)@ + option_u64_bytes(p),
{
    match p {
        None => {
            out.push(0u8);
            assert(out@ =~= old(out)@ + option_u64_bytes(p));
        },
        Some(v) => {
            out.push(1u8);
            push_u64_le(out, v);
            assert(out@ =~= old(out)@ + option_u64_bytes(p));
        },
    }
}

/// The canonical encoding of a token record.
pub fn encode_nft_record(dna: &[u8; 16], price: Option<u64>, owner: u64) -> (r: Vec<u8>)
    ensures
        r@ == nft_record_bytes(dna@, price, owner),
{
    let mut out: Vec<u8> = Vec::new();
    out.extend_from_slice(dna.as_slice());
    push_option_u64(&mut out, price);
    push_u64_le(&mut out, owner);
    assert(out@ =~= nft_record_bytes(dna@, price, owner));
    out
}

/// The canonical encoding of the dna-generation payload.
pub fn encode_dna_payload(
    randomness: &[u8; 32],
    extrinsic_index: u32,
    block_number: u64,
) -> (r: Vec<u8>)
    ensures
        r@ == dna_payload_bytes(randomness@, extrinsic_index, block_number),
{
    let mut out: Vec<u8> = Vec::new();
    out.extend_from_slice(randomness.as_slice());
    push_u32_le(&mut out, extrinsic_index);
    push_u64_le(&mut out, block_number);
    assert(out@ =~= dna_payload_bytes(randomness@, extrinsic_index, block_number));
    out
}

} // verus!

//! Hashing and byte-order helpers shared by the proof of work and the miner.
use vstd::prelude::*;
use byteorder::ByteOrder;

verus! {

/// The 32-byte BLAKE2b digest, personalised with `ckb-default-hash`, of a
/// byte string.
pub uninterp spec fn digest_of(input: Seq<u8>) -> Seq<u8>;

/// The unsigned integer whose little-endian encoding is `b`.
pub open spec fn le_value(b: Seq<u8>) -> int
    decreases b.len(),
{
    if b.len() == 0 {
        0
    } else {
        b[0] as int + 256 * le_value(b.drop_first())
    }
}

/// The personalisation string of the digest.
pub const PERSONAL: [u8; 16] = [
    99, 107, 98, 45, 100, 101, 102, 97, 117, 108, 116, 45, 104, 97, 115, 104,
];

/// Relies on blake2b_simd's `Params::hash` with a hash length of 32 and the
/// personalisation above: the digest depends on the input alone and has the
/// requested length.
#[verifier::external_body]
pub(crate) fn blake2b_256(input: &[u8]) -> (r: Vec<u8>)
    ensures
        r@ == digest_of(input@),
        r@.len() == 32,
{
    blake2b_simd::Params::new().hash_length(32).personal(&PERSONAL).hash(input).as_bytes().to_vec()
}

/// Relies on byteorder's `LittleEndian::read_u64`: the eight bytes at `offset`
/// read as a little-endian integer.
#[verifier::external_body]
pub(crate) fn read_u64_le(buf: &[u8], offset: usize) -> (r: u64)
    requires
        offset + 8 <= buf@.len(),
    ensures
        r as int == le_value(buf@.subrange(offset as int, offset + 8)),
{
    byteorder::LittleEndian::read_u64(&buf[offset..offset + 8])
}

} // verus!

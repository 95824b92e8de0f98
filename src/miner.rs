//! The computing half of mining: the pre-image that a solver is given, its
//! digest, and the byte form of a solved proof.
use vstd::prelude::*;
use byteorder::ByteOrder;
use crate::digest::{blake2b_256, digest_of, le_value};

verus! {

/// The mining pre-image: the nonce as eight little-endian bytes, then the
/// 32 bytes of the header hash.
pub open spec fn pow_input_spec(header_hash: Seq<u8>, nonce: u64) -> Seq<u8> {
    le_bytes(nonce as int, 8) + header_hash
}

/// The `n` little-endian bytes of `v`.
pub open spec fn le_bytes(v: int, n: nat) -> Seq<u8>
    decreases n,
{
    if n == 0 {
        Seq::empty()
    } else {
        seq![(v % 256) as u8] + le_bytes(v / 256, (n - 1) as nat)
    }
}

/// Each proof element as four little-endian bytes, in order.
pub open spec fn proof_bytes_spec(proof: Seq<u32>) -> Seq<u8>
    decreases proof.len(),
{
    if proof.len() == 0 {
        Seq::empty()
    } else {
        le_bytes(proof[0] as int, 4) + proof_bytes_spec(proof.drop_first())
    }
}

/// Relies on byteorder's `LittleEndian::write_u64`: the eight little-endian
/// bytes of `n`.
#[verifier::external_body]
fn u64_le_bytes(n: u64) -> (r: [u8; 8])
    ensures
        r@ == le_bytes(n as int, 8),
{
    let mut buf = [0u8; 8];
    byteorder::LittleEndian::write_u64(&mut buf, n);
    buf
}

/// Relies on byteorder's `LittleEndian::write_u32_into`: four little-endian
/// bytes for each element, in order.
#[verifier::external_body]
fn u32s_le_bytes(src: &[u32]) -> (r: Vec<u8>)
    requires
        4 * src@.len() <= usize::MAX,
    ensures
        r@ == proof_bytes_spec(src@),
{
    let mut dst = vec![0u8; src.len() * 4];
    byteorder::LittleEndian::write_u32_into(src, &mut dst);
    dst
}

/// The pre-image for a 32-byte header hash and a nonce.
pub fn pow_input(header_hash: &[u8], nonce: u64) -> (r: [u8; 40])
    requires
        header_hash@.len() == 32,
    ensures
        r@ == pow_input_spec(header_hash@, nonce),
{
    let nonce_bytes = u64_le_bytes(nonce);
    let mut input = [0u8; 40];
    let mut i: usize = 0;
    while i < 40
        invariant
            header_hash@.len() == 32,
            input@.len() == 40,
            forall|k: int| 0 <= k < i && k < 8 ==> input@[k] == nonce_bytes@[k],
            forall|k: int| 8 <= k < i ==> input@[k] == header_hash@[k - 8],
        decreases 40 - i,
    {
        if i < 8 {
            input[i] = nonce_bytes[i];
        } else {
            input[i] = header_hash[i - 8];
        }
        i = i + 1;
    }
    assert(input@ =~= pow_input_spec(header_hash@, nonce));
    input
}

/// The digest that the solver works on for a header hash and a nonce.
pub fn mining_digest(header_hash: &[u8], nonce: u64) -> (r: Vec<u8>)
    requires
        header_hash@.len() == 32,
    ensures
        r@ == digest_of(pow_input_spec(header_hash@, nonce)),
        r@.len() == 32,
{
    let input = pow_input(header_hash, nonce);
    blake2b_256(&input)
}

/// The byte form in which a solved proof is sent.
pub fn proof_to_bytes(proof: &[u32]) -> (r: Vec<u8>)
    requires
        4 * proof@.len() <= usize::MAX,
    ensures
        r@ == proof_bytes_spec(proof@),
{
    u32s_le_bytes(proof)
}

} // verus!

use pow_chain::cuckoo::{Cuckoo, CuckooSip};
use pow_chain::miner::{mining_digest, pow_input, proof_to_bytes};

const INPUT: [u8; 80] = [
    238, 237, 143, 251, 211, 26, 16, 237, 158, 89, 77, 62, 49, 241, 85, 233, 49, 77, 230, 148,
    177, 49, 129, 38, 152, 148, 40, 170, 1, 115, 145, 191, 44, 10, 206, 23, 226, 132, 186, 196,
    204, 205, 133, 173, 209, 20, 116, 16, 159, 161, 117, 167, 151, 171, 246, 181, 209, 140, 189,
    163, 206, 155, 209, 157, 110, 2, 79, 249, 34, 228, 252, 245, 141, 27, 9, 156, 85, 58, 121, 46,
];

fn blake2b_256(input: &[u8]) -> Vec<u8> {
    blake2b_simd::Params::new()
        .hash_length(32)
        .personal(b"ckb-default-hash")
        .hash(input)
        .as_bytes()
        .to_vec()
}

const PROOF: [u32; 8] = [1, 12, 23, 27, 31, 48, 50, 60];

#[test]
fn test_pow() {
    let input = INPUT;
    let proof = [1, 12, 23, 27, 31, 48, 50, 60];
    let pow = &Cuckoo::new(6, 8);
    assert!(pow.verify(&input, &proof));
}

#[test]
fn new_sets_mask_and_bound() {
    let pow = Cuckoo::new(6, 8);
    assert_eq!(pow.max_edge, 64);
    assert_eq!(pow.edge_mask, 63);
    assert_eq!(pow.cycle_length, 8);
}

#[test]
fn corrupting_any_element_is_refused() {
    let pow = Cuckoo::new(6, 8);
    for i in 0..PROOF.len() {
        for delta in [1u32, 2, 3] {
            let mut proof = PROOF;
            proof[i] = proof[i].wrapping_add(delta) % 64;
            if proof != PROOF {
                assert!(!pow.verify(&INPUT, &proof), "element {} changed by {}", i, delta);
            }
        }
    }
}

#[test]
fn swapped_duplicated_or_truncated_proof_is_refused() {
    let pow = Cuckoo::new(6, 8);
    let mut swapped = PROOF;
    swapped.swap(2, 5);
    assert!(!pow.verify(&INPUT, &swapped));
    let mut duplicated = PROOF;
    duplicated[3] = duplicated[2];
    assert!(!pow.verify(&INPUT, &duplicated));
    assert!(!pow.verify(&INPUT, &PROOF[..7]));
    assert!(!pow.verify(&INPUT, &[]));
}

#[test]
fn last_element_beyond_mask_is_refused() {
    let pow = Cuckoo::new(6, 8);
    let mut proof = PROOF;
    proof[7] = 64;
    assert!(!pow.verify(&INPUT, &proof));
}

#[test]
fn other_input_is_refused() {
    let pow = Cuckoo::new(6, 8);
    let mut input = INPUT;
    input[0] ^= 1;
    assert!(!pow.verify(&input, &PROOF));
}

#[test]
fn keys_are_little_endian_words_of_the_digest() {
    let digest = blake2b_256(&INPUT);
    assert_eq!(digest.len(), 32);
    let keys = CuckooSip::input_to_keys(&INPUT);
    for (k, chunk) in digest.chunks(8).enumerate() {
        let mut word = [0u8; 8];
        word.copy_from_slice(chunk);
        assert_eq!(keys[k], u64::from_le_bytes(word));
    }
}

#[test]
fn keys_differ_from_the_raw_input() {
    let keys = CuckooSip::input_to_keys(&INPUT);
    let mut word = [0u8; 8];
    word.copy_from_slice(&INPUT[..8]);
    assert_ne!(keys[0], u64::from_le_bytes(word));
}

#[test]
fn sip_round_and_edges_are_deterministic_and_masked() {
    let keys = CuckooSip::input_to_keys(&INPUT);
    let sip = CuckooSip::new(keys[0], keys[1], keys[2], keys[3]);
    let (u, v) = sip.edge(12, 63);
    assert!(u <= 63 && v <= 63);
    assert_eq!(sip.edge(12, 63), (u, v));
    assert_eq!(sip.hash(24) & 63, u);
    assert_eq!(sip.hash(25) & 63, v);
    let (mut a, mut b, mut c, mut d) = (1u64, 2u64, 3u64, 4u64);
    CuckooSip::sipround(&mut a, &mut b, &mut c, &mut d);
    assert_ne!((a, b, c, d), (1, 2, 3, 4));
}

#[test]
fn pow_input_puts_nonce_before_header() {
    let header: Vec<u8> = (0u8..32).collect();
    let input = pow_input(&header, 0x0102030405060708);
    assert_eq!(&input[..8], &[8, 7, 6, 5, 4, 3, 2, 1]);
    assert_eq!(&input[8..], &header[..]);
}

#[test]
fn mining_digest_hashes_the_pre_image() {
    let header = [7u8; 32];
    let digest = mining_digest(&header, 9);
    assert_eq!(digest, blake2b_256(&pow_input(&header, 9)));
    assert_eq!(digest.len(), 32);
}

#[test]
fn proof_bytes_are_little_endian() {
    assert_eq!(proof_to_bytes(&[1, 0x01020304]), vec![1, 0, 0, 0, 4, 3, 2, 1]);
    assert_eq!(proof_to_bytes(&[]), Vec::<u8>::new());
}

const REFERENCE_KEYS: [u64; 4] =
    [6758717584657985449, 15743682268002342621, 10993826154096777346, 2338924773896920174];

#[test]
fn reference_keys_come_from_the_input() {
    assert_eq!(CuckooSip::input_to_keys(&INPUT), REFERENCE_KEYS);
}

#[test]
fn reference_proof_verifies_with_its_keys() {
    let pow = Cuckoo::new(6, 8);
    assert!(pow.verify_with_keys(&REFERENCE_KEYS, &PROOF));
}

#[test]
fn every_single_replacement_is_refused() {
    let pow = Cuckoo::new(6, 8);
    for i in 0..PROOF.len() {
        for v in 0u32..70 {
            if v == PROOF[i] {
                continue;
            }
            let mut proof = PROOF;
            proof[i] = v;
            assert!(!pow.verify_with_keys(&REFERENCE_KEYS, &proof), "position {} value {}", i, v);
        }
    }
}

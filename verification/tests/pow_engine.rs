use powminer::block::{compute_block_hash, Block, BlockInfo, Transaction};
use powminer::pow::{
    check_proof_of_work, count_leading_zeros, nonce_to_candidate, recalculate_fee, search_nonce,
    u64_to_be_bytes, FEE_PER_ZERO_BIT,
};
use powminer::u256::U256;

fn decode32(text: &str) -> [u8; 32] {
    let mut out = [0u8; 32];
    hex::decode_to_slice(text, &mut out).unwrap();
    out
}

#[test]
fn count_leading_zeros_exact_values() {
    let mut bytes = [0u8; 32];
    assert_eq!(count_leading_zeros(&bytes), 256);
    bytes[0] = 0x80;
    assert_eq!(count_leading_zeros(&bytes), 0);
    bytes[0] = 0x01;
    assert_eq!(count_leading_zeros(&bytes), 7);
    bytes[0] = 0x00;
    bytes[1] = 0x01;
    assert_eq!(count_leading_zeros(&bytes), 15);
    bytes[1] = 0x40;
    assert_eq!(count_leading_zeros(&bytes), 9);
}

#[test]
fn block_hash_is_sha256_of_the_encoding() {
    // Precomputed: SHA-256 over height, timestamp, difficulty, previous
    // hash, proof and transaction hashes, in that order, big-endian.
    let block = Block {
        info: BlockInfo { height: 1, difficulty: [0xFF; 32], timestamp: 1000 },
        prev_hash: [1; 32],
        transaction_hashes: vec![[3; 32]],
        proof: [2; 32],
    };
    let expected = decode32("f6705b7b1b55299b187bdef8fad115d50f7dd7e2bbbfe04a83439e045c4f7099");
    assert_eq!(compute_block_hash(&block), expected);
}

#[test]
fn transaction_hash_is_sha256_of_the_encoding() {
    // Precomputed: SHA-256 over sender, receiver, timestamp, the amount's
    // limbs most significant first, and the signature.
    let tx = Transaction {
        sender: [1; 33],
        receiver: [2; 33],
        timestamp: 5,
        amount: U256::from_u64(100),
        signature: [9; 64],
    };
    let expected = decode32("9b74d081e9e4765159705812042262c5c59b91a5f7f86d2de3addb7f1d541a37");
    assert_eq!(tx.hash(), expected);
}

#[test]
fn check_pow_matches_digest_zero_count() {
    // The check must agree with counting the leading zero bits of the
    // (precomputed) SHA-256 digest of (previous hash, candidate) against
    // the difficulty's, for several triples.
    let prevs = [[0u8; 32], [1u8; 32], [0xABu8; 32]];
    let candidates = [[0u8; 32], [42u8; 32], [0xFFu8; 32]];
    let digests = [
        "f5a5fd42d16a20302798ef6ed309979b43003d2320d9f0e8ea9831a92759fb4b",
        "5187196fd3d88ff9412f4c682efa6c70cce565d506cced7d645509c6365bd3bd",
        "bba91ca85dc914b2ec3efb9e16e7267bf9193b14350d20fba8a8b406730ae30a",
        "037d6dfb3a369a41e01100fdd53c35ee3fb69ddec5830d61e1138d066a4c2285",
        "c5731fc3f14cdf42894b89c94db3202f385efc5ae55b3af12055c70ea8a44861",
        "68bb7b3c3c98eae5048efb5949afabbedd51d2d9e2d694f3cd592f573bebba08",
        "8d3587b0ce80b84f9a3e499bf86677297960673a1056964204e2746de0c4356e",
        "f401cc6f5574bb6315da5ee853e83c824c4f0d879b12aee8c0bea548d93ce9d6",
        "044168860ed65999fac6bedc8daf50df384ad20880152d2a3d4eeab5634eb047",
    ];
    let mut mid = [0xFFu8; 32];
    mid[0] = 0x00;
    let diffs = [[0xFFu8; 32], mid, [0u8; 32]];
    for (i, prev) in prevs.iter().enumerate() {
        for (j, cand) in candidates.iter().enumerate() {
            let digest = decode32(digests[3 * i + j]);
            for diff in diffs.iter() {
                let expected = count_leading_zeros(&digest) >= count_leading_zeros(diff);
                assert_eq!(check_proof_of_work(prev, diff, cand), expected);
            }
        }
    }
}

#[test]
fn check_pow_trivial_difficulty_always_passes() {
    // A difficulty with no leading zero bits accepts every candidate.
    let easy = [0xFFu8; 32];
    assert!(check_proof_of_work(&[3u8; 32], &easy, &[0u8; 32]));
    assert!(check_proof_of_work(&[3u8; 32], &easy, &[200u8; 32]));
}

#[test]
fn fee_is_proportional_to_difficulty_zeros() {
    let easy = [0xFFu8; 32];
    assert_eq!(recalculate_fee(&easy).limbs, [0, 0, 0, 0]);
    let mut one_zero_byte = [0xFFu8; 32];
    one_zero_byte[0] = 0x00;
    assert_eq!(recalculate_fee(&one_zero_byte).limbs, [8 * FEE_PER_ZERO_BIT, 0, 0, 0]);
    let hardest = [0u8; 32];
    assert_eq!(recalculate_fee(&hardest).limbs, [256 * FEE_PER_ZERO_BIT, 0, 0, 0]);
}

#[test]
fn fee_monotone_on_samples() {
    // Harder difficulty (more leading zero bits) never prices lower.
    let mut harder = [0xFFu8; 32];
    harder[0] = 0x00;
    harder[1] = 0x0F;
    let easier = [0x7Fu8; 32];
    let fee_harder = recalculate_fee(&harder);
    let fee_easier = recalculate_fee(&easier);
    assert!(fee_harder.checked_sub(&fee_easier).is_some());
}

#[test]
fn nonce_candidate_layout() {
    let c = nonce_to_candidate(0x0102030405060708);
    let mut expected = [0u8; 32];
    expected[24..].copy_from_slice(&[1, 2, 3, 4, 5, 6, 7, 8]);
    assert_eq!(c, expected);
    assert_eq!(u64_to_be_bytes(0xFF00000000000001), [0xFF, 0, 0, 0, 0, 0, 0, 1]);
}

#[test]
fn search_finds_first_nonce_on_trivial_difficulty() {
    let easy = [0xFFu8; 32];
    let found = search_nonce(&[9u8; 32], &easy, 0, 10);
    assert_eq!(found, Some(nonce_to_candidate(0)));
}

#[test]
fn search_fails_on_impossible_difficulty() {
    // A target demanding 256 leading zero bits: no digest of these few
    // candidates reaches it.
    let hard = [0u8; 32];
    assert_eq!(search_nonce(&[9u8; 32], &hard, 0, 8), None);
}

#[test]
fn u256_add_carries_across_limbs() {
    let a = U256 { limbs: [u64::MAX, 0, 0, 0] };
    let one = U256::from_u64(1);
    let sum = a.checked_add(&one).unwrap();
    assert_eq!(sum.limbs, [0, 1, 0, 0]);
    let back = sum.checked_sub(&one).unwrap();
    assert_eq!(back.limbs, [u64::MAX, 0, 0, 0]);
}

#[test]
fn u256_overflow_and_underflow_are_detected() {
    let max = U256 { limbs: [u64::MAX, u64::MAX, u64::MAX, u64::MAX] };
    let one = U256::from_u64(1);
    assert!(max.checked_add(&one).is_none());
    assert!(U256::zero().checked_sub(&one).is_none());
    assert!(U256::zero().checked_add(&max).is_some());
}

#[test]
fn u256_equals_compares_values() {
    let a = U256::from_u64(77);
    let b = U256 { limbs: [77, 0, 0, 0] };
    let c = U256 { limbs: [77, 1, 0, 0] };
    assert!(a.equals(&b));
    assert!(!a.equals(&c));
}

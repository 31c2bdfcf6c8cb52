use vstd::prelude::*;
use crate::u256::U256;

verus! {

/// The SHA-256 digest of a byte sequence; a function of those bytes alone.
pub uninterp spec fn digest_of(data: Seq<u8>) -> Seq<u8>;

/// Relies on sha2::Sha256::digest: computes the SHA-256 digest of the input,
/// which depends on the input bytes alone and is 32 bytes long.
#[verifier::external_body]
pub(crate) fn sha256(data: &[u8]) -> (r: [u8; 32])
    ensures
        r@ == digest_of(data@),
{
    let out = <sha2::Sha256 as sha2::Digest>::digest(data);
    let mut r = [0u8; 32];
    r.copy_from_slice(&out);
    r
}

/// How many leading zero bits an 8-bit value has.
pub open spec fn byte_leading_zeros(b: u8) -> nat {
    if b >= 0x80 {
        0
    } else if b >= 0x40 {
        1
    } else if b >= 0x20 {
        2
    } else if b >= 0x10 {
        3
    } else if b >= 0x08 {
        4
    } else if b >= 0x04 {
        5
    } else if b >= 0x02 {
        6
    } else if b >= 0x01 {
        7
    } else {
        8
    }
}

/// How many leading zero bits a byte sequence has, read big-endian.
pub open spec fn leading_zero_bits(s: Seq<u8>) -> nat
    decreases s.len(),
{
    if s.len() == 0 {
        0
    } else if s[0] == 0 {
        (8 + leading_zero_bits(s.skip(1))) as nat
    } else {
        byte_leading_zeros(s[0])
    }
}

/// A sequence of l bytes has at most 8 * l leading zero bits.
pub proof fn lemma_leading_zero_bits_bound(s: Seq<u8>)
    ensures
        leading_zero_bits(s) <= 8 * s.len(),
    decreases s.len(),
{
    if s.len() > 0 && s[0] == 0 {
        lemma_leading_zero_bits_bound(s.skip(1));
    }
}

/// When the first i bytes are zero, the count splits at position i.
proof fn lemma_leading_zero_bits_split(s: Seq<u8>, i: int)
    requires
        0 <= i <= s.len(),
        forall|j: int| 0 <= j < i ==> s[j] == 0,
    ensures
        leading_zero_bits(s) == 8 * i + leading_zero_bits(s.skip(i)),
    decreases i,
{
    if i == 0 {
        assert(s.skip(0) =~= s);
    } else {
        lemma_leading_zero_bits_split(s, i - 1);
        let t = s.skip(i - 1);
        assert(t[0] == s[i - 1]);
        assert(t.skip(1) =~= s.skip(i));
    }
}

fn byte_zeros(b: u8) -> (r: u64)
    ensures
        r == byte_leading_zeros(b),
{
    if b >= 0x80 {
        0
    } else if b >= 0x40 {
        1
    } else if b >= 0x20 {
        2
    } else if b >= 0x10 {
        3
    } else if b >= 0x08 {
        4
    } else if b >= 0x04 {
        5
    } else if b >= 0x02 {
        6
    } else if b >= 0x01 {
        7
    } else {
        8
    }
}

/// Count the leading zero bits of a 256-bit value, given big-endian.
pub fn count_leading_zeros(bytes: &[u8; 32]) -> (r: u64)
    ensures
        r == leading_zero_bits(bytes@),
{
    let mut i: usize = 0;
    while i < 32
        invariant
            i <= 32,
            forall|j: int| 0 <= j < i ==> bytes@[j] == 0,
        decreases 32 - i,
    {
        if bytes[i] != 0 {
            proof {
                lemma_leading_zero_bits_split(bytes@, i as int);
                assert(bytes@.skip(i as int)[0] == bytes@[i as int]);
            }
            return 8 * (i as u64) + byte_zeros(bytes[i]);
        }
        i += 1;
    }
    proof {
        lemma_leading_zero_bits_split(bytes@, 32);
        assert(bytes@.skip(32).len() == 0);
    }
    256
}

/// Whether a candidate proof satisfies the difficulty target for the given
/// previous hash: the digest of (previous hash followed by the candidate)
/// has at least as many leading zero bits as the difficulty.
pub open spec fn pow_ok(prev_hash: Seq<u8>, difficulty: Seq<u8>, candidate: Seq<u8>) -> bool {
    leading_zero_bits(digest_of(prev_hash + candidate)) >= leading_zero_bits(difficulty)
}

/// Validate a candidate proof of work against the previous block hash and
/// the difficulty target.
pub fn check_proof_of_work(prev_hash: &[u8; 32], difficulty: &[u8; 32], candidate: &[u8; 32]) -> (r:
    bool)
    ensures
        r == pow_ok(prev_hash@, difficulty@, candidate@),
{
    let mut data: Vec<u8> = Vec::new();
    let mut i: usize = 0;
    while i < 32
        invariant
            i <= 32,
            data@ == prev_hash@.take(i as int),
        decreases 32 - i,
    {
        data.push(prev_hash[i]);
        proof {
            assert(prev_hash@.take(i + 1) =~= prev_hash@.take(i as int).push(prev_hash@[i as int]));
        }
        i += 1;
    }
    i = 0;
    while i < 32
        invariant
            i <= 32,
            data@ == prev_hash@.take(32) + candidate@.take(i as int),
        decreases 32 - i,
    {
        data.push(candidate[i]);
        proof {
            assert(prev_hash@.take(32) + candidate@.take(i + 1) =~= (prev_hash@.take(32)
                + candidate@.take(i as int)).push(candidate@[i as int]));
        }
        i += 1;
    }
    proof {
        assert(prev_hash@.take(32) =~= prev_hash@);
        assert(candidate@.take(32) =~= candidate@);
        assert(data@ =~= prev_hash@ + candidate@);
    }
    let digest = sha256(data.as_slice());
    let digest_zeros = count_leading_zeros(&digest);
    let target_zeros = count_leading_zeros(difficulty);
    digest_zeros >= target_zeros
}

/// How many coin units one transaction's fee is worth per leading zero bit
/// of the difficulty target.
pub const FEE_PER_ZERO_BIT: u64 = 1000;

/// The per-transaction fee implied by a difficulty target: proportional to
/// the target's leading-zero-bit count, so harder targets price higher.
pub open spec fn fee_for_difficulty(difficulty: Seq<u8>) -> nat {
    (leading_zero_bits(difficulty) * FEE_PER_ZERO_BIT) as nat
}

/// Compute the per-transaction fee for a difficulty target.
pub fn recalculate_fee(difficulty: &[u8; 32]) -> (r: U256)
    ensures
        r.as_nat() == fee_for_difficulty(difficulty@),
{
    let zeros = count_leading_zeros(difficulty);
    proof {
        lemma_leading_zero_bits_bound(difficulty@);
    }
    U256::from_u64(zeros * FEE_PER_ZERO_BIT)
}

/// A harder difficulty target (more leading zero bits) never prices a
/// transaction below an easier one.
pub proof fn lemma_fee_monotone(harder: Seq<u8>, easier: Seq<u8>)
    requires
        leading_zero_bits(harder) >= leading_zero_bits(easier),
    ensures
        fee_for_difficulty(harder) >= fee_for_difficulty(easier),
{
}

/// The 32-byte big-endian form of a 64-bit nonce: 24 zero bytes, then the
/// nonce's own bytes, most significant first.
pub open spec fn nonce_bytes(n: u64) -> Seq<u8> {
    Seq::new(24, |i: int| 0u8) + u64_be_bytes(n)
}

/// The big-endian bytes of a 64-bit value.
pub open spec fn u64_be_bytes(x: u64) -> Seq<u8> {
    seq![
        (x >> 56) as u8,
        (x >> 48) as u8,
        (x >> 40) as u8,
        (x >> 32) as u8,
        (x >> 24) as u8,
        (x >> 16) as u8,
        (x >> 8) as u8,
        x as u8,
    ]
}

/// Write a 64-bit value as eight big-endian bytes.
pub fn u64_to_be_bytes(x: u64) -> (r: [u8; 8])
    ensures
        r@ == u64_be_bytes(x),
{
    let r: [u8; 8] = [
        #[verifier::truncate] ((x >> 56) as u8),
        #[verifier::truncate] ((x >> 48) as u8),
        #[verifier::truncate] ((x >> 40) as u8),
        #[verifier::truncate] ((x >> 32) as u8),
        #[verifier::truncate] ((x >> 24) as u8),
        #[verifier::truncate] ((x >> 16) as u8),
        #[verifier::truncate] ((x >> 8) as u8),
        #[verifier::truncate] (x as u8),
    ];
    proof {
        assert(r@ =~= u64_be_bytes(x));
    }
    r
}

/// Lay a 64-bit nonce out as a 32-byte candidate proof.
pub fn nonce_to_candidate(n: u64) -> (r: [u8; 32])
    ensures
        r@ == nonce_bytes(n),
{
    let b = u64_to_be_bytes(n);
    let r: [u8; 32] = [
        0, 0, 0, 0, 0, 0, 0, 0, 0, 0, 0, 0, 0, 0, 0, 0, 0, 0, 0, 0, 0, 0, 0, 0, b[0], b[1], b[2],
        b[3], b[4], b[5], b[6], b[7],
    ];
    proof {
        assert(r@ =~= nonce_bytes(n));
    }
    r
}

/// Search candidate nonces in increasing order from `start`, at most
/// `attempts` of them, for one whose proof satisfies the target. Returns the
/// first satisfying candidate; `None` means every nonce in the searched
/// range fails the proof-of-work check.
pub fn search_nonce(prev_hash: &[u8; 32], difficulty: &[u8; 32], start: u64, attempts: u64) -> (r:
    Option<[u8; 32]>)
    requires
        start + attempts <= u64::MAX,
    ensures
        match r {
            Some(p) => exists|n: u64|
                start <= n < start + attempts && p@ == nonce_bytes(n) && pow_ok(
                    prev_hash@,
                    difficulty@,
                    p@,
                ) && (forall|m: u64|
                    start <= m < n ==> !pow_ok(prev_hash@, difficulty@, nonce_bytes(m))),
            None => forall|n: u64|
                start <= n < start + attempts ==> !pow_ok(prev_hash@, difficulty@, nonce_bytes(n)),
        },
{
    let mut n: u64 = start;
    while n < start + attempts
        invariant
            start <= n <= start + attempts,
            start + attempts <= u64::MAX,
            forall|m: u64| start <= m < n ==> !pow_ok(prev_hash@, difficulty@, nonce_bytes(m)),
        decreases start + attempts - n,
    {
        let candidate = nonce_to_candidate(n);
        if check_proof_of_work(prev_hash, difficulty, &candidate) {
            return Some(candidate);
        }
        n += 1;
    }
    None
}

} // verus!

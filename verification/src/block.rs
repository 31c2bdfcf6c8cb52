use vstd::prelude::*;
use crate::pow::{digest_of, sha256, u64_be_bytes, u64_to_be_bytes};
use crate::u256::U256;

verus! {

/// Metadata of a block: its zero-based height in the chain, the difficulty
/// target its proof was found against, and the time it was built.
pub struct BlockInfo {
    pub height: u64,
    pub difficulty: [u8; 32],
    pub timestamp: u64,
}

/// One block: metadata, the hash of the previous block, the ordered hashes
/// of the transactions it carries, and the 32-byte nonce that proves the
/// work done on it.
pub struct Block {
    pub info: BlockInfo,
    pub prev_hash: [u8; 32],
    pub transaction_hashes: Vec<[u8; 32]>,
    pub proof: [u8; 32],
}

/// The concatenated bytes of a list of transaction hashes.
pub open spec fn tx_hashes_bytes(ts: Seq<[u8; 32]>) -> Seq<u8>
    decreases ts.len(),
{
    if ts.len() == 0 {
        Seq::empty()
    } else {
        tx_hashes_bytes(ts.drop_last()) + ts.last()@
    }
}

/// The canonical byte encoding of a block, over which its hash is taken.
pub open spec fn block_bytes(b: Block) -> Seq<u8> {
    u64_be_bytes(b.info.height) + u64_be_bytes(b.info.timestamp) + b.info.difficulty@
        + b.prev_hash@ + b.proof@ + tx_hashes_bytes(b.transaction_hashes@)
}

/// A block's own hash: the digest of its canonical encoding. The next
/// block's prev_hash must equal this.
pub open spec fn block_hash(b: Block) -> Seq<u8> {
    digest_of(block_bytes(b))
}

/// Append 32 bytes to a buffer.
fn push_bytes_32(data: &mut Vec<u8>, bytes: &[u8; 32])
    ensures
        final(data)@ == old(data)@ + bytes@,
{
    let mut i: usize = 0;
    while i < 32
        invariant
            i <= 32,
            data@ == old(data)@ + bytes@.take(i as int),
        decreases 32 - i,
    {
        data.push(bytes[i]);
        proof {
            assert(old(data)@ + bytes@.take(i + 1) =~= (old(data)@ + bytes@.take(i as int)).push(
                bytes@[i as int],
            ));
        }
        i += 1;
    }
    proof {
        assert(old(data)@ + bytes@.take(32) =~= old(data)@ + bytes@);
    }
}

/// Append a 64-bit value, big-endian, to a buffer.
fn push_u64_be(data: &mut Vec<u8>, x: u64)
    ensures
        final(data)@ == old(data)@ + u64_be_bytes(x),
{
    let bytes = u64_to_be_bytes(x);
    let mut i: usize = 0;
    while i < 8
        invariant
            i <= 8,
            bytes@ == u64_be_bytes(x),
            data@ == old(data)@ + bytes@.take(i as int),
        decreases 8 - i,
    {
        data.push(bytes[i]);
        proof {
            assert(old(data)@ + bytes@.take(i + 1) =~= (old(data)@ + bytes@.take(i as int)).push(
                bytes@[i as int],
            ));
        }
        i += 1;
    }
    proof {
        assert(old(data)@ + bytes@.take(8) =~= old(data)@ + bytes@);
    }
}

/// Compute a block's own hash from its contents.
pub fn compute_block_hash(b: &Block) -> (r: [u8; 32])
    ensures
        r@ == block_hash(*b),
{
    let mut data: Vec<u8> = Vec::new();
    push_u64_be(&mut data, b.info.height);
    push_u64_be(&mut data, b.info.timestamp);
    push_bytes_32(&mut data, &b.info.difficulty);
    push_bytes_32(&mut data, &b.prev_hash);
    push_bytes_32(&mut data, &b.proof);
    let ghost prefix = data@;
    let mut i: usize = 0;
    while i < b.transaction_hashes.len()
        invariant
            i <= b.transaction_hashes@.len(),
            data@ == prefix + tx_hashes_bytes(b.transaction_hashes@.take(i as int)),
        decreases b.transaction_hashes@.len() - i,
    {
        push_bytes_32(&mut data, &b.transaction_hashes[i]);
        proof {
            let ts = b.transaction_hashes@;
            assert(ts.take(i + 1).drop_last() =~= ts.take(i as int));
            assert(ts.take(i + 1).last() == ts[i as int]);
            assert(data@ =~= prefix + tx_hashes_bytes(ts.take(i + 1)));
        }
        i += 1;
    }
    proof {
        assert(b.transaction_hashes@.take(b.transaction_hashes@.len() as int)
            =~= b.transaction_hashes@);
        assert(data@ =~= block_bytes(*b));
    }
    sha256(data.as_slice())
}

/// Whether two 32-byte hashes are the same.
pub fn hash_eq(a: &[u8; 32], b: &[u8; 32]) -> (r: bool)
    ensures
        r == (a@ == b@),
{
    let mut i: usize = 0;
    while i < 32
        invariant
            i <= 32,
            forall|j: int| 0 <= j < i ==> a@[j] == b@[j],
        decreases 32 - i,
    {
        if a[i] != b[i] {
            return false;
        }
        i += 1;
    }
    proof {
        assert(a@ =~= b@);
    }
    true
}

/// Whether two 33-byte addresses are the same.
pub fn address_eq(a: &[u8; 33], b: &[u8; 33]) -> (r: bool)
    ensures
        r == (a@ == b@),
{
    let mut i: usize = 0;
    while i < 33
        invariant
            i <= 33,
            forall|j: int| 0 <= j < i ==> a@[j] == b@[j],
        decreases 33 - i,
    {
        if a[i] != b[i] {
            return false;
        }
        i += 1;
    }
    proof {
        assert(a@ =~= b@);
    }
    true
}

/// A coin transfer: immutable once built, identified by its hash.
pub struct Transaction {
    pub sender: [u8; 33],
    pub receiver: [u8; 33],
    pub timestamp: u64,
    pub amount: U256,
    pub signature: [u8; 64],
}

/// The canonical byte encoding of a transaction, over which its hash is
/// taken: sender, receiver, timestamp, amount limbs (most significant
/// first), signature.
pub open spec fn transaction_bytes(t: Transaction) -> Seq<u8> {
    t.sender@ + t.receiver@ + u64_be_bytes(t.timestamp) + u64_be_bytes(t.amount.limbs@[3])
        + u64_be_bytes(t.amount.limbs@[2]) + u64_be_bytes(t.amount.limbs@[1]) + u64_be_bytes(
        t.amount.limbs@[0],
    ) + t.signature@
}

/// A transaction's identity: the digest of its canonical encoding.
pub open spec fn transaction_hash(t: Transaction) -> Seq<u8> {
    digest_of(transaction_bytes(t))
}

/// Append 33 bytes to a buffer.
fn push_bytes_33(data: &mut Vec<u8>, bytes: &[u8; 33])
    ensures
        final(data)@ == old(data)@ + bytes@,
{
    let mut i: usize = 0;
    while i < 33
        invariant
            i <= 33,
            data@ == old(data)@ + bytes@.take(i as int),
        decreases 33 - i,
    {
        data.push(bytes[i]);
        proof {
            assert(old(data)@ + bytes@.take(i + 1) =~= (old(data)@ + bytes@.take(i as int)).push(
                bytes@[i as int],
            ));
        }
        i += 1;
    }
    proof {
        assert(old(data)@ + bytes@.take(33) =~= old(data)@ + bytes@);
    }
}

/// Append 64 bytes to a buffer.
fn push_bytes_64(data: &mut Vec<u8>, bytes: &[u8; 64])
    ensures
        final(data)@ == old(data)@ + bytes@,
{
    let mut i: usize = 0;
    while i < 64
        invariant
            i <= 64,
            data@ == old(data)@ + bytes@.take(i as int),
        decreases 64 - i,
    {
        data.push(bytes[i]);
        proof {
            assert(old(data)@ + bytes@.take(i + 1) =~= (old(data)@ + bytes@.take(i as int)).push(
                bytes@[i as int],
            ));
        }
        i += 1;
    }
    proof {
        assert(old(data)@ + bytes@.take(64) =~= old(data)@ + bytes@);
    }
}

impl Transaction {
    /// Compute this transaction's identifying hash from its fields.
    pub fn hash(&self) -> (r: [u8; 32])
        ensures
            r@ == transaction_hash(*self),
    {
        let mut data: Vec<u8> = Vec::new();
        push_bytes_33(&mut data, &self.sender);
        push_bytes_33(&mut data, &self.receiver);
        push_u64_be(&mut data, self.timestamp);
        push_u64_be(&mut data, self.amount.limbs[3]);
        push_u64_be(&mut data, self.amount.limbs[2]);
        push_u64_be(&mut data, self.amount.limbs[1]);
        push_u64_be(&mut data, self.amount.limbs[0]);
        push_bytes_64(&mut data, &self.signature);
        proof {
            assert(data@ =~= transaction_bytes(*self));
        }
        sha256(data.as_slice())
    }
}

} // verus!

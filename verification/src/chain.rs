use vstd::prelude::*;
use crate::block::{Block, BlockInfo, block_hash, compute_block_hash, hash_eq};
use crate::pow::pow_ok;

verus! {

/// The single shared main chain: an append-only run of blocks starting at
/// its genesis block.
pub struct MainChain {
    pub blocks: Vec<Block>,
}

impl MainChain {
    /// Chain well-formedness: at least the genesis block; zero-based heights
    /// that rise by one; every later block chained to the hash of the block
    /// before it, carrying a proof valid against that block's hash and
    /// difficulty; and a transaction-free block at every epoch boundary.
    pub open spec fn wf(self, epoch_length: u64) -> bool {
        &&& epoch_length > 0
        &&& 1 <= self.blocks@.len() <= u64::MAX
        &&& forall|i: int|
            0 <= i < self.blocks@.len() ==> (#[trigger] self.blocks@[i]).info.height == i
        &&& forall|i: int|
            1 <= i < self.blocks@.len() ==> (#[trigger] self.blocks@[i]).prev_hash@ == block_hash(
                self.blocks@[i - 1],
            )
        &&& forall|i: int|
            1 <= i < self.blocks@.len() ==> pow_ok(
                block_hash(self.blocks@[i - 1]),
                self.blocks@[i - 1].info.difficulty@,
                (#[trigger] self.blocks@[i]).proof@,
            )
        &&& forall|i: int|
            0 <= i < self.blocks@.len() && i % (epoch_length as int) == 0 ==> (
            #[trigger] self.blocks@[i]).transaction_hashes@.len() == 0
    }

    /// The height of the chain: that of its last block.
    pub open spec fn height(self) -> int {
        self.blocks@.len() - 1
    }

    /// The last block of the chain.
    pub open spec fn head(self) -> Block {
        self.blocks@.last()
    }

    /// A fresh chain holding only a genesis block: height zero, no
    /// transactions, an all-zero previous hash and proof.
    pub fn new(difficulty: &[u8; 32], timestamp: u64) -> (r: MainChain)
        ensures
            r.blocks@.len() == 1,
            r.head().info.height == 0,
            r.head().info.difficulty@ == difficulty@,
            r.head().info.timestamp == timestamp,
            r.head().transaction_hashes@.len() == 0,
    {
        let genesis = Block {
            info: BlockInfo { height: 0, difficulty: *difficulty, timestamp },
            prev_hash: [0; 32],
            transaction_hashes: Vec::new(),
            proof: [0; 32],
        };
        let mut blocks: Vec<Block> = Vec::new();
        blocks.push(genesis);
        MainChain { blocks }
    }

    /// The chain's current height.
    pub fn get_height(&self) -> (r: u64)
        requires
            1 <= self.blocks@.len() <= u64::MAX,
        ensures
            r == self.height(),
    {
        (self.blocks.len() - 1) as u64
    }

    /// The chain's last block.
    pub fn get_last_block(&self) -> (r: &Block)
        requires
            self.blocks@.len() >= 1,
        ensures
            *r == self.head(),
    {
        &self.blocks[self.blocks.len() - 1]
    }

    /// The block at a given height, if the chain has reached it.
    pub fn find_by_height(&self, height: u64) -> (r: Option<&Block>)
        ensures
            match r {
                Some(b) => height < self.blocks@.len() && *b == self.blocks@[height as int],
                None => height >= self.blocks@.len(),
            },
    {
        let n = self.blocks.len();
        if height < n as u64 {
            Some(&self.blocks[height as usize])
        } else {
            None
        }
    }

    /// The block whose own hash is the given one, if any.
    pub fn find_by_hash(&self, hash: &[u8; 32]) -> (r: Option<&Block>)
        ensures
            match r {
                Some(b) => block_hash(*b) == hash@ && exists|i: int|
                    0 <= i < self.blocks@.len() && *b == self.blocks@[i],
                None => forall|i: int|
                    0 <= i < self.blocks@.len() ==> block_hash(#[trigger] self.blocks@[i])
                        != hash@,
            },
    {
        let mut i: usize = 0;
        while i < self.blocks.len()
            invariant
                i <= self.blocks@.len(),
                forall|j: int|
                    0 <= j < i ==> block_hash(#[trigger] self.blocks@[j]) != hash@,
            decreases self.blocks@.len() - i,
        {
            let h = compute_block_hash(&self.blocks[i]);
            if hash_eq(&h, hash) {
                return Some(&self.blocks[i]);
            }
            i += 1;
        }
        None
    }
}

/// A well-formed main chain of N+1 blocks has height N, heights counting up
/// from the genesis block, and every block above the genesis chained to the
/// hash of the block below it.
pub proof fn lemma_chain_linkage(c: MainChain, epoch_length: u64)
    requires
        c.wf(epoch_length),
    ensures
        c.height() == c.blocks@.len() - 1,
        forall|i: int| 0 <= i < c.blocks@.len() ==> (#[trigger] c.blocks@[i]).info.height == i,
        forall|i: int|
            1 <= i < c.blocks@.len() ==> (#[trigger] c.blocks@[i]).prev_hash@ == block_hash(
                c.blocks@[i - 1],
            ),
{
}

/// A per-address derivative chain: anchored by `genesis_hash` to one
/// main-chain block, mining gas rather than coin, carrying no transactions.
pub struct DerivativeChain {
    pub genesis_hash: [u8; 32],
    pub blocks: Vec<Block>,
}

impl DerivativeChain {
    /// Well-formedness, given the fixed difficulty that a derivative chain
    /// starts at: heights rise by one from one; the first block chains to
    /// the anchoring main-chain block's hash with a proof valid against it
    /// at the starting difficulty; every later block chains to the block
    /// before it; no block carries transactions.
    pub open spec fn wf(self, beginning_difficulty: Seq<u8>) -> bool {
        &&& self.blocks@.len() < u64::MAX
        &&& forall|i: int|
            0 <= i < self.blocks@.len() ==> (#[trigger] self.blocks@[i]).info.height == i + 1
        &&& (self.blocks@.len() > 0 ==> self.blocks@[0].prev_hash@ == self.genesis_hash@ && pow_ok(
            self.genesis_hash@,
            beginning_difficulty,
            self.blocks@[0].proof@,
        ) && self.blocks@[0].info.difficulty@ == beginning_difficulty)
        &&& forall|i: int|
            1 <= i < self.blocks@.len() ==> (#[trigger] self.blocks@[i]).prev_hash@ == block_hash(
                self.blocks@[i - 1],
            )
        &&& forall|i: int|
            1 <= i < self.blocks@.len() ==> pow_ok(
                block_hash(self.blocks@[i - 1]),
                self.blocks@[i - 1].info.difficulty@,
                (#[trigger] self.blocks@[i]).proof@,
            )
        &&& forall|i: int|
            0 <= i < self.blocks@.len() ==> (#[trigger] self.blocks@[i]).transaction_hashes@.len()
                == 0
    }

    /// The hash the next block must chain to: the anchoring main-chain
    /// block's hash while the chain is empty, afterwards the last block's
    /// own hash.
    pub open spec fn head_hash(self) -> Seq<u8> {
        if self.blocks@.len() == 0 {
            self.genesis_hash@
        } else {
            block_hash(self.blocks@.last())
        }
    }

    /// The difficulty the next proof is searched against: the fixed
    /// starting difficulty while the chain is empty, afterwards the last
    /// block's.
    pub open spec fn head_difficulty(self, beginning_difficulty: Seq<u8>) -> Seq<u8> {
        if self.blocks@.len() == 0 {
            beginning_difficulty
        } else {
            self.blocks@.last().info.difficulty@
        }
    }

    /// The chain's height: zero while empty, else the last block's height.
    pub open spec fn height(self) -> int {
        self.blocks@.len() as int
    }

    /// A fresh derivative chain anchored to the main-chain block with the
    /// given hash.
    pub fn new(genesis_hash: &[u8; 32]) -> (r: DerivativeChain)
        ensures
            r.genesis_hash@ == genesis_hash@,
            r.blocks@.len() == 0,
            forall|d: Seq<u8>| r.wf(d),
    {
        DerivativeChain { genesis_hash: *genesis_hash, blocks: Vec::new() }
    }

    /// The chain's current height.
    pub fn get_height(&self) -> (r: u64)
        requires
            self.blocks@.len() < u64::MAX,
        ensures
            r == self.height(),
    {
        self.blocks.len() as u64
    }

    /// Once a derivative chain holds a block, its head is that block's own
    /// hash and difficulty; the anchoring block and the starting difficulty
    /// no longer play a part.
    pub proof fn lemma_head_after_block(self)
        requires
            self.blocks@.len() > 0,
        ensures
            self.head_hash() == block_hash(self.blocks@.last()),
            forall|d: Seq<u8>| #[trigger] self.head_difficulty(d)
                == self.blocks@.last().info.difficulty@,
    {
    }

    /// Resolve the head the next proof must build on: the anchoring
    /// main-chain block's hash and the fixed starting difficulty while the
    /// chain has no blocks of its own, afterwards the last block's own hash
    /// and difficulty. Returns (hash, difficulty, height).
    pub fn resolve_head(&self, beginning_difficulty: &[u8; 32]) -> (r: ([u8; 32], [u8; 32], u64))
        requires
            self.blocks@.len() < u64::MAX,
            self.blocks@.len() > 0 ==> self.blocks@.last().info.height == self.blocks@.len(),
        ensures
            r.0@ == self.head_hash(),
            r.1@ == self.head_difficulty(beginning_difficulty@),
            r.2 == self.height(),
    {
        if self.blocks.len() == 0 {
            (self.genesis_hash, *beginning_difficulty, 0)
        } else {
            let last = &self.blocks[self.blocks.len() - 1];
            let h = compute_block_hash(last);
            (h, last.info.difficulty, last.info.height)
        }
    }
}

} // verus!

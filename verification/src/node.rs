use vstd::prelude::*;
use crate::block::{Block, BlockInfo, Transaction, address_eq, block_hash, hash_eq, transaction_hash};
use crate::chain::{DerivativeChain, MainChain};
use crate::ledger::Ledger;
use crate::pow::{fee_for_difficulty, nonce_bytes, pow_ok, recalculate_fee, search_nonce};
use crate::u256::{U256, u256_bound};

verus! {

/// The configuration a node runs under: the address mining rewards are
/// debited from, the per-block reward, how many blocks one epoch lasts, and
/// the difficulty a fresh chain starts at.
pub struct Config {
    pub root_address: [u8; 33],
    pub reward: U256,
    pub epoch_length: u64,
    pub beginning_difficulty: [u8; 32],
}

/// What can go wrong while mining or moving coin.
#[derive(Debug, PartialEq, Eq, Structural, Clone, Copy)]
pub enum ChainError {
    /// A debit would take a balance below zero.
    InsufficientFunds,
    /// Every candidate nonce in the searched range failed the proof-of-work
    /// check; the caller may retry from a fresh head.
    NonceSpaceExhausted,
    /// A derivative chain's anchoring main-chain block is missing.
    ChainAnchorNotFound,
    /// A credit would take a balance past the largest 256-bit value.
    BalanceOverflow,
}

/// A single-node ledger engine: the shared main chain, the coin and gas
/// ledger, and the transactions seen so far, keyed by their hashes.
pub struct Node {
    pub config: Config,
    pub chain: MainChain,
    pub ledger: Ledger,
    pub transactions: Vec<([u8; 32], Transaction)>,
}

impl Node {
    /// Node well-formedness: a positive epoch length, a well-formed main
    /// chain, and a transaction store keyed by the transactions' own hashes.
    pub open spec fn wf(self) -> bool {
        &&& self.config.epoch_length > 0
        &&& self.chain.wf(self.config.epoch_length)
        &&& forall|i: int|
            0 <= i < self.transactions@.len() ==> (#[trigger] self.transactions@[i]).0@
                == transaction_hash(self.transactions@[i].1)
    }

    /// Whether a height falls on an epoch boundary, where a main-chain
    /// block must be transaction-free.
    pub open spec fn epoch_boundary(self, height: int) -> bool {
        height % (self.config.epoch_length as int) == 0
    }

    /// How many of the supplied transaction hashes the next main-chain
    /// block will carry: none on an epoch boundary, all of them otherwise.
    pub open spec fn included_count(self, supplied: nat) -> nat {
        if self.epoch_boundary(self.chain.head().info.height + 1) {
            0
        } else {
            supplied
        }
    }

    /// The miner's coin balance after one main-chain block carrying
    /// `included` transactions is accepted: the reward moves from the root
    /// address, and each included transaction earns the fee priced by the
    /// difficulty the proof was found against.
    pub open spec fn mined_miner_balance(self, miner: Seq<u8>, included: nat) -> int {
        let fee = fee_for_difficulty(self.chain.head().info.difficulty@);
        if miner == self.config.root_address@ {
            (self.ledger.balance_of(miner) + included * fee) as int
        } else {
            (self.ledger.balance_of(miner) + self.config.reward.as_nat() + included * fee) as int
        }
    }

    /// A fresh node: a main chain holding only its genesis block, an empty
    /// transaction store, and a ledger where only the root address is
    /// funded, with the given amount.
    pub fn new(config: Config, genesis_timestamp: u64, root_funds: U256) -> (r: Node)
        requires
            config.epoch_length > 0,
        ensures
            r.wf(),
            r.config == config,
            r.chain.blocks@.len() == 1,
            r.chain.head().info.height == 0,
            r.chain.head().info.difficulty@ == config.beginning_difficulty@,
            r.chain.head().transaction_hashes@.len() == 0,
            r.transactions@.len() == 0,
            r.ledger.balance_of(config.root_address@) == root_funds.as_nat(),
            forall|a: Seq<u8>|
                a != config.root_address@ ==> #[trigger] r.ledger.balance_of(a) == 0,
            forall|a: Seq<u8>| #[trigger] r.ledger.gas_of(a) == 0,
    {
        let chain = MainChain::new(&config.beginning_difficulty, genesis_timestamp);
        let mut ledger = Ledger::new();
        ledger.set_balance(&config.root_address, root_funds);
        Node { config, chain, ledger, transactions: Vec::new() }
    }

    /// The coin balance of an address.
    pub fn get_amount(&self, addr: &[u8; 33]) -> (r: U256)
        ensures
            r.as_nat() == self.ledger.balance_of(addr@),
    {
        self.ledger.get_balance(addr)
    }

    /// The gas balance of an address.
    pub fn get_gas(&self, addr: &[u8; 33]) -> (r: U256)
        ensures
            r.as_nat() == self.ledger.gas_of(addr@),
    {
        self.ledger.get_gas(addr)
    }

    /// Mine one block onto the main chain and apply its ledger effects,
    /// atomically: on any error nothing has changed.
    ///
    /// The new block sits at the next height, chains to the head block's
    /// hash, and carries a proof found against that hash and the head's
    /// difficulty. The supplied transaction hashes are carried as given,
    /// except at an epoch boundary, where the block is forced empty. The
    /// reward moves from the root address to the miner, and each carried
    /// transaction additionally earns the miner the fee priced by the
    /// difficulty the proof was found against.
    #[verifier::rlimit(100)]
    pub fn mine_main_block(
        &mut self,
        miner: &[u8; 33],
        tx_hashes: &Vec<[u8; 32]>,
        timestamp: u64,
        attempts: u64,
    ) -> (r: Result<(), ChainError>)
        requires
            old(self).wf(),
            old(self).chain.blocks@.len() < u64::MAX,
        ensures
            final(self).wf(),
            final(self).config == old(self).config,
            final(self).transactions@ == old(self).transactions@,
            r is Err ==> *final(self) == *old(self),
            ({
                let prev = old(self).chain.head();
                let head_h = block_hash(prev);
                let diff = prev.info.difficulty@;
                let root = old(self).config.root_address@;
                let reward = old(self).config.reward.as_nat();
                let k = old(self).included_count(tx_hashes@.len() as nat);
                match r {
                    Ok(()) => ({
                        let b = final(self).chain.head();
                        &&& final(self).chain.blocks@ == old(self).chain.blocks@.push(b)
                        &&& b.info.height == prev.info.height + 1
                        &&& b.info.difficulty@ == diff
                        &&& b.info.timestamp == timestamp
                        &&& b.prev_hash@ == head_h
                        &&& pow_ok(head_h, diff, b.proof@)
                        &&& b.transaction_hashes@ == (if old(self).epoch_boundary(
                            prev.info.height + 1,
                        ) {
                            Seq::<[u8; 32]>::empty()
                        } else {
                            tx_hashes@
                        })
                        &&& b.transaction_hashes@.len() == k
                        &&& final(self).ledger.balance_of(miner@) == old(self).mined_miner_balance(
                            miner@,
                            k,
                        )
                        &&& (miner@ != root ==> final(self).ledger.balance_of(root) == old(
                            self,
                        ).ledger.balance_of(root) - reward)
                        &&& forall|a: Seq<u8>|
                            a != miner@ && a != root ==> final(self).ledger.balance_of(a) == old(
                                self,
                            ).ledger.balance_of(a)
                        &&& forall|a: Seq<u8>|
                            final(self).ledger.gas_of(a) == old(self).ledger.gas_of(a)
                        &&& (exists|n: u64| n < attempts && pow_ok(head_h, diff, nonce_bytes(n)))
                        &&& old(self).ledger.balance_of(root) >= reward
                        &&& old(self).mined_miner_balance(miner@, k) < u256_bound()
                    }),
                    Err(e) => ({
                        &&& (e == ChainError::NonceSpaceExhausted <==> (forall|n: u64|
                            n < attempts ==> !pow_ok(head_h, diff, nonce_bytes(n))))
                        &&& (e == ChainError::InsufficientFunds <==> ((exists|n: u64|
                            n < attempts && pow_ok(head_h, diff, nonce_bytes(n))) && old(
                            self,
                        ).ledger.balance_of(root) < reward))
                        &&& (e == ChainError::BalanceOverflow <==> ((exists|n: u64|
                            n < attempts && pow_ok(head_h, diff, nonce_bytes(n))) && old(
                            self,
                        ).ledger.balance_of(root) >= reward && old(self).mined_miner_balance(
                            miner@,
                            k,
                        ) >= u256_bound()))
                        &&& e != ChainError::ChainAnchorNotFound
                    }),
                }
            }),
    {
        let head_hash = crate::block::compute_block_hash(self.chain.get_last_block());
        let difficulty: [u8; 32] = self.chain.get_last_block().info.difficulty;
        let prev_height: u64 = self.chain.get_last_block().info.height;

        let proof = match search_nonce(&head_hash, &difficulty, 0, attempts) {
            Some(p) => p,
            None => {
                return Err(ChainError::NonceSpaceExhausted);
            },
        };

        let new_height = prev_height + 1;
        let boundary = new_height % self.config.epoch_length == 0;
        let included: Vec<[u8; 32]> = if boundary {
            Vec::new()
        } else {
            copy_hashes(tx_hashes)
        };
        let k = included.len();
        let fee = recalculate_fee(&difficulty);

        let root_addr = self.config.root_address;
        let reward = self.config.reward;
        let root_bal = self.ledger.get_balance(&root_addr);
        let root_after = match root_bal.checked_sub(&reward) {
            Some(v) => v,
            None => {
                return Err(ChainError::InsufficientFunds);
            },
        };
        let miner_is_root = address_eq(miner, &root_addr);
        let base = if miner_is_root {
            root_after
        } else {
            self.ledger.get_balance(miner)
        };
        proof {
            root_bal.lemma_as_nat_bound();
        }
        let m = match base.checked_add(&reward) {
            Some(v) => v,
            None => {
                return Err(ChainError::BalanceOverflow);
            },
        };
        let m = match add_fees(m, fee, k) {
            Some(v) => v,
            None => {
                return Err(ChainError::BalanceOverflow);
            },
        };

        if !miner_is_root {
            self.ledger.set_balance(&root_addr, root_after);
        }
        self.ledger.set_balance(miner, m);
        let block = Block {
            info: BlockInfo { height: new_height, difficulty, timestamp },
            prev_hash: head_hash,
            transaction_hashes: included,
            proof,
        };
        self.chain.blocks.push(block);
        proof {
            let s = self.chain.blocks@;
            let olds = old(self).chain.blocks@;
            assert(s == olds.push(s.last()));
            assert forall|i: int| 0 <= i < s.len() implies (#[trigger] s[i]).info.height == i by {
                if i < olds.len() {
                    assert(s[i] == olds[i]);
                }
            }
            assert forall|i: int| 1 <= i < s.len() implies (#[trigger] s[i]).prev_hash@
                == block_hash(s[i - 1]) by {
                if i < olds.len() {
                    assert(s[i] == olds[i]);
                    assert(s[i - 1] == olds[i - 1]);
                }
            }
            assert forall|i: int| 1 <= i < s.len() implies pow_ok(
                block_hash(s[i - 1]),
                s[i - 1].info.difficulty@,
                (#[trigger] s[i]).proof@,
            ) by {
                if i < olds.len() {
                    assert(s[i] == olds[i]);
                    assert(s[i - 1] == olds[i - 1]);
                }
            }
            assert forall|i: int|
                0 <= i < s.len() && i % (self.config.epoch_length as int) == 0 implies (
            #[trigger] s[i]).transaction_hashes@.len() == 0 by {
                if i < olds.len() {
                    assert(s[i] == olds[i]);
                }
            }
        }
        Ok(())
    }

    /// Mine one block onto a derivative chain anchored to this node's main
    /// chain, crediting the miner's gas balance with the reward,
    /// atomically: on any error nothing has changed, neither in the node
    /// nor in the derivative chain.
    ///
    /// The head built on is the chain's own last block, or, while the chain
    /// is empty, the anchoring main-chain block at the fixed starting
    /// difficulty; an empty chain whose anchor is missing from the main
    /// chain is refused.
    #[verifier::rlimit(100)]
    pub fn mine_derivative_block(
        &mut self,
        chain: &mut DerivativeChain,
        miner: &[u8; 33],
        timestamp: u64,
        attempts: u64,
    ) -> (r: Result<(), ChainError>)
        requires
            old(self).wf(),
            old(chain).wf(old(self).config.beginning_difficulty@),
            old(chain).blocks@.len() + 1 < u64::MAX,
        ensures
            final(self).wf(),
            final(chain).wf(old(self).config.beginning_difficulty@),
            final(self).config == old(self).config,
            final(self).chain == old(self).chain,
            final(self).transactions@ == old(self).transactions@,
            final(chain).genesis_hash == old(chain).genesis_hash,
            r is Err ==> *final(self) == *old(self) && *final(chain) == *old(chain),
            ({
                let beg = old(self).config.beginning_difficulty@;
                let hh = old(chain).head_hash();
                let hd = old(chain).head_difficulty(beg);
                let reward = old(self).config.reward.as_nat();
                let anchored = old(chain).blocks@.len() > 0 || (exists|i: int|
                    0 <= i < old(self).chain.blocks@.len() && block_hash(
                        #[trigger] old(self).chain.blocks@[i],
                    ) == old(chain).genesis_hash@);
                match r {
                    Ok(()) => ({
                        let b = final(chain).blocks@.last();
                        &&& final(chain).blocks@ == old(chain).blocks@.push(b)
                        &&& b.info.height == old(chain).height() + 1
                        &&& b.prev_hash@ == hh
                        &&& b.info.difficulty@ == hd
                        &&& b.info.timestamp == timestamp
                        &&& b.transaction_hashes@.len() == 0
                        &&& pow_ok(hh, hd, b.proof@)
                        &&& anchored
                        &&& final(self).ledger.gas_of(miner@) == old(self).ledger.gas_of(miner@)
                            + reward
                        &&& forall|a: Seq<u8>|
                            a != miner@ ==> final(self).ledger.gas_of(a) == old(
                                self,
                            ).ledger.gas_of(a)
                        &&& forall|a: Seq<u8>|
                            final(self).ledger.balance_of(a) == old(self).ledger.balance_of(a)
                    }),
                    Err(e) => ({
                        &&& (e == ChainError::ChainAnchorNotFound <==> !anchored)
                        &&& (e == ChainError::NonceSpaceExhausted <==> (anchored && forall|n: u64|
                            n < attempts ==> !pow_ok(hh, hd, nonce_bytes(n))))
                        &&& (e == ChainError::BalanceOverflow <==> (anchored && (exists|n: u64|
                            n < attempts && pow_ok(hh, hd, nonce_bytes(n))) && old(
                            self,
                        ).ledger.gas_of(miner@) + reward >= u256_bound()))
                        &&& e != ChainError::InsufficientFunds
                    }),
                }
            }),
    {
        if chain.blocks.len() == 0 {
            match self.chain.find_by_hash(&chain.genesis_hash) {
                Some(_) => {},
                None => {
                    return Err(ChainError::ChainAnchorNotFound);
                },
            }
        }
        let (head_hash, difficulty, height) = chain.resolve_head(
            &self.config.beginning_difficulty,
        );
        let proof = match search_nonce(&head_hash, &difficulty, 0, attempts) {
            Some(p) => p,
            None => {
                return Err(ChainError::NonceSpaceExhausted);
            },
        };
        let gas = self.ledger.get_gas(miner);
        let gas_after = match gas.checked_add(&self.config.reward) {
            Some(v) => v,
            None => {
                return Err(ChainError::BalanceOverflow);
            },
        };
        self.ledger.set_gas(miner, gas_after);
        let block = Block {
            info: BlockInfo { height: height + 1, difficulty, timestamp },
            prev_hash: head_hash,
            transaction_hashes: Vec::new(),
            proof,
        };
        chain.blocks.push(block);
        proof {
            let s = chain.blocks@;
            let olds = old(chain).blocks@;
            assert(s == olds.push(s.last()));
            assert forall|i: int| 0 <= i < s.len() implies (#[trigger] s[i]).info.height == i
                + 1 by {
                if i < olds.len() {
                    assert(s[i] == olds[i]);
                }
            }
            assert forall|i: int| 1 <= i < s.len() implies (#[trigger] s[i]).prev_hash@
                == block_hash(s[i - 1]) by {
                if i < olds.len() {
                    assert(s[i] == olds[i]);
                    assert(s[i - 1] == olds[i - 1]);
                }
            }
            assert forall|i: int| 1 <= i < s.len() implies pow_ok(
                block_hash(s[i - 1]),
                s[i - 1].info.difficulty@,
                (#[trigger] s[i]).proof@,
            ) by {
                if i < olds.len() {
                    assert(s[i] == olds[i]);
                    assert(s[i - 1] == olds[i - 1]);
                }
            }
            assert forall|i: int| 0 <= i < s.len() implies (
            #[trigger] s[i]).transaction_hashes@.len() == 0 by {
                if i < olds.len() {
                    assert(s[i] == olds[i]);
                }
            }
        }
        Ok(())
    }

    /// Record a signed transaction and move its amount from sender to
    /// receiver, atomically: on any error nothing has changed. Returns the
    /// transaction's hash, under which it can be fetched again. The
    /// signature is carried as given: checking it is the signing
    /// collaborator's concern, not this ledger's.
    pub fn send_transaction(&mut self, tx: Transaction) -> (r: Result<[u8; 32], ChainError>)
        requires
            old(self).wf(),
        ensures
            final(self).wf(),
            final(self).config == old(self).config,
            final(self).chain == old(self).chain,
            forall|a: Seq<u8>| final(self).ledger.gas_of(a) == old(self).ledger.gas_of(a),
            match r {
                Ok(h) => ({
                    &&& h@ == transaction_hash(tx)
                    &&& final(self).transactions@ == old(self).transactions@.push((h, tx))
                    &&& old(self).ledger.balance_of(tx.sender@) >= tx.amount.as_nat()
                    &&& (tx.receiver@ == tx.sender@ ==> forall|a: Seq<u8>|
                        final(self).ledger.balance_of(a) == old(self).ledger.balance_of(a))
                    &&& (tx.receiver@ != tx.sender@ ==> ({
                        let lnew = final(self).ledger;
                        let lold = old(self).ledger;
                        &&& lnew.balance_of(tx.sender@) == lold.balance_of(tx.sender@)
                            - tx.amount.as_nat()
                        &&& lnew.balance_of(tx.receiver@) == lold.balance_of(tx.receiver@)
                            + tx.amount.as_nat()
                        &&& (forall|a: Seq<u8>|
                            a != tx.sender@ && a != tx.receiver@ ==> lnew.balance_of(a)
                                == lold.balance_of(a))
                    }))
                }),
                Err(e) => ({
                    &&& *final(self) == *old(self)
                    &&& (e == ChainError::InsufficientFunds <==> old(self).ledger.balance_of(
                        tx.sender@,
                    ) < tx.amount.as_nat())
                    &&& (e == ChainError::BalanceOverflow <==> (old(self).ledger.balance_of(
                        tx.sender@,
                    ) >= tx.amount.as_nat() && tx.receiver@ != tx.sender@ && old(
                        self,
                    ).ledger.balance_of(tx.receiver@) + tx.amount.as_nat() >= u256_bound()))
                    &&& e != ChainError::NonceSpaceExhausted
                    &&& e != ChainError::ChainAnchorNotFound
                }),
            },
    {
        let h = tx.hash();
        let sender_bal = self.ledger.get_balance(&tx.sender);
        let sender_after = match sender_bal.checked_sub(&tx.amount) {
            Some(v) => v,
            None => {
                return Err(ChainError::InsufficientFunds);
            },
        };
        if address_eq(&tx.receiver, &tx.sender) {
            let sender_addr = tx.sender;
            self.ledger.set_balance(&sender_addr, sender_bal);
            self.transactions.push((h, tx));
            return Ok(h);
        }
        let receiver_bal = self.ledger.get_balance(&tx.receiver);
        let receiver_after = match receiver_bal.checked_add(&tx.amount) {
            Some(v) => v,
            None => {
                return Err(ChainError::BalanceOverflow);
            },
        };
        let sender_addr = tx.sender;
        let receiver_addr = tx.receiver;
        self.ledger.set_balance(&sender_addr, sender_after);
        self.ledger.set_balance(&receiver_addr, receiver_after);
        self.transactions.push((h, tx));
        Ok(h)
    }

    /// The recorded transaction with the given hash, if any.
    pub fn get_transaction(&self, hash: &[u8; 32]) -> (r: Option<&Transaction>)
        requires
            self.wf(),
        ensures
            match r {
                Some(t) => transaction_hash(*t) == hash@ && exists|i: int|
                    0 <= i < self.transactions@.len() && *t == (
                    #[trigger] self.transactions@[i]).1,
                None => forall|i: int|
                    0 <= i < self.transactions@.len() ==> transaction_hash(
                        (#[trigger] self.transactions@[i]).1,
                    ) != hash@,
            },
    {
        let mut i: usize = 0;
        while i < self.transactions.len()
            invariant
                self.wf(),
                i <= self.transactions@.len(),
                forall|j: int|
                    0 <= j < i ==> transaction_hash((#[trigger] self.transactions@[j]).1) != hash@,
            decreases self.transactions@.len() - i,
        {
            if hash_eq(&self.transactions[i].0, hash) {
                return Some(&self.transactions[i].1);
            }
            i += 1;
        }
        None
    }
}

/// Credit `count` many identical fees on top of a base amount, or `None`
/// when the total does not fit in 256 bits.
fn add_fees(base: U256, fee: U256, count: usize) -> (r: Option<U256>)
    ensures
        match r {
            Some(v) => v.as_nat() == base.as_nat() + count * fee.as_nat(),
            None => base.as_nat() + count * fee.as_nat() >= u256_bound(),
        },
{
    let mut m = base;
    let mut j: usize = 0;
    while j < count
        invariant
            j <= count,
            m.as_nat() == base.as_nat() + j * fee.as_nat(),
        decreases count - j,
    {
        m = match m.checked_add(&fee) {
            Some(v) => v,
            None => {
                proof {
                    assert((j + 1) * fee.as_nat() == j * fee.as_nat() + fee.as_nat())
                        by (nonlinear_arith);
                    vstd::arithmetic::mul::lemma_mul_inequality(
                        j + 1,
                        count as int,
                        fee.as_nat() as int,
                    );
                }
                return None;
            },
        };
        proof {
            assert((j + 1) * fee.as_nat() == j * fee.as_nat() + fee.as_nat()) by (nonlinear_arith);
        }
        j += 1;
    }
    Some(m)
}

/// Copy a list of 32-byte hashes.
fn copy_hashes(src: &Vec<[u8; 32]>) -> (r: Vec<[u8; 32]>)
    ensures
        r@ == src@,
{
    let mut r: Vec<[u8; 32]> = Vec::new();
    let mut i: usize = 0;
    while i < src.len()
        invariant
            i <= src@.len(),
            r@ == src@.take(i as int),
        decreases src@.len() - i,
    {
        r.push(src[i]);
        proof {
            assert(src@.take(i + 1) =~= src@.take(i as int).push(src@[i as int]));
        }
        i += 1;
    }
    proof {
        assert(src@.take(src@.len() as int) =~= src@);
    }
    r
}

} // verus!

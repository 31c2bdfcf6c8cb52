use powminer::block::{compute_block_hash, Transaction};
use powminer::chain::DerivativeChain;
use powminer::node::{ChainError, Config, Node};
use powminer::pow::FEE_PER_ZERO_BIT;
use powminer::u256::U256;

const ROOT: [u8; 33] = [1u8; 33];
const MINER: [u8; 33] = [2u8; 33];
const ALICE: [u8; 33] = [3u8; 33];
const BOB: [u8; 33] = [4u8; 33];

/// A difficulty with no leading zero bits: every candidate proof passes.
const EASY: [u8; 32] = [0xFF; 32];

fn node_with(epoch_length: u64, difficulty: [u8; 32], root_funds: u64) -> Node {
    let config = Config {
        root_address: ROOT,
        reward: U256::from_u64(50),
        epoch_length,
        beginning_difficulty: difficulty,
    };
    Node::new(config, 1000, U256::from_u64(root_funds))
}

#[test]
fn sequential_blocks_chain_to_each_other() {
    let mut node = node_with(10, EASY, 1_000_000);
    for i in 0..3u64 {
        let r = node.mine_main_block(&MINER, &Vec::new(), 2000 + i, 16);
        assert_eq!(r, Ok(()));
    }
    assert_eq!(node.chain.blocks.len(), 4);
    for i in 1..4usize {
        assert_eq!(node.chain.blocks[i].info.height, i as u64);
        let prev_hash = compute_block_hash(&node.chain.blocks[i - 1]);
        assert_eq!(node.chain.blocks[i].prev_hash, prev_hash);
    }
}

#[test]
fn epoch_boundary_forces_empty_block() {
    let mut node = node_with(2, EASY, 1_000_000);
    let supplied = vec![[7u8; 32], [8u8; 32]];
    // Height 1: not a boundary, the hashes are carried as given.
    assert_eq!(node.mine_main_block(&MINER, &supplied, 2000, 16), Ok(()));
    assert_eq!(node.chain.blocks[1].transaction_hashes, supplied);
    // Height 2: a boundary, the block is forced transaction-free.
    assert_eq!(node.mine_main_block(&MINER, &supplied, 2001, 16), Ok(()));
    assert!(node.chain.blocks[2].transaction_hashes.is_empty());
}

#[test]
fn empty_block_moves_exactly_the_reward() {
    let mut node = node_with(10, EASY, 1_000_000);
    assert_eq!(node.mine_main_block(&MINER, &Vec::new(), 2000, 16), Ok(()));
    assert_eq!(node.get_amount(&MINER).limbs, [50, 0, 0, 0]);
    assert_eq!(node.get_amount(&ROOT).limbs, [1_000_000 - 50, 0, 0, 0]);
    assert_eq!(node.get_gas(&MINER).limbs, [0, 0, 0, 0]);
}

#[test]
fn block_with_transactions_earns_fees() {
    // One leading zero byte: eight leading zero bits, so each carried
    // transaction earns 8 * FEE_PER_ZERO_BIT; a proof needs some searching.
    let mut difficulty = [0xFF; 32];
    difficulty[0] = 0x00;
    let mut node = node_with(10, difficulty, 1_000_000);
    let supplied = vec![[7u8; 32], [8u8; 32]];
    assert_eq!(node.mine_main_block(&MINER, &supplied, 2000, 1_000_000), Ok(()));
    let fee = 8 * FEE_PER_ZERO_BIT;
    assert_eq!(node.get_amount(&MINER).limbs, [50 + 2 * fee, 0, 0, 0]);
    assert_eq!(node.get_amount(&ROOT).limbs, [1_000_000 - 50, 0, 0, 0]);
}

#[test]
fn derivative_chain_resolves_heads_and_mines_gas() {
    let mut node = node_with(10, EASY, 1_000_000);
    let anchor_hash = compute_block_hash(&node.chain.blocks[0]);
    let mut chain = DerivativeChain::new(&anchor_hash);

    // With no blocks of its own, the head is the anchoring block's hash at
    // the fixed starting difficulty and height zero.
    let (h, d, height) = chain.resolve_head(&EASY);
    assert_eq!(h, anchor_hash);
    assert_eq!(d, EASY);
    assert_eq!(height, 0);

    assert_eq!(node.mine_derivative_block(&mut chain, &MINER, 3000, 16), Ok(()));
    assert_eq!(node.get_gas(&MINER).limbs, [50, 0, 0, 0]);
    assert_eq!(node.get_amount(&MINER).limbs, [0, 0, 0, 0]);

    // After one block, the head is that block's own hash and difficulty.
    let (h2, d2, height2) = chain.resolve_head(&EASY);
    assert_eq!(h2, compute_block_hash(&chain.blocks[0]));
    assert_eq!(d2, chain.blocks[0].info.difficulty);
    assert_eq!(height2, 1);
    assert_eq!(chain.blocks[0].prev_hash, anchor_hash);
}

#[test]
fn derivative_chain_with_missing_anchor_is_refused() {
    let mut node = node_with(10, EASY, 1_000_000);
    let mut chain = DerivativeChain::new(&[9u8; 32]);
    let r = node.mine_derivative_block(&mut chain, &MINER, 3000, 16);
    assert_eq!(r, Err(ChainError::ChainAnchorNotFound));
    assert!(chain.blocks.is_empty());
}

#[test]
fn transaction_is_recorded_included_and_applied() {
    let mut node = node_with(10, EASY, 1_000_000);
    let tx = Transaction {
        sender: ROOT,
        receiver: ALICE,
        timestamp: 1500,
        amount: U256::from_u64(100),
        signature: [9u8; 64],
    };
    let h = node.send_transaction(tx).unwrap();
    assert_eq!(node.get_amount(&ALICE).limbs, [100, 0, 0, 0]);
    assert_eq!(node.get_amount(&ROOT).limbs, [1_000_000 - 100, 0, 0, 0]);

    let hashes = vec![h];
    assert_eq!(node.mine_main_block(&BOB, &hashes, 2000, 16), Ok(()));
    assert_eq!(node.chain.blocks[1].transaction_hashes, vec![h]);

    let stored = node.get_transaction(&h).expect("transaction should be found");
    assert_eq!(stored.sender, ROOT);
    assert_eq!(stored.receiver, ALICE);
    assert_eq!(stored.amount.limbs, [100, 0, 0, 0]);
    assert_eq!(node.get_amount(&ALICE).limbs, [100, 0, 0, 0]);

    assert!(node.get_transaction(&[0u8; 32]).is_none());
}

#[test]
fn underfunded_root_stops_mining() {
    let mut node = node_with(10, EASY, 49);
    let r = node.mine_main_block(&MINER, &Vec::new(), 2000, 16);
    assert_eq!(r, Err(ChainError::InsufficientFunds));
    assert_eq!(node.chain.blocks.len(), 1);
    assert_eq!(node.get_amount(&MINER).limbs, [0, 0, 0, 0]);
}

#[test]
fn exhausted_nonce_range_is_reported() {
    // A target demanding 256 leading zero bits cannot be met.
    let mut node = node_with(10, [0u8; 32], 1_000_000);
    let r = node.mine_main_block(&MINER, &Vec::new(), 2000, 8);
    assert_eq!(r, Err(ChainError::NonceSpaceExhausted));
    assert_eq!(node.chain.blocks.len(), 1);
}

#[test]
fn reward_overflowing_miner_balance_is_refused() {
    let mut node = node_with(10, EASY, 1_000_000);
    let max = U256 { limbs: [u64::MAX; 4] };
    node.ledger.set_balance(&MINER, max);
    let r = node.mine_main_block(&MINER, &Vec::new(), 2000, 16);
    assert_eq!(r, Err(ChainError::BalanceOverflow));
    assert_eq!(node.chain.blocks.len(), 1);
    assert_eq!(node.get_amount(&MINER).limbs, [u64::MAX; 4]);
}

#[test]
fn gas_overflow_is_refused() {
    let mut node = node_with(10, EASY, 1_000_000);
    let anchor_hash = compute_block_hash(&node.chain.blocks[0]);
    let mut chain = DerivativeChain::new(&anchor_hash);
    let max = U256 { limbs: [u64::MAX; 4] };
    node.ledger.set_gas(&MINER, max);
    let r = node.mine_derivative_block(&mut chain, &MINER, 3000, 16);
    assert_eq!(r, Err(ChainError::BalanceOverflow));
    assert!(chain.blocks.is_empty());
}

#[test]
fn transfer_with_insufficient_funds_is_refused() {
    let mut node = node_with(10, EASY, 1_000_000);
    let tx = Transaction {
        sender: ALICE,
        receiver: BOB,
        timestamp: 1500,
        amount: U256::from_u64(1),
        signature: [9u8; 64],
    };
    assert_eq!(node.send_transaction(tx), Err(ChainError::InsufficientFunds));
}

#[test]
fn transfer_overflowing_receiver_is_refused() {
    let mut node = node_with(10, EASY, 1_000_000);
    let max = U256 { limbs: [u64::MAX; 4] };
    node.ledger.set_balance(&BOB, max);
    let tx = Transaction {
        sender: ROOT,
        receiver: BOB,
        timestamp: 1500,
        amount: U256::from_u64(1),
        signature: [9u8; 64],
    };
    assert_eq!(node.send_transaction(tx), Err(ChainError::BalanceOverflow));
    assert_eq!(node.get_amount(&ROOT).limbs, [1_000_000, 0, 0, 0]);
}

#[test]
fn transaction_hash_depends_on_fields() {
    let tx1 = Transaction {
        sender: ALICE,
        receiver: BOB,
        timestamp: 1500,
        amount: U256::from_u64(100),
        signature: [9u8; 64],
    };
    let tx2 = Transaction { amount: U256::from_u64(101), ..tx1 };
    assert_ne!(tx1.hash(), tx2.hash());
    assert_eq!(tx1.hash(), tx1.hash());
}

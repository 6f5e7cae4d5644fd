use sha2::Digest;

use onero::block::Block;
use onero::blockchain::{Blockchain, BOOTSTRAP_ADDRESS, BOOTSTRAP_AMOUNT, BOOTSTRAP_SENDER, MAX_BLOCK_TRANSACTIONS};
use onero::consensus::{Consensus, ProofOfWork};
use onero::error::ChainError;
use onero::hashing::{calculate_hash, digest_meets_difficulty, hash_if_meets};
use onero::transaction::{identity_policy, MemPool, Transaction};

fn tx(sender: &str, receiver: &str, amount: u32, fee: u32) -> Transaction {
    Transaction { sender: sender.to_string(), receiver: receiver.to_string(), amount, fee }
}

#[test]
fn genesis_credits_bootstrap_address_twice() {
    let chain = Blockchain::new(ProofOfWork, 3);
    assert_eq!(chain.chain.len(), 1);
    let genesis = &chain.chain[0];
    assert_eq!(genesis.index, 0);
    assert_eq!(genesis.timestamp, 0);
    assert_eq!(genesis.nonce, 0);
    assert_eq!(genesis.prev_hash, "0");
    assert_eq!(genesis.transactions.len(), 2);
    for t in &genesis.transactions {
        assert_eq!(t.sender, BOOTSTRAP_SENDER);
        assert_eq!(t.receiver, BOOTSTRAP_ADDRESS);
        assert_eq!(t.amount, BOOTSTRAP_AMOUNT);
    }
    assert_eq!(genesis.hash, calculate_hash(&0, &genesis.transactions, &"0".to_string()));
    assert_eq!(chain.get_balance(&BOOTSTRAP_ADDRESS.to_string()), 2_000_000);
    assert_eq!(chain.get_balance(&"nobody".to_string()), 0);
}

#[test]
fn scenario_difficulty_three_single_transfer() {
    let mut chain = Blockchain::new(ProofOfWork, 3);
    let mut pool = MemPool::new();
    pool.add_transaction(tx(BOOTSTRAP_ADDRESS, "B", 10, 0));
    let txs = pool.extract_transactions(MAX_BLOCK_TRANSACTIONS, identity_policy);
    let genesis = chain.chain[0].clone();
    let mined = chain.consensus.mine_block(&txs, &genesis.hash, &chain, 42).unwrap();
    assert!(mined.hash.starts_with("000"));
    assert!(chain.consensus.validate_block(&mined, &genesis, &chain));

    assert_eq!(chain.add_block(&mut pool, identity_policy, 42), Ok(()));
    let block = &chain.chain[1];
    assert!(block.hash.starts_with("000"));
    assert_eq!(block.hash, mined.hash);
    assert_eq!(block.nonce, mined.nonce);
    assert!(chain.consensus.validate_block(block, &genesis, &chain));
    assert_eq!(chain.get_balance(&"B".to_string()), 10);
    assert_eq!(chain.get_balance(&BOOTSTRAP_ADDRESS.to_string()), 2_000_000 - 10);
    assert!(pool.proposed_transactions.is_empty());
}

#[test]
fn mined_block_hash_meets_difficulty_with_first_nonce() {
    let chain = Blockchain::new(ProofOfWork, 2);
    let txs = vec![tx(BOOTSTRAP_ADDRESS, "A", 5, 1)];
    let prev = chain.chain[0].hash.clone();
    let block = chain.consensus.mine_block(&txs, &prev, &chain, 7).unwrap();
    assert!(block.hash.starts_with("00"));
    assert_eq!(block.hash, calculate_hash(&block.nonce, &txs, &prev));
    assert_eq!(block.index, 1);
    assert_eq!(block.timestamp, 7);
    assert_eq!(block.prev_hash, prev);
    assert_eq!(block.transactions, txs);
    for n in 0..block.nonce {
        assert!(!calculate_hash(&n, &txs, &prev).starts_with("00"));
    }
}

#[test]
fn mined_block_validates_against_its_parent() {
    let chain = Blockchain::new(ProofOfWork, 2);
    let genesis = chain.chain[0].clone();
    let txs = vec![tx(BOOTSTRAP_ADDRESS, "A", 5, 1), tx(BOOTSTRAP_SENDER, "C", 3, 0)];
    let block = chain.consensus.mine_block(&txs, &genesis.hash, &chain, 1).unwrap();
    assert!(chain.consensus.validate_block(&block, &genesis, &chain));
}

#[test]
fn validate_block_rejects_each_broken_condition() {
    let chain = Blockchain::new(ProofOfWork, 2);
    let genesis = chain.chain[0].clone();
    let txs = vec![tx(BOOTSTRAP_ADDRESS, "A", 5, 1)];
    let block = chain.consensus.mine_block(&txs, &genesis.hash, &chain, 1).unwrap();

    let mut wrong_hash = block.clone();
    wrong_hash.nonce = wrong_hash.nonce.wrapping_add(1);
    assert!(!chain.consensus.validate_block(&wrong_hash, &genesis, &chain));

    let mut wrong_index = block.clone();
    wrong_index.index = 5;
    assert!(!chain.consensus.validate_block(&wrong_index, &genesis, &chain));

    let mut other_parent = genesis.clone();
    other_parent.hash = "ff".to_string();
    assert!(!chain.consensus.validate_block(&block, &other_parent, &chain));

    let unfunded = vec![tx("A", "B", 1, 0)];
    let bad = chain.consensus.mine_block(&unfunded, &genesis.hash, &chain, 1).unwrap();
    assert!(!chain.consensus.validate_block(&bad, &genesis, &chain));
}

#[test]
fn unmet_difficulty_hash_is_rejected() {
    let chain = Blockchain::new(ProofOfWork, 60);
    let genesis = chain.chain[0].clone();
    let txs: Vec<Transaction> = vec![];
    let hash = calculate_hash(&0, &txs, &genesis.hash);
    let block = Block::new(1, 0, txs, genesis.hash.clone(), hash, 0);
    assert!(!chain.consensus.validate_block(&block, &genesis, &chain));
}

#[test]
fn balance_is_additive_across_appends() {
    let mut chain = Blockchain::new(ProofOfWork, 1);
    let mut pool = MemPool::new();
    pool.add_transaction(tx(BOOTSTRAP_ADDRESS, "A", 100, 2));
    pool.add_transaction(tx(BOOTSTRAP_ADDRESS, "B", 50, 1));
    chain.add_block(&mut pool, identity_policy, 1).unwrap();
    let a_before = chain.get_balance(&"A".to_string());
    let b_before = chain.get_balance(&"B".to_string());
    assert_eq!((a_before, b_before), (100, 50));
    pool.add_transaction(tx("A", "B", 30, 5));
    pool.add_transaction(tx("B", "A", 10, 0));
    chain.add_block(&mut pool, identity_policy, 2).unwrap();
    assert_eq!(chain.get_balance(&"A".to_string()), a_before - 30 - 5 + 10);
    assert_eq!(chain.get_balance(&"B".to_string()), b_before + 30 - 10);
    assert_eq!(chain.chain.len(), 3);
    assert_eq!(chain.chain[2].prev_hash, chain.chain[1].hash);
    assert_eq!(chain.chain[2].index, 2);
}

#[test]
fn add_block_takes_at_most_three_and_drops_them_from_the_head() {
    let mut chain = Blockchain::new(ProofOfWork, 1);
    let mut pool = MemPool::new();
    for k in 0..5u32 {
        pool.add_transaction(tx(BOOTSTRAP_ADDRESS, "A", k + 1, 0));
    }
    chain.add_block(&mut pool, identity_policy, 3).unwrap();
    let amounts: Vec<u32> = chain.chain[1].transactions.iter().map(|t| t.amount).collect();
    assert_eq!(amounts, vec![1, 2, 3]);
    let left: Vec<u32> = pool.proposed_transactions.iter().map(|t| t.amount).collect();
    assert_eq!(left, vec![4, 5]);
}

#[test]
fn self_mined_unfunded_block_is_an_internal_consistency_error() {
    let mut chain = Blockchain::new(ProofOfWork, 1);
    let mut pool = MemPool::new();
    pool.add_transaction(tx("A", "B", 1, 0));
    assert_eq!(chain.add_block(&mut pool, identity_policy, 3), Err(ChainError::InternalConsistencyError));
    assert_eq!(chain.chain.len(), 1);
    assert_eq!(pool.proposed_transactions.len(), 1);
}

#[test]
fn funding_rule_and_bootstrap_exemption() {
    let chain = Blockchain::new(ProofOfWork, 1);
    let pow = ProofOfWork;
    assert!(pow.is_transaction_valid(&tx(BOOTSTRAP_ADDRESS, "A", 2_000_000, 0), &chain));
    assert!(!pow.is_transaction_valid(&tx(BOOTSTRAP_ADDRESS, "A", 2_000_000, 1), &chain));
    assert!(!pow.is_transaction_valid(&tx("A", "B", 1, 0), &chain));
    assert!(pow.is_transaction_valid(&tx("A", "B", 0, 0), &chain));
    assert!(pow.is_transaction_valid(&tx(BOOTSTRAP_SENDER, "A", 7, 0), &chain));
    let txs = vec![tx(BOOTSTRAP_ADDRESS, "A", 1, 0), tx("A", "B", 1, 0), tx(BOOTSTRAP_ADDRESS, "A", 1, 0)];
    assert!(!pow.validate_transactions(&txs, &chain));
    assert!(pow.validate_transactions(&txs[..1], &chain));
    assert!(pow.validate_transactions(&[], &chain));
}

#[test]
fn hash_is_order_sensitive_and_deterministic() {
    let a = tx("x", "y", 1, 0);
    let b = tx("y", "x", 2, 0);
    let prev = "0".to_string();
    let h1 = calculate_hash(&0, &vec![a.clone(), b.clone()], &prev);
    let h2 = calculate_hash(&0, &vec![b, a.clone()], &prev);
    assert_ne!(h1, h2);
    assert_eq!(h1, calculate_hash(&0, &vec![a.clone(), tx("y", "x", 2, 0)], &prev));
    assert_eq!(h1.len(), 64);
    assert!(h1.chars().all(|c| c.is_ascii_digit() || ('a'..='f').contains(&c)));
    assert_ne!(h1, calculate_hash(&1, &vec![a, tx("y", "x", 2, 0)], &prev));
}

#[test]
fn hash_is_sha256_of_the_canonical_bytes() {
    let t = tx("ab", "c", 0x01020304, 5);
    let mut input: Vec<u8> = vec![7, 0, 0, 0, 1, 0, 0, 0, 0, 0, 0, 0];
    input.extend_from_slice(&t.as_raw());
    input.extend_from_slice(b"ff00");
    let expected = hex::encode(sha2::Sha256::digest(&input));
    assert_eq!(calculate_hash(&7, &vec![t], &"ff00".to_string()), expected);
    assert_eq!(
        hex::encode(sha2::Sha256::digest(b"")),
        "e3b0c44298fc1c149afbf4c8996fb92427ae41e4649b934ca495991b7852b855"
    );
}

#[test]
fn hash_if_meets_follows_the_leading_zeros() {
    let txs: Vec<Transaction> = vec![];
    let prev = "0".to_string();
    let full = calculate_hash(&3, &txs, &prev);
    assert_eq!(hash_if_meets(3, &txs, &prev, 0), Some(full.clone()));
    assert_eq!(hash_if_meets(3, &txs, &prev, 65), None);
    let zeros = full.chars().take_while(|c| *c == '0').count() as u32;
    assert_eq!(hash_if_meets(3, &txs, &prev, zeros), Some(full.clone()));
    assert_eq!(hash_if_meets(3, &txs, &prev, zeros + 1), None);
}

#[test]
fn digest_difficulty_reads_half_bytes() {
    let mut digest = vec![0u8; 32];
    digest[0] = 0x00;
    digest[1] = 0x0f;
    digest[2] = 0xff;
    assert!(digest_meets_difficulty(&digest, 0));
    assert!(digest_meets_difficulty(&digest, 3));
    assert!(!digest_meets_difficulty(&digest, 4));
    assert!(!digest_meets_difficulty(&digest, 65));
    let zeros = vec![0u8; 32];
    assert!(digest_meets_difficulty(&zeros, 64));
    assert!(!digest_meets_difficulty(&zeros, 65));
    let mut high = vec![0u8; 32];
    high[0] = 0x10;
    assert!(!digest_meets_difficulty(&high, 1));
    high[0] = 0x01;
    assert!(digest_meets_difficulty(&high, 1));
    assert!(!digest_meets_difficulty(&high, 2));
}

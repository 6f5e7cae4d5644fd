use onero::transaction::{fee_descending_policy, identity_policy, MemPool, Transaction};

fn tx(sender: &str, amount: u32, fee: u32) -> Transaction {
    Transaction { sender: sender.to_string(), receiver: "r".to_string(), amount, fee }
}

fn pool_of(txs: &[Transaction]) -> MemPool {
    let mut pool = MemPool::new();
    for t in txs {
        pool.add_transaction(t.clone());
    }
    pool
}

#[test]
fn identity_extraction_takes_the_first_entries_in_order() {
    let entries = vec![tx("a", 1, 3), tx("b", 2, 9), tx("c", 3, 1), tx("d", 4, 5)];
    let pool = pool_of(&entries);
    assert_eq!(pool.extract_transactions(2, identity_policy), entries[..2].to_vec());
    assert_eq!(pool.extract_transactions(10, identity_policy), entries);
    assert_eq!(pool.extract_transactions(0, identity_policy), vec![]);
    assert_eq!(pool.proposed_transactions, entries);
}

#[test]
fn fee_extraction_sorts_descending_with_ties_in_arrival_order() {
    let entries = vec![tx("a", 1, 3), tx("b", 2, 9), tx("c", 3, 3), tx("d", 4, 5), tx("e", 5, 9)];
    let pool = pool_of(&entries);
    let names: Vec<String> = pool
        .extract_transactions(4, fee_descending_policy)
        .into_iter()
        .map(|t| t.sender)
        .collect();
    assert_eq!(names, vec!["b", "e", "d", "a"]);
    let all: Vec<String> = fee_descending_policy(&entries).into_iter().map(|t| t.sender).collect();
    assert_eq!(all, vec!["b", "e", "d", "a", "c"]);
    assert!(fee_descending_policy(&[]).is_empty());
}

#[test]
fn custom_policy_output_is_truncated() {
    let entries = vec![tx("a", 1, 0), tx("b", 2, 0), tx("c", 3, 0)];
    let pool = pool_of(&entries);
    let reversed = pool.extract_transactions(2, |s: &[Transaction]| s.iter().rev().cloned().collect());
    assert_eq!(reversed, vec![entries[2].clone(), entries[1].clone()]);
}

#[test]
fn removal_drops_from_the_head() {
    let entries = vec![tx("a", 1, 0), tx("b", 2, 0), tx("c", 3, 0)];
    let mut pool = pool_of(&entries);
    pool.remove_transactions(&entries[..2]);
    assert_eq!(pool.proposed_transactions, vec![entries[2].clone()]);
    pool.remove_transactions(&entries);
    assert!(pool.proposed_transactions.is_empty());
    pool.remove_transactions(&[]);
    assert!(pool.proposed_transactions.is_empty());
}

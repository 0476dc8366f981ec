use blockchain::block::{Block, Transaction};
use blockchain::chain::Blockchain;

fn tx(sender: &str, receiver: &str, amount: u64) -> Transaction {
    Transaction { sender: sender.to_string(), receiver: receiver.to_string(), amount }
}

#[test]
fn genesis_invariants() {
    let bc = Blockchain::new();
    assert_eq!(bc.chain.len(), 1);
    assert_eq!(bc.chain[0].prev_hash, "0");
    assert!(bc.chain[0].transactions.is_empty());
    assert_eq!(bc.chain[0].nonce, 0);
    assert_eq!(bc.difficulty, 2);
    assert!(bc.is_chain_valid());
}

#[test]
fn mined_block_meets_difficulty_and_digest() {
    let mut b = Block::new(vec![tx("A", "B", 10)], "0".to_string());
    let found = b.mine_block(2);
    assert!(found);
    assert!(b.hash.starts_with("00"));
    assert_eq!(b.hash.len(), 64);
    assert_eq!(b.hash, b.calculate_hash());
}

#[test]
fn append_one_block_scenario() {
    let mut bc = Blockchain::new();
    bc.add_block(vec![tx("A", "B", 10)]);
    assert_eq!(bc.chain.len(), 2);
    assert_eq!(bc.chain[1].prev_hash, bc.chain[0].hash);
    assert!(bc.chain[1].hash.starts_with("00"));
    assert!(bc.is_chain_valid());
}

#[test]
fn chain_of_appends_validates() {
    let mut bc = Blockchain::new();
    bc.add_block(vec![tx("A", "B", 10)]);
    bc.add_block(vec![tx("B", "C", 3), tx("C", "A", 1)]);
    bc.add_block(vec![]);
    assert_eq!(bc.chain.len(), 4);
    assert!(bc.is_chain_valid());
}

#[test]
fn tampered_hash_detected() {
    let mut bc = Blockchain::new();
    bc.add_block(vec![tx("A", "B", 10)]);
    assert!(bc.is_chain_valid());
    let mut chars: Vec<char> = bc.chain[1].hash.chars().collect();
    chars[63] = if chars[63] == 'a' { 'b' } else { 'a' };
    bc.chain[1].hash = chars.into_iter().collect();
    assert!(!bc.is_chain_valid());
}

#[test]
fn tampered_prev_hash_detected() {
    let mut bc = Blockchain::new();
    bc.add_block(vec![tx("A", "B", 10)]);
    bc.chain[1].prev_hash = "1".to_string();
    assert!(!bc.is_chain_valid());
}

#[test]
fn tampered_amount_detected() {
    let mut bc = Blockchain::new();
    bc.add_block(vec![tx("A", "B", 10)]);
    bc.chain[1].transactions[0].amount = 11;
    assert!(!bc.is_chain_valid());
}

#[test]
fn identical_transactions_give_different_hashes() {
    let mut bc = Blockchain::new();
    bc.add_block(vec![tx("A", "B", 10)]);
    bc.add_block(vec![tx("A", "B", 10)]);
    assert!(bc.is_chain_valid());
    assert_ne!(bc.chain[1].hash, bc.chain[2].hash);
}

#[test]
fn digest_matches_known_vector() {
    // canonical input "5[]p7"
    let b = Block {
        hash: String::new(),
        transactions: vec![],
        time_stamp: 5,
        prev_hash: "p".to_string(),
        nonce: 7,
    };
    assert_eq!(
        b.calculate_hash(),
        "e37de5e0c7e3faa1835389d67daaf1094393dbfc1b3ce1ea8fad4aa790c5da93"
    );
    // canonical input "1[{\"sender\":\"A\",\"receiver\":\"B\",\"amount\":10}]02"
    let b2 = Block {
        hash: String::new(),
        transactions: vec![tx("A", "B", 10)],
        time_stamp: 1,
        prev_hash: "0".to_string(),
        nonce: 2,
    };
    assert_eq!(
        b2.calculate_hash(),
        "dce3ba0564b89f1423613f5ff1ddb1883b0b5601658822c1cf52844bac84c738"
    );
}

use blockchain::block::{Block, Transaction};
use blockchain::chain::Blockchain;

fn tx(sender: &str, receiver: &str, amount: u64) -> Transaction {
    Transaction { sender: sender.to_string(), receiver: receiver.to_string(), amount }
}

#[test]
fn snapshot_text_is_canonical() {
    let bc = Blockchain {
        chain: vec![
            Block {
                hash: "h0".to_string(),
                transactions: vec![],
                time_stamp: 5,
                prev_hash: "0".to_string(),
                nonce: 0,
            },
            Block {
                hash: "h1".to_string(),
                transactions: vec![tx("A", "B", 10), tx("B", "C", 0)],
                time_stamp: 6,
                prev_hash: "h0".to_string(),
                nonce: 42,
            },
        ],
        difficulty: 2,
    };
    let expected = "{\"chain\":[{\"hash\":\"h0\",\"transactions\":[],\"time_stamp\":5,\"prev_hash\":\"0\",\"nonce\":0},{\"hash\":\"h1\",\"transactions\":[{\"sender\":\"A\",\"receiver\":\"B\",\"amount\":10},{\"sender\":\"B\",\"receiver\":\"C\",\"amount\":0}],\"time_stamp\":6,\"prev_hash\":\"h0\",\"nonce\":42}],\"difficulty\":2}";
    assert_eq!(bc.to_snapshot(), expected);
}

#[test]
fn round_trip_restores_equal_chain() {
    let mut bc = Blockchain::new();
    bc.add_block(vec![tx("A", "B", 10)]);
    bc.add_block(vec![tx("B", "C", 3)]);
    let snapshot = bc.to_snapshot();
    let restored = Blockchain::from_snapshot(&snapshot).expect("snapshot must parse");
    assert_eq!(restored, bc);
    assert!(restored.is_chain_valid());
}

#[test]
fn round_trip_with_escapes_and_extremes() {
    let bc = Blockchain {
        chain: vec![Block {
            hash: "a\"b\\c".to_string(),
            transactions: vec![tx("quo\"te", "back\\slash", u64::MAX), tx("", "", 0)],
            time_stamp: u64::MAX,
            prev_hash: "0".to_string(),
            nonce: u64::MAX,
        }],
        difficulty: 0,
    };
    let snapshot = bc.to_snapshot();
    let restored = Blockchain::from_snapshot(&snapshot).expect("snapshot must parse");
    assert_eq!(restored, bc);
}

#[test]
fn corrupt_hash_in_snapshot_restores_invalid_chain() {
    let mut bc = Blockchain::new();
    bc.add_block(vec![tx("A", "B", 10)]);
    assert!(bc.is_chain_valid());
    let snapshot = bc.to_snapshot();
    let tip_hash = bc.chain[1].hash.clone();
    let mut chars: Vec<char> = tip_hash.chars().collect();
    chars[63] = if chars[63] == 'a' { 'b' } else { 'a' };
    let corrupt_hash: String = chars.into_iter().collect();
    let corrupted = snapshot.replacen(&tip_hash, &corrupt_hash, 1);
    assert_ne!(corrupted, snapshot);
    let restored = Blockchain::from_snapshot(&corrupted).expect("corrupt snapshot still parses");
    assert!(!restored.is_chain_valid());
}

#[test]
fn malformed_snapshots_are_rejected() {
    assert!(Blockchain::from_snapshot("").is_none());
    assert!(Blockchain::from_snapshot("{}").is_none());
    assert!(Blockchain::from_snapshot("not a snapshot").is_none());
    // empty chain: structurally a document, but a chain needs its genesis block
    assert!(Blockchain::from_snapshot("{\"chain\":[],\"difficulty\":2}").is_none());
    // trailing garbage
    let good = Blockchain::new().to_snapshot();
    let mut bad = good.clone();
    bad.push(' ');
    assert!(Blockchain::from_snapshot(&good).is_some());
    assert!(Blockchain::from_snapshot(&bad).is_none());
    // a leading zero is not canonical
    let zero_padded = good.replace("\"difficulty\":2", "\"difficulty\":02");
    assert!(Blockchain::from_snapshot(&zero_padded).is_none());
    // a number beyond u64 is rejected
    let too_big = good.replace("\"difficulty\":2", "\"difficulty\":99999999999999999999");
    assert!(Blockchain::from_snapshot(&too_big).is_none());
}

#[test]
fn restore_then_append_keeps_validity() {
    let mut bc = Blockchain::new();
    bc.add_block(vec![tx("A", "B", 1)]);
    let snapshot = bc.to_snapshot();
    let mut restored = Blockchain::from_snapshot(&snapshot).unwrap();
    restored.add_block(vec![tx("B", "A", 2)]);
    assert_eq!(restored.chain.len(), 3);
    assert!(restored.is_chain_valid());
}

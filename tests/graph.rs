use elena_core::crypto::{hash_512, KeyPair};
use elena_core::graph::{GraphError, LocalGraph, Transaction, TransactionType};

fn payment(kp: &KeyPair, to: Vec<u8>, amount: u64, anchor: [u8; 64], parents: Vec<[u8; 64]>) -> Transaction {
    Transaction::new(kp.public_key().to_vec(), to, amount, anchor, parents, 0, kp).ok().unwrap()
}

#[test]
fn test_transaction_id() {
    let kp = KeyPair::generate();
    let from = kp.public_key().to_vec();
    let to = vec![1u8; 32];
    let tx = Transaction::new(from, to, 1000, [0; 64], vec![], 0, &kp).ok().unwrap();
    assert_eq!(tx.amount, 1000);
    assert!(tx.verify_signature(tx.from.as_slice()));
}

#[test]
fn test_graph_collision() {
    let kp = KeyPair::generate();
    let from = kp.public_key().to_vec();
    let mut graph = LocalGraph::new();
    let t1 = Transaction::new(from.clone(), vec![2; 32], 100, [0; 64], vec![], 0, &kp).ok().unwrap();
    let t2 = Transaction::new(from, vec![3; 32], 100, [0; 64], vec![], 0, &kp).ok().unwrap();
    assert!(graph.add_transaction(t1).is_ok());
    assert!(graph.add_transaction(t2).is_err());
}

#[test]
fn test_graph_snapshot_roundtrip() {
    let kp = KeyPair::generate();
    let from = kp.public_key().to_vec();
    let mut graph = LocalGraph::new();
    let t1 = Transaction::new(from.clone(), vec![2; 32], 100, [0; 64], vec![], 0, &kp).ok().unwrap();
    assert!(graph.add_transaction(t1).is_ok());
    let snapshot = graph.to_snapshot();
    let restored = LocalGraph::from_snapshot(snapshot);
    assert_eq!(restored.transactions.len(), 1);
    assert_eq!(restored.recent_tx_ids_for_sender(&from, 5).len(), 1);
}

#[test]
fn id_is_digest_of_canonical_bytes() {
    let kp = KeyPair::generate();
    let tx = payment(&kp, vec![7; 4], 42, [9; 64], vec![[1; 64], [2; 64]]);
    let content = tx.content_to_sign();
    assert_eq!(tx.id, hash_512(&content));
    assert_eq!(tx.compute_id(), tx.id);
    assert_eq!(tx.tx_type, TransactionType::Payment);
    assert!(!tx.is_chaff);
}

#[test]
fn canonical_bytes_layout() {
    let tx = Transaction::unsigned(vec![0xaa, 0xbb], vec![0xcc], 0x0102, [5; 64], vec![[6; 64]], 3, 0x10, 0x20);
    let c = tx.content_to_sign();
    let mut expected = vec![0xaa, 0xbb, 0xcc];
    expected.extend_from_slice(&0x0102u64.to_le_bytes());
    expected.extend_from_slice(&0x10u64.to_le_bytes());
    expected.extend_from_slice(&[5u8; 64]);
    expected.extend_from_slice(&[6u8; 64]);
    expected.extend_from_slice(&0x20u64.to_le_bytes());
    expected.extend_from_slice(&3u64.to_le_bytes());
    assert_eq!(c, expected);
    assert_eq!(c.len(), 3 + 8 + 8 + 64 + 64 + 8 + 8);
}

#[test]
fn tampering_breaks_signature() {
    let kp = KeyPair::generate();
    let tx = payment(&kp, vec![2; 32], 100, [0; 64], vec![]);
    let mut changed = tx.clone();
    changed.amount = 101;
    assert!(tx.verify_signature(&tx.from));
    assert!(!changed.verify_signature(&changed.from));
    let mut changed = tx.clone();
    changed.to = vec![3; 32];
    assert!(!changed.verify_signature(&changed.from));
    let mut changed = tx.clone();
    changed.anchor = [1; 64];
    assert!(!changed.verify_signature(&changed.from));
    let other = KeyPair::generate();
    assert!(!tx.verify_signature(other.public_key()));
    assert!(!tx.verify_signature(&[1, 2, 3]));
}

#[test]
fn collision_needs_same_sender_anchor_and_other_recipient() {
    let kp = KeyPair::generate();
    let kp2 = KeyPair::generate();
    let mut graph = LocalGraph::new();
    let t1 = payment(&kp, vec![2; 32], 100, [0; 64], vec![]);
    let same_to = payment(&kp, vec![2; 32], 50, [0; 64], vec![]);
    let other_anchor = payment(&kp, vec![3; 32], 100, [1; 64], vec![]);
    let other_sender = payment(&kp2, vec![3; 32], 100, [0; 64], vec![]);
    assert!(graph.add_transaction(t1.clone()).is_ok());
    assert!(graph.add_transaction(same_to).is_ok());
    assert!(graph.add_transaction(other_anchor).is_ok());
    assert!(graph.add_transaction(other_sender).is_ok());
    assert_eq!(graph.transactions.len(), 4);
    // the same transaction again is accepted and stored once
    assert!(graph.add_transaction(t1.clone()).is_ok());
    assert_eq!(graph.transactions.len(), 4);
    let t2 = payment(&kp, vec![3; 32], 100, [0; 64], vec![]);
    assert_eq!(graph.add_transaction(t2).err(), Some(GraphError::CollisionDetected));
    assert_eq!(graph.transactions.len(), 4);
    assert_eq!(graph.find_collisions(&[0; 64]).len(), 3);
    assert_eq!(graph.find_collisions(&[7; 64]).len(), 0);
}

#[test]
fn first_conflict_names_the_stored_transaction() {
    let kp = KeyPair::generate();
    let mut graph = LocalGraph::new();
    let t1 = payment(&kp, vec![2; 32], 100, [0; 64], vec![]);
    let t2 = payment(&kp, vec![3; 32], 100, [0; 64], vec![]);
    assert!(graph.add_transaction(t1.clone()).is_ok());
    assert_eq!(graph.first_conflict(&t2), Some(t1.id));
    assert_eq!(graph.first_conflict(&t1), None);
}

#[test]
fn confidence_counts_referrers() {
    let kp = KeyPair::generate();
    let mut graph = LocalGraph::new();
    let t1 = payment(&kp, vec![2; 32], 1, [1; 64], vec![]);
    assert_eq!(graph.get_confidence(&t1.id), 5_000);
    assert!(graph.add_transaction(t1.clone()).is_ok());
    assert_eq!(graph.get_confidence(&t1.id), 5_000);
    for i in 0..7u8 {
        let t = payment(&kp, vec![2; 32], 1, [10 + i; 64], vec![t1.id]);
        assert!(graph.add_transaction(t).is_ok());
        let expected = if i < 4 { 6_000 + 1_000 * i as u64 } else { 10_000 };
        assert_eq!(graph.get_confidence(&t1.id), expected);
    }
}

#[test]
fn recent_transactions_latest_first() {
    let mut graph = LocalGraph::new();
    for (i, ts) in [30u64, 10, 50, 20].iter().enumerate() {
        let t = Transaction::unsigned(vec![i as u8], vec![0xab], i as u64, [i as u8; 64], vec![], 0, 0, *ts);
        assert!(graph.add_transaction(t).is_ok());
    }
    let list = graph.recent_transactions(3);
    let stamps: Vec<u64> = list.iter().map(|x| x.timestamp).collect();
    assert_eq!(stamps, vec![50, 30, 20]);
    assert_eq!(list[0].from, "02");
    assert_eq!(list[0].to, "ab");
    assert_eq!(list[0].id.len(), 128);
    assert_eq!(graph.recent_transactions(10).len(), 4);
    assert_eq!(graph.recent_transactions(0).len(), 0);
}

#[test]
fn sender_ids_are_limited() {
    let kp = KeyPair::generate();
    let mut graph = LocalGraph::new();
    for i in 0..7u8 {
        assert!(graph.add_transaction(payment(&kp, vec![2; 32], 1, [i; 64], vec![])).is_ok());
    }
    assert_eq!(graph.recent_tx_ids_for_sender(kp.public_key(), 5).len(), 5);
    assert_eq!(graph.recent_tx_ids_for_sender(kp.public_key(), 100).len(), 7);
    assert_eq!(graph.recent_tx_ids_for_sender(&[1, 2], 5).len(), 0);
}

#[test]
fn snapshot_keeps_alerts_and_last_duplicate() {
    let a = elena_core::graph::Alert {
        id: [1; 64],
        conflicting_tx1: [2; 64],
        conflicting_tx2: [3; 64],
        anchor: [4; 64],
        discovered_by: vec![5],
        timestamp: 6,
        propagation_count: 0,
    };
    let t = Transaction::unsigned(vec![1], vec![2], 3, [0; 64], vec![], 0, 0, 0);
    let mut t_later = t.clone();
    t_later.signature = vec![9];
    let snap = elena_core::graph::GraphSnapshot { transactions: vec![t, t_later], alerts: vec![a.clone(), a] };
    let g = LocalGraph::from_snapshot(snap);
    assert_eq!(g.transactions.len(), 1);
    assert_eq!(g.transactions[0].signature, vec![9]);
    assert_eq!(g.alerts.len(), 1);
    let back = g.to_snapshot();
    assert_eq!(back.transactions.len(), 1);
    assert_eq!(back.alerts.len(), 1);
}

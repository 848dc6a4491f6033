use elena_core::crypto::{hash_512, KeyPair};
use elena_core::graph::{LocalGraph, Transaction};
use elena_core::network::NetworkEvent;
use elena_core::node::{ElenaNode, NodeAction, NodeConfig, NodeError, ReputationMap, TxOutcome};

fn config(balance: u64) -> NodeConfig {
    NodeConfig {
        initial_balance: balance,
        initial_reputation: 5_000,
        enable_chaff: false,
        chaff_probability: 0,
        data_dir: String::from("unused"),
        admin_listen: None,
        emission_interval_secs: 0,
    }
}

fn node(balance: u64) -> ElenaNode {
    ElenaNode::new(config(balance), None, LocalGraph::new(), 0)
}

#[test]
fn two_nodes_payment_via_inject() {
    let mut node1 = node(1000);
    let mut node2 = node(1000);
    let tx = node1.create_payment(node2.peer_id.clone(), 100).ok().unwrap();
    assert_eq!(tx.amount, 100);
    let actions = node2.handle_event(NetworkEvent::TransactionReceived(tx));
    assert!(node2.graph.transactions.len() >= 1, "expected at least one transaction in the graph of node 2, got {}", node2.graph.transactions.len());
    assert_eq!(actions.len(), 2);
    assert!(matches!(actions[0], NodeAction::SaveGraph));
    assert!(matches!(actions[1], NodeAction::PublishTransaction(_)));
}

#[test]
fn payment_debits_amount_and_fee() {
    let mut n = node(1000);
    let balance_anchor = hash_512(&1000u64.to_le_bytes());
    let tx = n.create_payment(vec![9; 32], 100).ok().unwrap();
    assert_eq!(tx.fee, 100);
    assert_eq!(n.balance, 800);
    assert_eq!(tx.anchor, balance_anchor);
    assert_eq!(tx.from, n.keypair.public_key().to_vec());
    assert!(tx.verify_signature(&tx.from));
    assert_eq!(n.peer_id, hash_512(n.keypair.public_key()).to_vec());
}

#[test]
fn insufficient_balance_is_refused() {
    let mut n = node(199);
    assert!(matches!(n.create_payment(vec![9; 32], 100), Err(NodeError::InsufficientBalance)));
    assert_eq!(n.balance, 199);
    let mut n = node(200);
    assert!(n.create_payment(vec![9; 32], 100).is_ok());
    assert_eq!(n.balance, 0);
}

#[test]
fn double_spend_raises_alert_and_punishes() {
    let kp = KeyPair::generate();
    let mut n = node(0);
    let t1 = Transaction::new(kp.public_key().to_vec(), vec![2; 32], 100, [0; 64], vec![], 0, &kp).ok().unwrap();
    let t2 = Transaction::new(kp.public_key().to_vec(), vec![3; 32], 100, [0; 64], vec![], 0, &kp).ok().unwrap();
    assert!(matches!(n.handle_transaction(t1.clone()), TxOutcome::Accepted));
    assert_eq!(n.reputation.get(kp.public_key()), 5_005);
    match n.handle_transaction(t2.clone()) {
        TxOutcome::Collision(alert) => {
            assert_eq!(alert.conflicting_tx1, t1.id);
            assert_eq!(alert.conflicting_tx2, t2.id);
            assert_eq!(alert.anchor, [0; 64]);
            assert_eq!(alert.id, hash_512(&[0u8; 64]));
            assert_eq!(alert.discovered_by, n.peer_id);
            assert_eq!(alert.propagation_count, 0);
        }
        _ => panic!("expected a collision"),
    }
    assert_eq!(n.reputation.get(kp.public_key()), 100);
    assert_eq!(n.graph.transactions.len(), 1);
}

#[test]
fn bad_signature_is_dropped() {
    let kp = KeyPair::generate();
    let mut n = node(0);
    let mut t = Transaction::new(kp.public_key().to_vec(), vec![2; 32], 100, [0; 64], vec![], 0, &kp).ok().unwrap();
    t.amount = 5;
    assert!(matches!(n.handle_transaction(t.clone()), TxOutcome::InvalidSignature));
    assert_eq!(n.graph.transactions.len(), 0);
    assert_eq!(n.handle_event(NetworkEvent::TransactionReceived(t)).len(), 0);
}

#[test]
fn storage_share_of_fee_is_credited() {
    let mut a = node(10_000);
    let mut b = node(7);
    let tx = a.create_payment(vec![1; 32], 1_000_000).err();
    assert!(tx.is_some());
    let mut rich = node(2_000_000);
    let tx = rich.create_payment(vec![1; 32], 1_000_000).ok().unwrap();
    assert_eq!(tx.fee, 200);
    assert!(matches!(b.handle_transaction(tx), TxOutcome::Accepted));
    assert_eq!(b.balance, 107);
    a.credit_emission(u64::MAX);
    assert_eq!(a.balance, u64::MAX);
}

#[test]
fn alerts_are_republished_and_peers_ignored() {
    let mut n = node(0);
    let alert = elena_core::graph::Alert {
        id: [1; 64],
        conflicting_tx1: [2; 64],
        conflicting_tx2: [3; 64],
        anchor: [4; 64],
        discovered_by: vec![5],
        timestamp: 6,
        propagation_count: 0,
    };
    let actions = n.handle_event(NetworkEvent::AlertReceived(alert));
    assert_eq!(actions.len(), 1);
    assert!(matches!(&actions[0], NodeAction::PublishAlert(a) if a.id == [1; 64] && a.propagation_count == 0));
    assert_eq!(n.handle_event(NetworkEvent::PeerConnected(String::from("p"))).len(), 0);
}

#[test]
fn stake_must_be_at_most_half() {
    let mut n = node(0);
    assert!(n.apply_stake(5_000).is_ok());
    assert_eq!(n.staked_fraction, 5_000);
    assert!(matches!(n.apply_stake(5_001), Err(NodeError::InvalidArgument(_))));
    assert_eq!(n.staked_fraction, 5_000);
    let n = ElenaNode::new(config(0), None, LocalGraph::new(), 9_000);
    assert_eq!(n.staked_fraction, 5_000);
}

#[test]
fn emission_tick_uses_graph_size() {
    let kp = KeyPair::generate();
    let mut n = node(0);
    assert_eq!(n.emission_tick(3_600), 0);
    let t = Transaction::new(kp.public_key().to_vec(), vec![2; 32], 100, [0; 64], vec![], 0, &kp).ok().unwrap();
    assert!(matches!(n.handle_transaction(t), TxOutcome::Accepted));
    // 3000 bytes, reputation 0.5 (factor 1.25), one hour: 1e6 * 0.003 * 1.25
    assert_eq!(n.emission_tick(3_600), 3_750);
}

#[test]
fn reputation_is_clamped() {
    let mut m = ReputationMap::new();
    assert_eq!(m.get(&[1]), 5_000);
    m.set(&[1], 0);
    assert_eq!(m.get(&[1]), 100);
    m.set(&[1], 20_000);
    assert_eq!(m.get(&[1]), 9_900);
    m.credit(&[1], 1_000);
    assert_eq!(m.get(&[1]), 9_900);
    m.credit(&[2], 5);
    assert_eq!(m.get(&[2]), 5_005);
    m.punish(&[2]);
    assert_eq!(m.get(&[2]), 100);
    assert_eq!(m.len(), 2);
    assert_eq!(m.entry(1), (vec![2u8], 100));
}

#[test]
fn payment_parents_are_own_earlier_payments() {
    let mut n = node(10_000);
    let t1 = n.create_payment(vec![9; 32], 100).ok().unwrap();
    assert!(t1.parents.is_empty());
    assert!(matches!(n.handle_transaction(t1.clone()), TxOutcome::Accepted));
    let t2 = n.create_payment(vec![9; 32], 100).ok().unwrap();
    assert_eq!(t2.parents, vec![t1.id]);
    assert!(t2.verify_signature(n.keypair.public_key()));
}

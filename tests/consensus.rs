use elena_core::consensus::{CollisionDetector, EchoConfig, EchoLocator};

#[test]
fn test_collision_detection() {
    let config = EchoConfig {
        confidence_threshold: 9_900,
        alert_priority_multiplier: 10,
        max_propagation_steps: 5,
    };
    let mut d = CollisionDetector::new(config);
    let anchor = [0u8; 64];
    let tx1 = [1u8; 64];
    let tx2 = [2u8; 64];
    assert!(d.check_transaction(tx1, anchor).is_none());
    let c = d.check_transaction(tx2, anchor).unwrap();
    assert_eq!(c.len(), 2);
    assert!(c.contains(&tx1));
    assert!(c.contains(&tx2));
}

#[test]
fn repeated_id_is_listed_once() {
    let config = EchoConfig { confidence_threshold: 9_900, alert_priority_multiplier: 10, max_propagation_steps: 5 };
    let mut d = CollisionDetector::new(config);
    assert!(d.check_transaction([1; 64], [0; 64]).is_none());
    assert_eq!(d.check_transaction([1; 64], [0; 64]).unwrap(), vec![[1u8; 64]]);
    assert!(d.check_transaction([1; 64], [5; 64]).is_none());
    assert!(d.time_since_first_seen(&[0; 64]).is_some());
    assert!(d.time_since_first_seen(&[9; 64]).is_none());
    let first = d.records[0].first_seen_ms;
    assert_eq!(d.elapsed_since_first_seen(&[0; 64], first + 250), Some(250));
    assert_eq!(d.elapsed_since_first_seen(&[0; 64], 0), Some(0));
    assert_eq!(d.elapsed_since_first_seen(&[9; 64], first), None);
}

#[test]
fn confidence_from_references() {
    let mut e = EchoLocator::new();
    let a = [1u8; 64];
    let b = [2u8; 64];
    let c = [3u8; 64];
    assert!(!e.is_final(&a, 1));
    assert!(e.is_final(&a, 0));
    e.add_reference(a, b);
    // b refers to nothing yet
    assert!(e.is_final(&b, 5_000));
    assert!(!e.is_final(&b, 5_001));
    e.add_reference(b, c);
    e.add_reference(a, b);
    e.add_reference(b, a);
    e.add_reference(a, c);
    assert!(e.is_final(&a, 5_000));
    e.add_reference(c, a);
    assert!(e.is_final(&a, 5_000));
    e.add_reference(c, c);
    // c now refers to a and c; the confidence of c is recomputed
    assert!(e.is_final(&c, 7_000));
    assert!(!e.is_final(&c, 7_001));
}

#[test]
fn pressure_counts_reachable_nodes_with_cycles() {
    let mut e = EchoLocator::new();
    let n = |i: u8| [i; 64];
    assert_eq!(e.atmospheric_pressure(&n(1)), 1);
    e.add_reference(n(1), n(2));
    e.add_reference(n(2), n(3));
    e.add_reference(n(3), n(1));
    e.add_reference(n(3), n(4));
    e.add_reference(n(5), n(1));
    assert_eq!(e.atmospheric_pressure(&n(1)), 4);
    assert_eq!(e.atmospheric_pressure(&n(4)), 1);
    assert_eq!(e.atmospheric_pressure(&n(5)), 5);
}

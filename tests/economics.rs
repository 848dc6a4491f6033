use elena_core::economics::{
    compute_fee_micro, effective_reputation_staked, emission_reputation_factor, emission_reward,
    network_params, TxPriority, FEE_BASE_MICRO, MICRO_PER_ELENA,
};

#[test]
fn test_fee_normal() {
    // 1 ELENA, normal priority: 100 + 1_000_000/10000*1 = 200 micro
    let fee = compute_fee_micro(MICRO_PER_ELENA, TxPriority::Normal, 5_000);
    assert_eq!(fee, 200);
}

#[test]
fn test_fee_micro_free_high_rep() {
    // 5000 micro < 10000 with reputation 0.9: free
    let fee = compute_fee_micro(5_000, TxPriority::Normal, 9_000);
    assert_eq!(fee, 0);
}

#[test]
fn test_fee_micro_not_free_low_rep() {
    let fee = compute_fee_micro(5_000, TxPriority::Normal, 5_000);
    assert!(fee >= FEE_BASE_MICRO);
}

#[test]
fn fee_scales_with_priority() {
    assert_eq!(compute_fee_micro(1_000_000, TxPriority::Urgent, 5_000), 300);
    assert_eq!(compute_fee_micro(1_000_000, TxPriority::Critical, 5_000), 1_100);
    assert_eq!(compute_fee_micro(u64::MAX, TxPriority::Critical, 5_000), 100 + (u64::MAX / 10_000) * 10);
}

#[test]
fn free_tier_edges() {
    assert_eq!(compute_fee_micro(9_999, TxPriority::Normal, 8_000), 0);
    assert_eq!(compute_fee_micro(10_000, TxPriority::Normal, 9_900), 101);
    assert_eq!(compute_fee_micro(9_999, TxPriority::Normal, 7_999), 100);
}

#[test]
fn emission_factor_range() {
    assert_eq!(emission_reputation_factor(100), 5_000);
    assert_eq!(emission_reputation_factor(9_900), 20_000);
    assert_eq!(emission_reputation_factor(5_000), 12_500);
    assert_eq!(emission_reputation_factor(0), 5_000);
    assert_eq!(emission_reputation_factor(10_000), 20_000);
}

#[test]
fn staking_raises_reputation() {
    assert_eq!(effective_reputation_staked(8_000, 2_000), 8_800);
    assert_eq!(effective_reputation_staked(8_000, 5_000), 9_900);
    assert_eq!(effective_reputation_staked(4_000, 9_000), 5_000);
    assert_eq!(effective_reputation_staked(4_000, 0), 4_000);
}

#[test]
fn emission_reward_for_a_thousand_transactions() {
    assert_eq!(emission_reward(1_000, 0, 5_000, 0, 3_600), 3_750_000);
    assert_eq!(emission_reward(0, 0, 5_000, 0, 3_600), 0);
    assert_eq!(emission_reward(usize::MAX, usize::MAX, 9_900, 5_000, u64::MAX), u64::MAX);
}

#[test]
fn parameters_expose_constants() {
    let p = network_params();
    assert_eq!(p.fee_base_micro, 100);
    assert_eq!(p.micro_payment_threshold_micro, 10_000);
    assert_eq!(p.free_micro_reputation, 8_000);
    assert_eq!(p.fee_share_storage + p.fee_share_relay + p.fee_share_burn, 10_000);
    assert_eq!(p.max_supply_micro, 21_000_000 * 1_000_000);
}

#[test]
fn priority_multipliers() {
    assert_eq!(TxPriority::Normal.multiplier(), 1);
    assert_eq!(TxPriority::Urgent.multiplier(), 2);
    assert_eq!(TxPriority::Critical.multiplier(), 10);
    assert_eq!(TxPriority::default(), TxPriority::Normal);
}

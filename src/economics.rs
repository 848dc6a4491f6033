//! Protocol economics: fees, emission and reputation rules.
//!
//! Amounts are in micro-ELENA (1 ELENA = 1 000 000 micro). Reputation, stake
//! fractions, fee shares and emission factors are fixed-point numbers in
//! basis points: 10 000 stands for 1.0.

use vstd::prelude::*;

verus! {

/// Basis points in one whole.
pub const BP_ONE: u64 = 10_000;

/// Micro units in one ELENA.
pub const MICRO_PER_ELENA: u64 = 1_000_000;

/// Total supply cap, in micro units.
pub const MAX_SUPPLY_MICRO: u64 = 21_000_000 * MICRO_PER_ELENA;

/// Base fee of every non-free transaction.
pub const FEE_BASE_MICRO: u64 = 100;

/// Proportional fee rate, in units of 1/10 000 of the amount.
pub const FEE_RATE_BP: u64 = 1;

/// Amounts below this may travel for free.
pub const MICRO_PAYMENT_THRESHOLD_MICRO: u64 = 10_000;

/// Sender reputation from which micro-payments are free.
pub const FREE_MICRO_REPUTATION: u64 = 8_000;

/// Share of a fee that goes to the node storing the transaction.
pub const FEE_SHARE_STORAGE: u64 = 5_000;

/// Share of a fee that goes to relays.
pub const FEE_SHARE_RELAY: u64 = 3_000;

/// Share of a fee that is burnt.
pub const FEE_SHARE_BURN: u64 = 2_000;

/// Lowest reputation; also what a double-spender is set to.
pub const REPUTATION_PUNISH_MIN: u64 = 100;

/// Highest reputation.
pub const REPUTATION_MAX: u64 = 9_900;

/// Reputation of a peer on first mention.
pub const REPUTATION_DEFAULT: u64 = 5_000;

/// Balance (in ELENA) above which a double spend burns part of it.
pub const DOUBLE_SPEND_BURN_THRESHOLD_ELENA: u64 = 100;

/// Part of the balance burnt on a double spend.
pub const DOUBLE_SPEND_BURN_PCT: u64 = 100;

/// Reputation credit per day of storage.
pub const REPUTATION_DELTA_STORAGE_PER_DAY: u64 = 10;

/// Reputation credit per relayed transaction.
pub const REPUTATION_DELTA_RELAY: u64 = 5;

/// Reputation credit per alert raised.
pub const REPUTATION_DELTA_ALERT: u64 = 100;

/// Reputation decay per day of inactivity.
pub const REPUTATION_DECAY_INACTIVE_PER_DAY: u64 = 10;

/// Emission per hour and per megabyte stored, in micro units.
pub const EMISSION_BASE_PER_HOUR_MICRO: u64 = MICRO_PER_ELENA;

/// Approximate stored size of one transaction.
pub const APPROX_TX_BYTES: usize = 3000;

/// Approximate stored size of one alert.
pub const APPROX_ALERT_BYTES: usize = 500;

/// Largest stake fraction.
pub const STAKE_MAX: u64 = 5_000;

/// Every economic constant, for the `params` request.
pub struct NetworkParams {
    pub micro_per_elena: u64,
    pub max_supply_micro: u64,
    pub fee_base_micro: u64,
    pub fee_rate_bp: u64,
    pub micro_payment_threshold_micro: u64,
    pub free_micro_reputation: u64,
    pub fee_share_storage: u64,
    pub fee_share_relay: u64,
    pub fee_share_burn: u64,
    pub reputation_punish_min: u64,
    pub double_spend_burn_threshold_elena: u64,
    pub double_spend_burn_pct: u64,
    pub reputation_delta_storage_per_day: u64,
    pub reputation_delta_relay: u64,
    pub reputation_delta_alert: u64,
    pub reputation_decay_inactive_per_day: u64,
    pub emission_base_per_hour_micro: u64,
    pub approx_tx_bytes: usize,
    pub approx_alert_bytes: usize,
}

/// The current network parameters.
pub fn network_params() -> (r: NetworkParams)
    ensures
        r.micro_per_elena == MICRO_PER_ELENA,
        r.max_supply_micro == MAX_SUPPLY_MICRO,
        r.fee_base_micro == FEE_BASE_MICRO,
        r.fee_rate_bp == FEE_RATE_BP,
        r.micro_payment_threshold_micro == MICRO_PAYMENT_THRESHOLD_MICRO,
        r.free_micro_reputation == FREE_MICRO_REPUTATION,
        r.fee_share_storage == FEE_SHARE_STORAGE,
        r.fee_share_relay == FEE_SHARE_RELAY,
        r.fee_share_burn == FEE_SHARE_BURN,
        r.reputation_punish_min == REPUTATION_PUNISH_MIN,
        r.double_spend_burn_threshold_elena == DOUBLE_SPEND_BURN_THRESHOLD_ELENA,
        r.double_spend_burn_pct == DOUBLE_SPEND_BURN_PCT,
        r.reputation_delta_storage_per_day == REPUTATION_DELTA_STORAGE_PER_DAY,
        r.reputation_delta_relay == REPUTATION_DELTA_RELAY,
        r.reputation_delta_alert == REPUTATION_DELTA_ALERT,
        r.reputation_decay_inactive_per_day == REPUTATION_DECAY_INACTIVE_PER_DAY,
        r.emission_base_per_hour_micro == EMISSION_BASE_PER_HOUR_MICRO,
        r.approx_tx_bytes == APPROX_TX_BYTES,
        r.approx_alert_bytes == APPROX_ALERT_BYTES,
{
    NetworkParams {
        micro_per_elena: MICRO_PER_ELENA,
        max_supply_micro: MAX_SUPPLY_MICRO,
        fee_base_micro: FEE_BASE_MICRO,
        fee_rate_bp: FEE_RATE_BP,
        micro_payment_threshold_micro: MICRO_PAYMENT_THRESHOLD_MICRO,
        free_micro_reputation: FREE_MICRO_REPUTATION,
        fee_share_storage: FEE_SHARE_STORAGE,
        fee_share_relay: FEE_SHARE_RELAY,
        fee_share_burn: FEE_SHARE_BURN,
        reputation_punish_min: REPUTATION_PUNISH_MIN,
        double_spend_burn_threshold_elena: DOUBLE_SPEND_BURN_THRESHOLD_ELENA,
        double_spend_burn_pct: DOUBLE_SPEND_BURN_PCT,
        reputation_delta_storage_per_day: REPUTATION_DELTA_STORAGE_PER_DAY,
        reputation_delta_relay: REPUTATION_DELTA_RELAY,
        reputation_delta_alert: REPUTATION_DELTA_ALERT,
        reputation_decay_inactive_per_day: REPUTATION_DECAY_INACTIVE_PER_DAY,
        emission_base_per_hour_micro: EMISSION_BASE_PER_HOUR_MICRO,
        approx_tx_bytes: APPROX_TX_BYTES,
        approx_alert_bytes: APPROX_ALERT_BYTES,
    }
}

/// Priority of a transaction, which scales its proportional fee.
#[derive(Clone, Copy, Debug, PartialEq, Eq, Structural)]
pub enum TxPriority {
    Normal,
    Urgent,
    Critical,
}

impl TxPriority {
    pub open spec fn multiplier_spec(self) -> u64 {
        match self {
            TxPriority::Normal => 1,
            TxPriority::Urgent => 2,
            TxPriority::Critical => 10,
        }
    }

    /// Fee multiplier: 1, 2 or 10.
    pub fn multiplier(self) -> (r: u64)
        ensures
            r == self.multiplier_spec(),
    {
        match self {
            TxPriority::Normal => 1,
            TxPriority::Urgent => 2,
            TxPriority::Critical => 10,
        }
    }
}

impl Default for TxPriority {
    fn default() -> (r: Self)
        ensures
            r == TxPriority::Normal,
    {
        TxPriority::Normal
    }
}

/// A micro-payment from a well-reputed sender travels for free.
pub open spec fn is_free_micropayment(amount: u64, reputation: u64) -> bool {
    amount < MICRO_PAYMENT_THRESHOLD_MICRO && reputation >= FREE_MICRO_REPUTATION
}

/// The fee: zero for a free micro-payment, else the base fee plus
/// amount/10 000 (rounded down) times the priority multiplier, saturating.
pub open spec fn fee_spec(amount: u64, priority: TxPriority, reputation: u64) -> u64 {
    if is_free_micropayment(amount, reputation) {
        0
    } else {
        let variable = (amount * FEE_RATE_BP / 10_000) as int * priority.multiplier_spec();
        let total = FEE_BASE_MICRO + variable;
        if total > u64::MAX {
            u64::MAX
        } else {
            total as u64
        }
    }
}

/// Fee of a transaction, in micro units; `sender_reputation` in basis points.
pub fn compute_fee_micro(amount_micro: u64, priority: TxPriority, sender_reputation: u64) -> (r: u64)
    ensures
        r == fee_spec(amount_micro, priority, sender_reputation),
        r == 0 <==> is_free_micropayment(amount_micro, sender_reputation),
        !is_free_micropayment(amount_micro, sender_reputation) ==> r >= FEE_BASE_MICRO,
{
    if amount_micro < MICRO_PAYMENT_THRESHOLD_MICRO && sender_reputation >= FREE_MICRO_REPUTATION {
        return 0;
    }
    let base = amount_micro * FEE_RATE_BP / 10_000;
    let m = priority.multiplier();
    assert(base * m <= 0x10000000000000000int / 10_000 * 10) by (nonlinear_arith)
        requires
            base <= 0x10000000000000000int / 10_000,
            m <= 10,
    ;
    let variable = base * m;
    FEE_BASE_MICRO + variable
}

/// `x` clamped to `[lo, hi]`.
pub open spec fn clamp(x: u64, lo: u64, hi: u64) -> u64 {
    if x < lo {
        lo
    } else if x > hi {
        hi
    } else {
        x
    }
}

/// Emission factor for a reputation: linear from 0.5 at 0.01 to 2.0 at
/// 0.99, rounded down, in basis points.
pub open spec fn emission_factor_spec(reputation: u64) -> u64 {
    let r = clamp(reputation, REPUTATION_PUNISH_MIN, REPUTATION_MAX);
    (5_000 + 15_000 * (r - REPUTATION_PUNISH_MIN) / 9_800) as u64
}

/// Emission reputation factor, in basis points within `[5 000, 20 000]`.
pub fn emission_reputation_factor(reputation: u64) -> (r: u64)
    ensures
        r == emission_factor_spec(reputation),
        5_000 <= r <= 20_000,
{
    let r = if reputation < REPUTATION_PUNISH_MIN {
        REPUTATION_PUNISH_MIN
    } else if reputation > REPUTATION_MAX {
        REPUTATION_MAX
    } else {
        reputation
    };
    let f = 5_000 + 15_000 * (r - REPUTATION_PUNISH_MIN) / 9_800;
    assert(15_000 * (r - REPUTATION_PUNISH_MIN) / 9_800 <= 15_000) by (nonlinear_arith)
        requires
            r - REPUTATION_PUNISH_MIN <= 9_800,
    ;
    f
}

/// Reputation raised by staking: `base * (1 + stake / 2)`, with the stake
/// clamped to `[0, 0.5]`, rounded down and capped at 0.99.
pub open spec fn effective_reputation_spec(base: u64, stake: u64) -> u64 {
    let s = clamp(stake, 0, STAKE_MAX);
    let raised = base * (20_000 + s) / 20_000;
    if raised > REPUTATION_MAX {
        REPUTATION_MAX
    } else {
        raised as u64
    }
}

/// Effective reputation under staking, in basis points.
pub fn effective_reputation_staked(base_reputation: u64, stake_fraction: u64) -> (r: u64)
    ensures
        r == effective_reputation_spec(base_reputation, stake_fraction),
        r <= REPUTATION_MAX,
{
    let s: u64 = if stake_fraction > STAKE_MAX {
        STAKE_MAX
    } else {
        stake_fraction
    };
    assert((base_reputation as u128) * ((20_000 + s) as u128) <= 0x10000000000000000int * 25_000)
        by (nonlinear_arith)
        requires
            s <= STAKE_MAX,
    ;
    let prod: u128 = (base_reputation as u128) * ((20_000 + s) as u128);
    assert(prod == base_reputation * (20_000 + s)) by (nonlinear_arith)
        requires
            prod == (base_reputation as u128) * ((20_000 + s) as u128),
            s <= STAKE_MAX,
    ;
    let raised: u128 = prod / 20_000;
    if raised > REPUTATION_MAX as u128 {
        REPUTATION_MAX
    } else {
        raised as u64
    }
}

/// Bytes a node is credited for storing its graph.
pub open spec fn stored_bytes(n_transactions: nat, n_alerts: nat) -> nat {
    (n_transactions * APPROX_TX_BYTES + n_alerts * APPROX_ALERT_BYTES) as nat
}

/// Emission for one tick, before truncation to 64 bits:
/// base/hour * (bytes / 10^6) * factor * (interval / 3600 s), rounded down.
pub open spec fn emission_reward_exact(
    n_transactions: nat,
    n_alerts: nat,
    factor: u64,
    interval_secs: u64,
) -> nat {
    (EMISSION_BASE_PER_HOUR_MICRO * stored_bytes(n_transactions, n_alerts) * factor
        * interval_secs / (MICRO_PER_ELENA * BP_ONE * 3600)) as nat
}

/// The emission reward of one tick, saturating at `u64::MAX`.
pub open spec fn emission_reward_spec(
    n_transactions: nat,
    n_alerts: nat,
    reputation: u64,
    stake: u64,
    interval_secs: u64,
) -> u64 {
    let factor = emission_factor_spec(effective_reputation_spec(reputation, stake));
    let exact = emission_reward_exact(n_transactions, n_alerts, factor, interval_secs);
    if exact > u64::MAX {
        u64::MAX
    } else {
        exact as u64
    }
}

/// Reward of one emission tick for a node storing `n_transactions`
/// transactions and `n_alerts` alerts, with own reputation and stake in
/// basis points.
pub fn emission_reward(
    n_transactions: usize,
    n_alerts: usize,
    reputation: u64,
    stake_fraction: u64,
    interval_secs: u64,
) -> (r: u64)
    ensures
        r == emission_reward_spec(
            n_transactions as nat,
            n_alerts as nat,
            reputation,
            stake_fraction,
            interval_secs,
        ),
{
    let rep_eff = effective_reputation_staked(reputation, stake_fraction);
    let factor = emission_reputation_factor(rep_eff);
    let bytes: u128 = (n_transactions as u128) * (APPROX_TX_BYTES as u128) + (n_alerts as u128) * (
    APPROX_ALERT_BYTES as u128);
    assert(bytes * factor <= 0x10000000000000000int * 3500 * 20_000) by (nonlinear_arith)
        requires
            bytes <= 0x10000000000000000int * 3500,
            factor <= 20_000,
    ;
    let weighted: u128 = bytes * (factor as u128);
    let ghost exact = emission_reward_exact(n_transactions as nat, n_alerts as nat, factor, interval_secs);
    assert(EMISSION_BASE_PER_HOUR_MICRO * stored_bytes(n_transactions as nat, n_alerts as nat) * factor
        * interval_secs == MICRO_PER_ELENA * (weighted * interval_secs)) by (nonlinear_arith)
        requires
            bytes == n_transactions * 3000 + n_alerts * 500,
            weighted == bytes * factor,
    ;
    assert(exact == (weighted * interval_secs) / (BP_ONE * 3600)) by (nonlinear_arith)
        requires
            exact == MICRO_PER_ELENA * (weighted * interval_secs) / (MICRO_PER_ELENA * BP_ONE * 3600),
    {
        vstd::arithmetic::div_mod::lemma_div_multiples_vanish_quotient(
            MICRO_PER_ELENA as int,
            (weighted * interval_secs) as int,
            (BP_ONE * 3600) as int,
        );
    }
    match weighted.checked_mul(interval_secs as u128) {
        Some(total) => {
            let q: u128 = total / 36_000_000;
            if q > u64::MAX as u128 {
                u64::MAX
            } else {
                q as u64
            }
        },
        None => {
            assert(exact > u64::MAX) by (nonlinear_arith)
                requires
                    weighted * interval_secs > u128::MAX,
                    exact == (weighted * interval_secs) / 36_000_000,
            ;
            u64::MAX
        },
    }
}

} // verus!

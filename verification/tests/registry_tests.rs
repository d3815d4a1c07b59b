//! Tests of the staking registry: lock/unlock/restake records, LP deposits,
//! the global accumulators and the POL sub-ledger.

use staking_ledger::registry::{Error, StakingRegistry};

const ADMIN: u64 = 1;
const TREASURY: u64 = 4;
const USER: u64 = 10;

fn initialized() -> StakingRegistry {
    let mut r = StakingRegistry::new();
    r.initialize(ADMIN, TREASURY, 0).unwrap();
    r
}

#[test]
fn registry_initialize_and_config() {
    let mut r = StakingRegistry::new();
    assert_eq!(r.get_config(), Err(Error::NotInitialized));
    r.initialize(ADMIN, TREASURY, 7).unwrap();
    let cfg = r.get_config().unwrap();
    assert_eq!(cfg.admin, ADMIN);
    assert_eq!(cfg.version, 2);
    assert_eq!(cfg.treasury_address, TREASURY);
    assert_eq!(cfg.reward_rate, 100);
    assert_eq!(r.initialize(ADMIN, TREASURY, 7), Err(Error::AlreadyInitialized));
    assert_eq!(r.get_global_state().unwrap().last_reward_update, 7);
}

#[test]
fn record_lock_tracks_entry_totals_and_pol() {
    let mut r = initialized();
    assert_eq!(r.record_lock(99, USER, 1000, 30, 77, 100), Err(Error::Unauthorized));
    assert_eq!(r.record_lock(ADMIN, USER, 0, 30, 77, 100), Err(Error::InvalidInput));

    let idx = r.record_lock(ADMIN, USER, 1000, 30, 77, 100).unwrap();
    assert_eq!(idx, 0);
    assert_eq!(r.get_user_lock_count(USER), 1);

    let entry = r.get_user_lock_by_index(USER, 0).unwrap();
    assert_eq!(entry.amount, 1000);
    assert_eq!(entry.duration_days, 30);
    // 1.0x base plus 0.01x per day: 30 days earn 1.3x.
    assert_eq!(entry.reward_multiplier, 13000);
    assert_eq!(entry.pol_contributed, 100);
    assert_eq!(entry.tx_hash, 77);

    let pol = r.get_protocol_owned_liquidity();
    assert_eq!(pol.total_aqua_contributed, 100);
    assert_eq!(pol.total_blub_contributed, 100);

    let gs = r.get_global_state().unwrap();
    assert_eq!(gs.total_locked, 1000);
    assert_eq!(gs.total_users, 1);

    let idx2 = r.record_lock(ADMIN, USER, 500, 365, 78, 200).unwrap();
    assert_eq!(idx2, 1);
    // The duration bonus is capped at 1.0x.
    assert_eq!(r.get_user_lock_by_index(USER, 1).unwrap().reward_multiplier, 20000);
    assert_eq!(r.get_user_pol_contribution(USER), 150);
    assert_eq!(r.get_global_state().unwrap().total_locked, 1500);
}

#[test]
fn record_unlock_reduces_locked_totals() {
    let mut r = initialized();
    r.record_lock(ADMIN, USER, 1000, 30, 77, 100).unwrap();
    let idx = r.record_unlock(ADMIN, USER, 400, 79, 200).unwrap();
    assert_eq!(idx, 0);
    assert_eq!(r.get_unlock_count(USER), 1);
    let entry = r.get_unlock_by_index(USER, 0).unwrap();
    assert_eq!(entry.amount, 400);
    assert_eq!(entry.claimed, false);
    assert_eq!(r.get_global_state().unwrap().total_locked, 600);
}

#[test]
fn record_blub_restake_tracks_previous_amount() {
    let mut r = initialized();
    let first = r.record_blub_restake(ADMIN, USER, 500, 80, 100).unwrap();
    assert_eq!(first, 0);
    assert_eq!(r.get_blub_restake_by_index(USER, 0).unwrap().previous_amount, 0);

    let second = r.record_blub_restake(ADMIN, USER, 800, 81, 200).unwrap();
    assert_eq!(second, 1);
    let entry = r.get_blub_restake_by_index(USER, 1).unwrap();
    assert_eq!(entry.amount, 800);
    assert_eq!(entry.previous_amount, 500);
    assert_eq!(r.get_blub_restake_count(USER), 2);
}

#[test]
fn lp_deposit_and_distribution_accrue_rewards() {
    let mut r = initialized();
    // Equal deposits of 100 mint 100 shares (the geometric mean).
    r.record_lp_deposit(ADMIN, USER, 5, 100, 100, 82, 100).unwrap();
    let pos = r.get_user_lp(USER, 5).unwrap();
    assert_eq!(pos.lp_shares, 100);
    assert_eq!(pos.reward_debt, 0);
    assert_eq!(r.get_user_pools(USER), vec![5u64]);
    assert_eq!(r.get_global_state().unwrap().total_lp_staked, 100);

    // Distribute 50 to the LP class: the accumulator per token rises.
    let idx = r.record_reward_distribution(ADMIN, 0, 5, 60, 50, 10, 83, 200).unwrap();
    assert_eq!(idx, 0);
    assert_eq!(r.get_distribution_count(), 1);
    let dist = r.get_distribution_by_index(0).unwrap();
    assert_eq!(dist.distributed_amount, 50);
    assert_eq!(r.get_global_state().unwrap().reward_per_lp_token, 500_000);

    // The account's pending LP reward is its full share of the 50.
    let totals = r.calculate_user_rewards(USER, 300).unwrap();
    assert_eq!(totals.pending_lp, 50);
}

#[test]
fn credit_user_reward_accumulates_by_class() {
    let mut r = initialized();
    r.credit_user_reward(ADMIN, 0, USER, 5, 30, 84, 100).unwrap();
    r.credit_user_reward(ADMIN, 1, USER, 5, 70, 85, 100).unwrap();
    let totals = r.get_user_rewards(USER).unwrap();
    assert_eq!(totals.lp_total, 30);
    assert_eq!(totals.locked_total, 70);
    assert_eq!(r.credit_user_reward(ADMIN, 1, USER, 5, 0, 86, 100), Err(Error::InvalidInput));
}

#[test]
fn record_pol_rewards_splits_seventy_thirty() {
    let mut r = initialized();
    assert_eq!(r.record_pol_rewards(99, 1000, 50, 100), Err(Error::Unauthorized));
    assert_eq!(r.record_pol_rewards(ADMIN, 0, 50, 100), Err(Error::InvalidInput));

    let event = r.record_pol_rewards(ADMIN, 1000, 50, 86400 * 3).unwrap();
    assert_eq!(event.reward_amount, 1000);
    assert_eq!(event.reward_distribution_to_users, 700);
    assert_eq!(event.treasury_amount, 300);
    assert_eq!(event.total_pol_rewards, 1000);

    let pol = r.get_protocol_owned_liquidity();
    assert_eq!(pol.total_pol_rewards_earned, 1000);
    assert_eq!(pol.ice_voting_power_used, 50);
    assert_eq!(pol.last_reward_claim, 86400 * 3);
    assert_eq!(r.get_daily_pol_snapshot(3).unwrap().total_pol_rewards_earned, 1000);
    assert!(r.get_daily_pol_snapshot(4).is_none());
}

#[test]
fn registry_update_reward_rate_is_bounded() {
    let mut r = initialized();
    assert_eq!(r.update_reward_rate(ADMIN, 1001), Err(Error::InvalidInput));
    assert_eq!(r.update_reward_rate(ADMIN, -1), Err(Error::InvalidInput));
    assert_eq!(r.update_reward_rate(ADMIN, 500), Ok(()));
    assert_eq!(r.get_config().unwrap().reward_rate, 500);
}

#[test]
fn lock_multiplier_formula() {
    assert_eq!(StakingRegistry::calculate_lock_multiplier(0), 10000);
    assert_eq!(StakingRegistry::calculate_lock_multiplier(1), 10100);
    assert_eq!(StakingRegistry::calculate_lock_multiplier(100), 20000);
    assert_eq!(StakingRegistry::calculate_lock_multiplier(500), 20000);
}

#[test]
fn lp_share_formula() {
    assert_eq!(StakingRegistry::calculate_lp_shares(4, 9), 6);
    assert_eq!(StakingRegistry::calculate_lp_shares(100, 100), 100);
    assert_eq!(StakingRegistry::calculate_lp_shares(0, 5), 0);
    assert_eq!(StakingRegistry::calculate_lp_shares(-1, 5), 0);
    assert_eq!(StakingRegistry::calculate_lp_shares(2, 2), 2);
}

#[test]
fn oversized_distribution_fails_reward_calculation() {
    let mut r = initialized();
    r.record_lp_deposit(ADMIN, USER, 5, 100, 100, 82, 100).unwrap();
    assert_eq!(
        r.record_reward_distribution(ADMIN, 0, 5, i128::MAX, i128::MAX, 0, 83, 200),
        Err(Error::RewardCalculationFailed)
    );
    // The accumulator is untouched by the failed call.
    assert_eq!(r.get_global_state().unwrap().reward_per_lp_token, 0);
}

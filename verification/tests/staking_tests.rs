//! Tests of the staking position ledger: initialization, staking, unstaking,
//! restaking, reward calculation and the administrative surface.

use staking_ledger::staking::{StakingContract, StakingError};

const ADMIN: u64 = 1;
const AQUA_TOKEN: u64 = 2;
const BLUB_TOKEN: u64 = 3;
const USER: u64 = 10;

fn initialized_contract(lock_periods: Vec<u64>, reward_multipliers: Vec<i128>) -> StakingContract {
    let mut c = StakingContract::new();
    c.initialize(
        ADMIN,
        AQUA_TOKEN,
        BLUB_TOKEN,
        1_000_000i128,
        1000i128,
        lock_periods,
        reward_multipliers,
        0,
    )
    .unwrap();
    c
}

#[test]
fn test_initialize() {
    let mut c = StakingContract::new();
    let lock_periods = vec![86400u64, 604800u64, 2592000u64];
    let reward_multipliers = vec![10000i128, 12000i128, 15000i128];

    let result = c.initialize(
        ADMIN,
        AQUA_TOKEN,
        BLUB_TOKEN,
        1_000_000i128,
        1000i128,
        lock_periods,
        reward_multipliers,
        0,
    );
    assert_eq!(result, Ok(()));

    let config = c.get_config().unwrap();
    assert_eq!(config.admin, ADMIN);
    assert_eq!(config.aqua_token, AQUA_TOKEN);
    assert_eq!(config.blub_token, BLUB_TOKEN);
    assert_eq!(config.min_stake_amount, 1_000_000i128);
    assert_eq!(config.base_reward_rate, 1000i128);
    assert_eq!(config.emergency_pause, false);
}

#[test]
fn test_initialize_twice_fails() {
    let mut c = initialized_contract(vec![86400u64], vec![10000i128]);
    let result = c.initialize(
        ADMIN,
        AQUA_TOKEN,
        BLUB_TOKEN,
        1_000_000i128,
        1000i128,
        vec![86400u64],
        vec![10000i128],
        0,
    );
    assert_eq!(result, Err(StakingError::AlreadyInitialized));
}

#[test]
fn test_stake_success() {
    let mut c = initialized_contract(vec![86400u64, 604800u64], vec![10000i128, 12000i128]);

    let stake_amount = 10_000_000i128;
    let lock_period = 86400u64;

    let result = c.stake(USER, stake_amount, lock_period, 0);
    assert_eq!(result, Ok(()));

    let stake_info = c.get_stake_balance(USER).unwrap();
    assert_eq!(stake_info.amount, stake_amount);
    assert_eq!(stake_info.lock_period, lock_period);
    assert_eq!(stake_info.reward_multiplier, 10000i128);

    assert_eq!(c.get_total_staked(), stake_amount);
}

#[test]
fn test_stake_insufficient_amount() {
    let mut c = initialized_contract(vec![86400u64], vec![10000i128]);
    let result = c.stake(USER, 500_000i128, 86400u64, 0);
    assert_eq!(result, Err(StakingError::InsufficientAmount));
}

#[test]
fn test_stake_invalid_lock_period() {
    let mut c = initialized_contract(vec![86400u64], vec![10000i128]);
    let result = c.stake(USER, 10_000_000i128, 999999u64, 0);
    assert_eq!(result, Err(StakingError::InvalidLockPeriod));
}

#[test]
fn test_unstake_before_lock_expires() {
    let mut c = initialized_contract(vec![86400u64], vec![10000i128]);
    c.stake(USER, 10_000_000i128, 86400u64, 0).unwrap();

    let result = c.unstake(USER, false, 0);
    assert_eq!(result, Err(StakingError::LockPeriodNotExpired));
}

#[test]
fn test_unstake_after_lock_expires() {
    let mut c = initialized_contract(vec![86400u64], vec![10000i128]);
    let stake_amount = 10_000_000i128;
    c.stake(USER, stake_amount, 86400u64, 0).unwrap();

    // One day plus one second later, the lock has expired.
    let result = c.unstake(USER, false, 86400 + 1);
    assert!(result.is_ok());
    let total_return = result.unwrap();
    assert!(total_return >= stake_amount);

    assert!(c.get_stake_balance(USER).is_none());
    assert_eq!(c.get_total_staked(), 0);
}

#[test]
fn test_restake() {
    let mut c = initialized_contract(vec![86400u64, 604800u64], vec![10000i128, 12000i128]);
    let initial_amount = 10_000_000i128;
    c.stake(USER, initial_amount, 86400u64, 0).unwrap();

    // Twelve hours later, restake with the longer lock period.
    let result = c.restake(USER, 604800u64, 43200);
    assert_eq!(result, Ok(()));

    let stake_info = c.get_stake_balance(USER).unwrap();
    assert!(stake_info.amount >= initial_amount);
    assert_eq!(stake_info.lock_period, 604800u64);
    assert_eq!(stake_info.reward_multiplier, 12000i128);
}

#[test]
fn test_calculate_rewards() {
    let mut c = initialized_contract(vec![86400u64], vec![10000i128]);
    c.stake(USER, 10_000_000i128, 86400u64, 0).unwrap();

    let rewards = c.calculate_rewards(USER, 86400);
    assert!(rewards.is_ok());
    let reward_amount = rewards.unwrap();
    assert!(reward_amount >= 0);
}

#[test]
fn test_emergency_pause() {
    let mut c = initialized_contract(vec![86400u64], vec![10000i128]);

    c.set_emergency_pause(ADMIN, true).unwrap();
    let config = c.get_config().unwrap();
    assert_eq!(config.emergency_pause, true);

    let result = c.stake(USER, 10_000_000i128, 86400u64, 0);
    assert_eq!(result, Err(StakingError::ContractPaused));

    c.set_emergency_pause(ADMIN, false).unwrap();
    let result = c.stake(USER, 10_000_000i128, 86400u64, 0);
    assert_eq!(result, Ok(()));
}

#[test]
fn test_update_reward_rate() {
    let mut c = initialized_contract(vec![86400u64], vec![10000i128]);

    let new_rate = 1500i128;
    c.update_reward_rate(ADMIN, new_rate).unwrap();

    let config = c.get_config().unwrap();
    assert_eq!(config.base_reward_rate, new_rate);
}

#[test]
fn test_unauthorized_admin_functions() {
    let mut c = initialized_contract(vec![86400u64], vec![10000i128]);
    let unauthorized_user = 99u64;

    let result = c.set_emergency_pause(unauthorized_user, true);
    assert_eq!(result, Err(StakingError::Unauthorized));

    let result = c.update_reward_rate(unauthorized_user, 2000i128);
    assert_eq!(result, Err(StakingError::Unauthorized));
}

#[test]
fn single_staker_receives_full_day_distribution() {
    // One account stakes 10,000,000 under a 1-day lock (multiplier 10,000
    // bp); the pool is funded with 700,000 amortized over one day.  After
    // exactly one day and one settlement the full funded amount is pending.
    let mut c = initialized_contract(vec![86400u64], vec![10000i128]);
    c.stake(USER, 10_000_000i128, 86400u64, 0).unwrap();
    c.fund_pool(ADMIN, 700_000i128, 0).unwrap();

    let pending = c.calculate_rewards(USER, 86400).unwrap();
    assert_eq!(pending, 700_000i128);
    assert_eq!(c.pool_distributed, 700_000i128);
    assert!(c.pool_distributed <= c.pool_funded);
}

#[test]
fn early_unstake_pays_fee_on_principal_only() {
    // Early unstake with the fee flag returns principal less the 10% fee
    // plus the accrued reward in full; without the flag the same call fails.
    let mut c = initialized_contract(vec![86400u64, 604800u64], vec![10000i128, 12000i128]);
    c.stake(USER, 10_000_000i128, 604800u64, 0).unwrap();
    c.fund_pool(ADMIN, 700_000i128, 0).unwrap();

    let denied = c.unstake(USER, false, 86400);
    assert_eq!(denied, Err(StakingError::LockPeriodNotExpired));

    let payout = c.unstake(USER, true, 86400).unwrap();
    // principal * (1 - 1000/10000) + full day's reward of 700,000
    assert_eq!(payout, 9_000_000i128 + 700_000i128);
    assert_eq!(c.get_total_staked(), 0);
}

#[test]
fn pending_rewards_are_proportional_to_principal() {
    // Two positions opened at the same time earn in proportion to their
    // principals after one settlement.
    let mut c = initialized_contract(vec![86400u64], vec![10000i128]);
    let other: u64 = 11;
    c.stake(USER, 10_000_000i128, 86400u64, 0).unwrap();
    c.stake(other, 20_000_000i128, 86400u64, 0).unwrap();
    c.fund_pool(ADMIN, 300_000i128, 0).unwrap();

    let pending_1 = c.calculate_rewards(USER, 86400).unwrap();
    let pending_2 = c.calculate_rewards(other, 86400).unwrap();
    assert_eq!(pending_1, 100_000i128);
    assert_eq!(pending_2, 200_000i128);
    assert_eq!(pending_2, 2 * pending_1);
}

#[test]
fn accumulator_and_funding_never_decrease() {
    // The reward-per-share accumulator and the funded total only grow
    // across a mixed sequence of operations.
    let mut c = initialized_contract(vec![86400u64], vec![10000i128]);
    let mut last_rps = c.reward_per_share;
    let mut last_funded = c.pool_funded;

    c.stake(USER, 10_000_000i128, 86400u64, 0).unwrap();
    assert!(c.reward_per_share >= last_rps && c.pool_funded >= last_funded);
    last_rps = c.reward_per_share;
    last_funded = c.pool_funded;

    c.fund_pool(ADMIN, 500_000i128, 10).unwrap();
    assert!(c.reward_per_share >= last_rps && c.pool_funded >= last_funded);
    last_rps = c.reward_per_share;
    last_funded = c.pool_funded;

    c.settle(86400 * 2);
    assert!(c.reward_per_share >= last_rps && c.pool_funded >= last_funded);
    last_rps = c.reward_per_share;
    last_funded = c.pool_funded;

    c.restake(USER, 86400u64, 86400 * 2).unwrap();
    assert!(c.reward_per_share >= last_rps && c.pool_funded >= last_funded);
    last_rps = c.reward_per_share;
    last_funded = c.pool_funded;

    let _ = c.unstake(USER, true, 86400 * 2).unwrap();
    assert!(c.reward_per_share >= last_rps && c.pool_funded >= last_funded);
    assert!(c.pool_distributed <= c.pool_funded);
}

#[test]
fn restake_flushes_rewards_into_principal() {
    // Compounding folds the day's reward into the principal exactly, and
    // leaves nothing pending afterwards.
    let mut c = initialized_contract(vec![86400u64], vec![10000i128]);
    c.stake(USER, 10_000_000i128, 86400u64, 0).unwrap();
    c.fund_pool(ADMIN, 700_000i128, 0).unwrap();

    c.restake(USER, 86400u64, 86400).unwrap();
    let info = c.get_stake_balance(USER).unwrap();
    assert_eq!(info.amount, 10_700_000i128);
    assert_eq!(info.compound_count, 1);
    assert_eq!(c.get_total_staked(), 10_700_000i128);

    // No double accrual: immediately after compounding nothing is pending.
    let pending = c.calculate_rewards(USER, 86400).unwrap();
    assert_eq!(pending, 0);
}

#[test]
fn stake_ceiling_is_enforced() {
    let mut c = initialized_contract(vec![86400u64], vec![10000i128]);
    c.set_max_stake(ADMIN, 15_000_000i128).unwrap();
    c.stake(USER, 10_000_000i128, 86400u64, 0).unwrap();
    let result = c.stake(USER, 10_000_000i128, 86400u64, 0);
    assert_eq!(result, Err(StakingError::MaxStakeExceeded));
    assert_eq!(c.get_total_staked(), 10_000_000i128);
}

#[test]
fn uninitialized_ledger_rejects_operations() {
    let mut c = StakingContract::new();
    assert_eq!(c.stake(USER, 10_000_000i128, 86400u64, 0), Err(StakingError::NotInitialized));
    assert_eq!(c.unstake(USER, false, 0), Err(StakingError::NotInitialized));
    assert_eq!(c.fund_pool(ADMIN, 1, 0), Err(StakingError::NotInitialized));
    assert!(c.get_config().is_none());
}

#[test]
fn unknown_account_has_no_stake() {
    let mut c = initialized_contract(vec![86400u64], vec![10000i128]);
    assert_eq!(c.unstake(USER, false, 0), Err(StakingError::StakeNotFound));
    assert_eq!(c.calculate_rewards(USER, 0), Err(StakingError::StakeNotFound));
    assert!(c.get_stake_balance(USER).is_none());
}

#[test]
fn fund_pool_validates_amount_and_admin() {
    let mut c = initialized_contract(vec![86400u64], vec![10000i128]);
    assert_eq!(c.fund_pool(99, 1000, 0), Err(StakingError::Unauthorized));
    assert_eq!(c.fund_pool(ADMIN, 0, 0), Err(StakingError::InvalidInput));
    assert_eq!(c.fund_pool(ADMIN, -5, 0), Err(StakingError::InvalidInput));
    assert_eq!(c.fund_pool(ADMIN, 1000, 0), Ok(()));
    assert_eq!(c.pool_funded, 1000);
}

#[test]
fn initialize_rejects_bad_parameter_combinations() {
    let mut c = StakingContract::new();
    // Mismatched schedule tables.
    assert_eq!(
        c.initialize(ADMIN, AQUA_TOKEN, BLUB_TOKEN, 1, 100, vec![86400u64], vec![], 0),
        Err(StakingError::InvalidInput)
    );
    // Empty schedule.
    assert_eq!(
        c.initialize(ADMIN, AQUA_TOKEN, BLUB_TOKEN, 1, 100, vec![], vec![], 0),
        Err(StakingError::InvalidInput)
    );
    // Non-positive minimum stake.
    assert_eq!(
        c.initialize(ADMIN, AQUA_TOKEN, BLUB_TOKEN, 0, 100, vec![86400u64], vec![10000i128], 0),
        Err(StakingError::InvalidInput)
    );
    // Negative multiplier.
    assert_eq!(
        c.initialize(ADMIN, AQUA_TOKEN, BLUB_TOKEN, 1, 100, vec![86400u64], vec![-1i128], 0),
        Err(StakingError::InvalidInput)
    );
    assert!(!c.get_config().is_some());
}

#[test]
fn overflowing_stake_fails_with_numeric_overflow() {
    let mut c = initialized_contract(vec![86400u64], vec![10000i128]);
    c.stake(USER, i128::MAX - 5, 86400u64, 0).unwrap();
    let result = c.stake(USER, 1_000_000i128, 86400u64, 0);
    assert_eq!(result, Err(StakingError::NumericOverflow));
    assert_eq!(c.get_total_staked(), i128::MAX - 5);
}

//! Tests of the reward pool registry and the claim engine: funding, the
//! claim guards (cooldown, bounds, solvency), the streak bonus and the
//! performance fee.

use staking_ledger::rewards::{RewardError, RewardPoolType, RewardsContract};

const ADMIN: u64 = 1;
const STAKING: u64 = 2;
const TOKEN: u64 = 3;
const TREASURY: u64 = 4;
const USER: u64 = 10;

fn initialized(min: i128, max: i128, cooldown: u64, fee_bp: i128) -> RewardsContract {
    let mut c = RewardsContract::new();
    c.initialize(ADMIN, STAKING, TOKEN, TREASURY, min, max, cooldown, fee_bp, 0).unwrap();
    c
}

#[test]
fn rewards_initialize_validates_parameters() {
    let mut c = RewardsContract::new();
    assert_eq!(
        c.initialize(ADMIN, STAKING, TOKEN, TREASURY, 10, 1000, 0, 2001, 0),
        Err(RewardError::InvalidConfiguration)
    );
    assert_eq!(
        c.initialize(ADMIN, STAKING, TOKEN, TREASURY, 1000, 10, 0, 100, 0),
        Err(RewardError::InvalidConfiguration)
    );
    assert_eq!(
        c.initialize(ADMIN, STAKING, TOKEN, TREASURY, 0, 10, 0, 100, 0),
        Err(RewardError::InvalidConfiguration)
    );
    assert_eq!(c.initialize(ADMIN, STAKING, TOKEN, TREASURY, 10, 1000, 0, 100, 0), Ok(()));
    assert_eq!(
        c.initialize(ADMIN, STAKING, TOKEN, TREASURY, 10, 1000, 0, 100, 0),
        Err(RewardError::AlreadyInitialized)
    );
    // The Liquidity and Staking pools open at initialization.
    assert!(c.get_reward_pool(RewardPoolType::Liquidity).is_some());
    assert!(c.get_reward_pool(RewardPoolType::Staking).is_some());
    assert!(c.get_reward_pool(RewardPoolType::Governance).is_none());
}

#[test]
fn fund_reward_pool_amortizes_over_seven_days() {
    let mut c = initialized(10, 1_000_000, 0, 0);
    assert_eq!(c.fund_reward_pool(99, RewardPoolType::Staking, 700, 5), Err(RewardError::Unauthorized));
    assert_eq!(
        c.fund_reward_pool(ADMIN, RewardPoolType::Staking, 0, 5),
        Err(RewardError::InvalidConfiguration)
    );
    assert_eq!(
        c.fund_reward_pool(ADMIN, RewardPoolType::Governance, 700, 5),
        Err(RewardError::InvalidRewardPool)
    );
    assert_eq!(c.fund_reward_pool(ADMIN, RewardPoolType::Staking, 700, 5), Ok(()));
    let pool = c.get_reward_pool(RewardPoolType::Staking).unwrap();
    assert_eq!(pool.total_rewards, 700);
    assert_eq!(pool.distribution_rate, 100);
    assert_eq!(pool.last_distribution, 5);
}

#[test]
fn inactive_pool_rejects_funding_and_claims() {
    let mut c = initialized(10, 1_000_000, 0, 0);
    c.toggle_reward_pool(ADMIN, RewardPoolType::Staking, false).unwrap();
    assert_eq!(
        c.fund_reward_pool(ADMIN, RewardPoolType::Staking, 700, 0),
        Err(RewardError::RewardPoolInactive)
    );
    c.toggle_reward_pool(ADMIN, RewardPoolType::Staking, true).unwrap();
    c.fund_reward_pool(ADMIN, RewardPoolType::Staking, 100_000, 0).unwrap();
    c.credit_user_reward(ADMIN, USER, 1000, 0).unwrap();
    c.toggle_reward_pool(ADMIN, RewardPoolType::Staking, false).unwrap();
    assert_eq!(
        c.claim_rewards(USER, RewardPoolType::Staking, 0),
        Err(RewardError::RewardPoolInactive)
    );
}

#[test]
fn claim_applies_performance_fee() {
    let mut c = initialized(10, 1_000_000, 0, 1000);
    c.fund_reward_pool(ADMIN, RewardPoolType::Staking, 100_000, 0).unwrap();
    c.credit_user_reward(ADMIN, USER, 1000, 0).unwrap();
    assert_eq!(c.get_claimable_rewards(USER), 1000);

    // First claim: no streak bonus, a 10% fee on the gross amount.
    let net = c.claim_rewards(USER, RewardPoolType::Staking, 0).unwrap();
    assert_eq!(net, 900);
    assert_eq!(c.fees_accrued, 100);
    let pool = c.get_reward_pool(RewardPoolType::Staking).unwrap();
    assert_eq!(pool.distributed_rewards, 900);
    assert!(pool.distributed_rewards <= pool.total_rewards);

    let info = c.get_user_reward_info(USER).unwrap();
    assert_eq!(info.total_claimed, info.total_earned);
    assert_eq!(info.claim_count, 1);
    assert_eq!(info.streak, 1);
}

#[test]
fn claiming_twice_in_succession_yields_nothing() {
    // No time elapsed and no new funding: the second claim fails and the
    // ledger is unchanged.
    let mut c = initialized(10, 1_000_000, 0, 0);
    c.fund_reward_pool(ADMIN, RewardPoolType::Staking, 100_000, 0).unwrap();
    c.credit_user_reward(ADMIN, USER, 1000, 0).unwrap();

    let first = c.claim_rewards(USER, RewardPoolType::Staking, 0).unwrap();
    assert_eq!(first, 1000);
    assert_eq!(c.get_claimable_rewards(USER), 0);

    let distributed_before = c.get_reward_pool(RewardPoolType::Staking).unwrap().distributed_rewards;
    let second = c.claim_rewards(USER, RewardPoolType::Staking, 0);
    assert_eq!(second, Err(RewardError::NoRewardsToClaim));
    let distributed_after = c.get_reward_pool(RewardPoolType::Staking).unwrap().distributed_rewards;
    assert_eq!(distributed_before, distributed_after);
    assert_eq!(c.get_claimable_rewards(USER), 0);
}

#[test]
fn claim_before_cooldown_always_fails() {
    // A claim before `last_claim + cooldown` fails with the cooldown error,
    // regardless of the pending balance.
    let mut c = initialized(10, 1_000_000, 3600, 0);
    c.fund_reward_pool(ADMIN, RewardPoolType::Staking, 100_000, 0).unwrap();
    c.credit_user_reward(ADMIN, USER, 5000, 0).unwrap();

    assert_eq!(
        c.claim_rewards(USER, RewardPoolType::Staking, 100),
        Err(RewardError::ClaimCooldownActive)
    );
    assert_eq!(c.get_claimable_rewards(USER), 5000);

    let net = c.claim_rewards(USER, RewardPoolType::Staking, 3600).unwrap();
    assert_eq!(net, 5000);

    // The cooldown now runs from the successful claim.
    c.credit_user_reward(ADMIN, USER, 5000, 3600).unwrap();
    assert_eq!(
        c.claim_rewards(USER, RewardPoolType::Staking, 3600 + 3599),
        Err(RewardError::ClaimCooldownActive)
    );
}

#[test]
fn claim_bounds_are_enforced_without_clamping() {
    let mut c = initialized(100, 2000, 0, 0);
    c.fund_reward_pool(ADMIN, RewardPoolType::Staking, 100_000, 0).unwrap();
    c.credit_user_reward(ADMIN, USER, 50, 0).unwrap();
    assert_eq!(
        c.claim_rewards(USER, RewardPoolType::Staking, 0),
        Err(RewardError::BelowMinimumClaim)
    );
    c.credit_user_reward(ADMIN, USER, 5000, 0).unwrap();
    assert_eq!(
        c.claim_rewards(USER, RewardPoolType::Staking, 0),
        Err(RewardError::AboveMaximumClaim)
    );
    assert_eq!(c.get_claimable_rewards(USER), 5050);
}

#[test]
fn insolvent_pool_rejects_claim_without_mutation() {
    // The claimable pending exceeds the pool's funded remainder: the claim
    // fails with the insolvency error and no state changes.
    let mut c = initialized(10, 1_000_000, 0, 0);
    c.fund_reward_pool(ADMIN, RewardPoolType::Staking, 500, 0).unwrap();
    c.credit_user_reward(ADMIN, USER, 1000, 0).unwrap();

    let result = c.claim_rewards(USER, RewardPoolType::Staking, 0);
    assert_eq!(result, Err(RewardError::InsufficientRewards));
    assert_eq!(c.get_claimable_rewards(USER), 1000);
    let pool = c.get_reward_pool(RewardPoolType::Staking).unwrap();
    assert_eq!(pool.distributed_rewards, 0);
    assert_eq!(pool.total_rewards, 500);
}

#[test]
fn consecutive_daily_claims_earn_streak_bonus() {
    let mut c = initialized(10, 1_000_000, 0, 0);
    c.fund_reward_pool(ADMIN, RewardPoolType::Staking, 100_000, 0).unwrap();
    c.credit_user_reward(ADMIN, USER, 10_000, 0).unwrap();

    // First claim: streak resets to 1, no bonus.
    let first = c.claim_rewards(USER, RewardPoolType::Staking, 86400).unwrap();
    assert_eq!(first, 10_000);

    // Exactly one day later: streak 2, a 2% bonus.
    c.credit_user_reward(ADMIN, USER, 10_000, 86400).unwrap();
    let second = c.claim_rewards(USER, RewardPoolType::Staking, 2 * 86400).unwrap();
    assert_eq!(second, 10_200);
    assert_eq!(c.get_user_reward_info(USER).unwrap().streak, 2);

    // A longer gap resets the streak and pays no bonus.
    c.credit_user_reward(ADMIN, USER, 10_000, 2 * 86400).unwrap();
    let third = c.claim_rewards(USER, RewardPoolType::Staking, 5 * 86400).unwrap();
    assert_eq!(third, 10_000);
    assert_eq!(c.get_user_reward_info(USER).unwrap().streak, 1);
}

#[test]
fn estimate_user_rewards_scales_by_share() {
    let mut c = initialized(10, 1_000_000, 0, 0);
    c.fund_reward_pool(ADMIN, RewardPoolType::Staking, 700, 0).unwrap();
    // The daily rate is 100; a half share earns an estimated 50 per day.
    assert_eq!(c.estimate_user_rewards(RewardPoolType::Staking, 50, 100), Ok(50));
    assert_eq!(c.estimate_user_rewards(RewardPoolType::Staking, 0, 100), Ok(0));
    assert_eq!(c.estimate_user_rewards(RewardPoolType::Staking, 50, 0), Ok(0));
}

#[test]
fn process_batch_rewards_checks_solvency() {
    let mut c = initialized(10, 1_000_000, 0, 0);
    c.fund_reward_pool(ADMIN, RewardPoolType::Staking, 1000, 0).unwrap();
    assert_eq!(
        c.process_batch_rewards(ADMIN, RewardPoolType::Staking, 900, 200, 0),
        Err(RewardError::InsufficientRewards)
    );
    let event = c.process_batch_rewards(ADMIN, RewardPoolType::Staking, 300, 100, 86400).unwrap();
    assert_eq!(event.total_amount, 300);
    assert_eq!(event.timestamp, 86400);
    let pool = c.get_reward_pool(RewardPoolType::Staking).unwrap();
    assert_eq!(pool.distributed_rewards, 400);
    assert_eq!(c.get_daily_snapshot(1), Some(400));
}

#[test]
fn rewards_pause_blocks_claims() {
    let mut c = initialized(10, 1_000_000, 0, 0);
    c.fund_reward_pool(ADMIN, RewardPoolType::Staking, 1000, 0).unwrap();
    c.credit_user_reward(ADMIN, USER, 100, 0).unwrap();
    c.set_emergency_pause(ADMIN, true).unwrap();
    assert_eq!(
        c.claim_rewards(USER, RewardPoolType::Staking, 0),
        Err(RewardError::ContractPaused)
    );
    c.set_emergency_pause(ADMIN, false).unwrap();
    assert_eq!(c.claim_rewards(USER, RewardPoolType::Staking, 0), Ok(100));
}

#[test]
fn overflowing_pool_funding_fails() {
    let mut c = initialized(10, 1_000_000, 0, 0);
    c.fund_reward_pool(ADMIN, RewardPoolType::Staking, i128::MAX, 0).unwrap();
    assert_eq!(
        c.fund_reward_pool(ADMIN, RewardPoolType::Staking, 1, 0),
        Err(RewardError::NumericOverflow)
    );
    assert_eq!(
        c.get_reward_pool(RewardPoolType::Staking).unwrap().total_rewards,
        i128::MAX
    );
}

//! Tests of the liquidity pool registry and the governance ledger.

use staking_ledger::arith;
use staking_ledger::governance::{GovernanceContract, GovernanceError};
use staking_ledger::liquidity::{LiquidityContract, LiquidityError};

const ADMIN: u64 = 1;
const STAKING: u64 = 2;
const REWARDS: u64 = 3;
const TREASURY: u64 = 4;
const USER: u64 = 10;
const TOKEN_A: u64 = 21;
const TOKEN_B: u64 = 22;
const POOL: u64 = 5;

fn initialized_liquidity() -> LiquidityContract {
    let mut c = LiquidityContract::new();
    c.initialize(ADMIN, STAKING, REWARDS, TREASURY, 1000, 30, 8, 0).unwrap();
    c
}

#[test]
fn liquidity_initialize_validates() {
    let mut c = LiquidityContract::new();
    assert_eq!(
        c.initialize(ADMIN, STAKING, REWARDS, TREASURY, 1000, 1001, 8, 0),
        Err(LiquidityError::InvalidFeeRate)
    );
    assert_eq!(
        c.initialize(ADMIN, STAKING, REWARDS, TREASURY, 0, 30, 8, 0),
        Err(LiquidityError::InsufficientLiquidity)
    );
    assert_eq!(c.initialize(ADMIN, STAKING, REWARDS, TREASURY, 1000, 30, 8, 0), Ok(()));
    let cfg = c.get_config().unwrap();
    assert_eq!(cfg.default_fee_rate, 30);
    assert_eq!(cfg.max_pools, 8);
}

#[test]
fn register_pool_uses_geometric_mean() {
    let mut c = initialized_liquidity();
    assert_eq!(
        c.register_pool(ADMIN, POOL, TOKEN_A, TOKEN_A, 100, 400, None, 0),
        Err(LiquidityError::InvalidTokens)
    );
    assert_eq!(c.register_pool(ADMIN, POOL, TOKEN_A, TOKEN_B, 100, 400, None, 0), Ok(()));
    let pool = c.get_pool(POOL).unwrap();
    assert_eq!(pool.total_liquidity, 200);
    assert_eq!(pool.reserve_a, 100);
    assert_eq!(pool.reserve_b, 400);
    assert_eq!(pool.fee_rate, 30);
    assert_eq!(c.get_pool_count(), 1);
    assert_eq!(
        c.register_pool(ADMIN, POOL, TOKEN_A, TOKEN_B, 1, 1, None, 0),
        Err(LiquidityError::AlreadyInitialized)
    );
    // An explicit fee rate wins over the default; an oversized one fails.
    assert_eq!(c.register_pool(ADMIN, 6, TOKEN_A, TOKEN_B, 1, 1, Some(50), 0), Ok(()));
    assert_eq!(c.get_pool(6).unwrap().fee_rate, 50);
    assert_eq!(
        c.register_pool(ADMIN, 7, TOKEN_A, TOKEN_B, 1, 1, Some(2000), 0),
        Err(LiquidityError::InvalidFeeRate)
    );
}

#[test]
fn pool_limit_is_enforced() {
    let mut c = LiquidityContract::new();
    c.initialize(ADMIN, STAKING, REWARDS, TREASURY, 1000, 30, 1, 0).unwrap();
    c.register_pool(ADMIN, POOL, TOKEN_A, TOKEN_B, 1, 1, None, 0).unwrap();
    assert_eq!(
        c.register_pool(ADMIN, 6, TOKEN_A, TOKEN_B, 1, 1, None, 0),
        Err(LiquidityError::PoolLimitReached)
    );
}

#[test]
fn liquidity_addition_and_removal_round_trip() {
    let mut c = initialized_liquidity();
    c.register_pool(ADMIN, POOL, TOKEN_A, TOKEN_B, 100, 400, None, 0).unwrap();

    c.record_liquidity_addition(ADMIN, USER, POOL, 50, 200, 100, 10).unwrap();
    let pool = c.get_pool(POOL).unwrap();
    assert_eq!(pool.reserve_a, 150);
    assert_eq!(pool.reserve_b, 600);
    assert_eq!(pool.total_liquidity, 300);
    let pos = c.get_user_lp_position(USER, POOL).unwrap();
    assert_eq!(pos.lp_amount, 100);
    assert_eq!(c.get_user_pools(USER), vec![POOL]);
    assert_eq!(c.get_global_stats().unwrap().total_lp_providers, 1);

    // Burning more than the position holds fails.
    assert_eq!(
        c.record_liquidity_removal(ADMIN, USER, POOL, 150, 10, 10, 20),
        Err(LiquidityError::InsufficientLiquidity)
    );

    // A partial removal shrinks the position.
    c.record_liquidity_removal(ADMIN, USER, POOL, 40, 20, 80, 20).unwrap();
    assert_eq!(c.get_user_lp_position(USER, POOL).unwrap().lp_amount, 60);

    // Removing the rest deletes the position and the pool listing.
    c.record_liquidity_removal(ADMIN, USER, POOL, 60, 30, 120, 30).unwrap();
    assert!(c.get_user_lp_position(USER, POOL).is_none());
    assert_eq!(c.get_user_pools(USER), Vec::<u64>::new());
}

#[test]
fn fees_accumulate_per_pool_and_day() {
    let mut c = initialized_liquidity();
    c.register_pool(ADMIN, POOL, TOKEN_A, TOKEN_B, 100, 100, None, 0).unwrap();
    c.record_fees_collected(ADMIN, POOL, 40, 86400 * 2 + 5).unwrap();
    c.record_fees_collected(ADMIN, POOL, 60, 86400 * 2 + 99).unwrap();
    assert_eq!(c.get_daily_fees(POOL, 2), 100);
    assert_eq!(c.get_daily_fees(POOL, 3), 0);
    assert_eq!(c.get_global_stats().unwrap().total_fees_collected, 100);
    assert_eq!(
        c.record_fees_collected(ADMIN, POOL, 0, 5),
        Err(LiquidityError::InsufficientLiquidity)
    );
}

#[test]
fn fee_share_is_proportional_in_basis_points() {
    let mut c = initialized_liquidity();
    c.register_pool(ADMIN, POOL, TOKEN_A, TOKEN_B, 100, 400, None, 0).unwrap();
    c.record_liquidity_addition(ADMIN, USER, POOL, 50, 200, 100, 10).unwrap();
    // The user holds 100 of 300 total: a third, in basis points.
    assert_eq!(c.calculate_user_fee_share(USER, POOL), Ok(3333));
    assert_eq!(
        c.calculate_user_fee_share(77, POOL),
        Err(LiquidityError::PositionNotFound)
    );
}

#[test]
fn pool_toggle_and_fee_rate_update() {
    let mut c = initialized_liquidity();
    c.register_pool(ADMIN, POOL, TOKEN_A, TOKEN_B, 100, 100, None, 0).unwrap();
    c.toggle_pool(ADMIN, POOL, false).unwrap();
    assert_eq!(c.get_pool(POOL).unwrap().active, false);
    assert_eq!(
        c.record_liquidity_addition(ADMIN, USER, POOL, 1, 1, 1, 0),
        Err(LiquidityError::ContractPaused)
    );
    c.toggle_pool(ADMIN, POOL, true).unwrap();
    c.update_pool_fee_rate(ADMIN, POOL, 99).unwrap();
    assert_eq!(c.get_pool(POOL).unwrap().fee_rate, 99);
    assert_eq!(
        c.update_pool_fee_rate(ADMIN, POOL, 1001),
        Err(LiquidityError::InvalidFeeRate)
    );
}

fn initialized_governance() -> GovernanceContract {
    let mut g = GovernanceContract::new();
    g.initialize(ADMIN, STAKING, TREASURY, 10000, 20000, 0).unwrap();
    g
}

#[test]
fn governance_initialize_validates() {
    let mut g = GovernanceContract::new();
    assert_eq!(
        g.initialize(ADMIN, STAKING, TREASURY, 0, 20000, 0),
        Err(GovernanceError::InvalidInput)
    );
    assert_eq!(g.initialize(ADMIN, STAKING, TREASURY, 10000, 20000, 0), Ok(()));
    assert_eq!(
        g.initialize(ADMIN, STAKING, TREASURY, 10000, 20000, 0),
        Err(GovernanceError::AlreadyInitialized)
    );
    let cfg = g.get_config().unwrap();
    assert_eq!(cfg.base_multiplier, 10000);
    assert_eq!(cfg.max_time_multiplier, 20000);
    assert_eq!(cfg.version, 1);
}

#[test]
fn ice_issuance_tracks_amount_and_voting_power() {
    let mut g = initialized_governance();
    assert_eq!(
        g.record_ice_issuance(99, USER, 1_000_000, 1, 42, 100),
        Err(GovernanceError::Unauthorized)
    );
    assert_eq!(
        g.record_ice_issuance(ADMIN, USER, 0, 1, 42, 100),
        Err(GovernanceError::InvalidInput)
    );

    // Locking 1,000,000 for one year at a 1.0x base and a 0.5x duration
    // multiplier issues 500,000 governance tokens.
    let idx = g.record_ice_issuance(ADMIN, USER, 1_000_000, 1, 42, 100).unwrap();
    assert_eq!(idx, 0);
    let rec = g.get_user_record_by_index(USER, 0).unwrap();
    assert_eq!(rec.ice_amount, 500_000);
    assert_eq!(rec.voting_power, 500_000);
    assert_eq!(g.get_voting_power(USER), 500_000);
    assert_eq!(g.get_total_voting_power(), 500_000);
    let stats = g.get_global_stats().unwrap();
    assert_eq!(stats.total_ice_supply, 500_000);
    assert_eq!(stats.total_participants, 1);

    // A second issuance for the same account aggregates, with no new
    // participant counted.
    g.record_ice_issuance(ADMIN, USER, 1_000_000, 8, 43, 200).unwrap();
    // Eight years would be a 4.0x multiplier; it is capped at 2.0x.
    assert_eq!(g.get_user_record_by_index(USER, 1).unwrap().ice_amount, 2_000_000);
    assert_eq!(g.get_voting_power(USER), 2_500_000);
    assert_eq!(g.get_user_record_count(USER), 2);
    assert_eq!(g.get_global_stats().unwrap().total_participants, 1);
}

#[test]
fn voting_power_updates_flow_into_totals() {
    let mut g = initialized_governance();
    g.record_ice_issuance(ADMIN, USER, 1_000_000, 1, 42, 100).unwrap();
    assert_eq!(g.get_total_voting_power(), 500_000);

    // The staking contract reports a new total for the account; the global
    // total moves by the difference.
    assert_eq!(g.update_voting_power(STAKING, USER, 600_000, 200), Ok(()));
    assert_eq!(g.get_total_voting_power(), 600_000);

    assert_eq!(
        g.update_voting_power(77, USER, 700_000, 300),
        Err(GovernanceError::Unauthorized)
    );
}

#[test]
fn pol_voting_percentage_in_basis_points() {
    let mut g = initialized_governance();
    let event = g.record_pol_voting(ADMIN, 1000, 250, 400).unwrap();
    assert_eq!(event.voting_percentage, 2500);
    assert_eq!(event.timestamp, 400);
    assert_eq!(
        g.record_pol_voting(ADMIN, 0, 250, 400),
        Err(GovernanceError::InvalidInput)
    );
}

#[test]
fn governance_multipliers_update() {
    let mut g = initialized_governance();
    assert_eq!(
        g.update_multipliers(ADMIN, Some(0), None),
        Err(GovernanceError::InvalidInput)
    );
    g.update_multipliers(ADMIN, Some(20000), Some(40000)).unwrap();
    let cfg = g.get_config().unwrap();
    assert_eq!(cfg.base_multiplier, 20000);
    assert_eq!(cfg.max_time_multiplier, 40000);
    // With a doubled base, the same lock issues twice the tokens.
    g.record_ice_issuance(ADMIN, USER, 1_000_000, 1, 42, 100).unwrap();
    assert_eq!(g.get_user_record_by_index(USER, 0).unwrap().ice_amount, 1_000_000);
}

#[test]
fn governance_pause_blocks_issuance() {
    let mut g = initialized_governance();
    g.set_emergency_pause(ADMIN, true).unwrap();
    assert_eq!(
        g.record_ice_issuance(ADMIN, USER, 1_000_000, 1, 42, 100),
        Err(GovernanceError::ContractPaused)
    );
    g.set_emergency_pause(ADMIN, false).unwrap();
    assert!(g.record_ice_issuance(ADMIN, USER, 1_000_000, 1, 42, 100).is_ok());
}

#[test]
fn shared_arithmetic_utilities() {
    assert!(arith::validate_positive_amount(1));
    assert!(!arith::validate_positive_amount(0));
    assert!(!arith::validate_positive_amount(-3));
    assert!(arith::validate_percentage(0));
    assert!(arith::validate_percentage(10000));
    assert!(!arith::validate_percentage(10001));
    assert!(!arith::validate_percentage(-1));
    assert_eq!(arith::basis_points_to_percentage(1250), 12);
    assert_eq!(arith::basis_points_to_percentage(-1250), -12);
    assert_eq!(arith::percentage_to_basis_points(12), 1200);
    assert_eq!(arith::percentage_to_basis_points(-12), -1200);
}

#[test]
fn integer_square_roots() {
    assert_eq!(arith::integer_sqrt(-5), -5);
    assert_eq!(arith::integer_sqrt(0), 0);
    assert_eq!(arith::integer_sqrt(1), 1);
    assert_eq!(arith::integer_sqrt(2), 1);
    assert_eq!(arith::integer_sqrt(3), 1);
    assert_eq!(arith::integer_sqrt(4), 2);
    assert_eq!(arith::integer_sqrt(15), 3);
    assert_eq!(arith::integer_sqrt(16), 4);
    assert_eq!(arith::integer_sqrt(1_000_000_000_000_000_000), 1_000_000_000);
    assert_eq!(arith::integer_sqrt(999_999_999_999_999_999), 999_999_999);
}

#[test]
fn lp_token_calculation_modes() {
    // First liquidity takes the geometric mean; later deposits take the
    // smaller side.
    assert_eq!(LiquidityContract::calculate_lp_tokens(100, 400, 0), 200);
    assert_eq!(LiquidityContract::calculate_lp_tokens(100, 400, 500), 100);
    assert_eq!(LiquidityContract::calculate_lp_tokens(400, 100, 500), 100);
    assert_eq!(LiquidityContract::calculate_lp_tokens(0, 400, 0), 0);
}

#[test]
fn oversized_fee_share_fails_with_numeric_overflow() {
    let mut c = initialized_liquidity();
    c.register_pool(ADMIN, POOL, TOKEN_A, TOKEN_B, 1, 1, None, 0).unwrap();
    c.record_liquidity_addition(ADMIN, USER, POOL, 1, 1, i128::MAX - 1, 0).unwrap();
    assert_eq!(
        c.calculate_user_fee_share(USER, POOL),
        Err(LiquidityError::NumericOverflow)
    );
}

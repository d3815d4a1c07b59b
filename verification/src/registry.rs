//! The staking registry: an append-only record of lock, unlock, restake and
//! liquidity events per account, the global accumulator state for the locked
//! and LP reward classes, and the protocol-owned liquidity (POL) sub-ledger.
//!
//! Every mutating operation is admin-driven: the registry mirrors events that
//! the host environment has already authenticated and executed, and computes
//! the deterministic bookkeeping — totals, accumulator rates and the POL
//! split — that the rest of the protocol reads.

use vstd::prelude::*;
use crate::arith::{
    div_nonneg, sat_add_i128, sat_add_spec, sat_mul_i128, sat_mul_spec, SECONDS_PER_DAY,
};
use crate::table::{
    indexed_find, indexed_store, keyed_find, keyed_get, keyed_has, keyed_put, keyed_store,
    keyed_unique, lemma_keyed_index_is, lemma_keyed_put, paired_find, paired_store,
};
use vstd::arithmetic::div_mod::{lemma_div_is_ordered, lemma_div_multiples_vanish};
use vstd::arithmetic::mul::{lemma_mul_inequality, lemma_mul_nonnegative};

verus! {

/// Share of each lock contributed to protocol-owned liquidity: one tenth.
pub const POL_SHARE_DIVISOR: i128 = 10;

/// Share of reported POL voting yield distributed to users, in percent.
pub const POL_USER_SHARE_PCT: i128 = 70;

/// Errors returned by the staking registry.
#[derive(Clone, Copy, Debug, PartialEq, Eq, Structural)]
pub enum Error {
    NotInitialized,
    AlreadyInitialized,
    Unauthorized,
    InvalidInput,
    NotFound,
    InsufficientBalance,
    RewardCalculationFailed,
    UnlockNotReady,
    AlreadyClaimed,
}

/// Registry configuration.
#[derive(Clone, Copy, Debug, PartialEq, Eq, Structural)]
pub struct Config {
    pub admin: u64,
    pub version: u32,
    pub total_supply: i128,
    pub treasury_address: u64,
    /// Basis points per day.
    pub reward_rate: i128,
}

/// One recorded lock, with its POL contribution.
#[derive(Clone, Copy, Debug, PartialEq, Eq, Structural)]
pub struct LockEntry {
    pub user: u64,
    pub amount: i128,
    pub lock_timestamp: u64,
    pub duration_days: u32,
    pub reward_multiplier: i128,
    pub tx_hash: u64,
    pub pol_contributed: i128,
}

/// Aggregated lock totals.
#[derive(Clone, Copy, Debug, PartialEq, Eq, Structural)]
pub struct LockTotals {
    pub total_locked_aqua: i128,
    pub total_entries: u32,
    pub last_update_ts: u64,
    pub accumulated_rewards: i128,
}

/// One account's share in a liquidity pool, with its reward debt marker.
#[derive(Clone, Copy, Debug, PartialEq, Eq, Structural)]
pub struct LpPosition {
    pub pool_id: u64,
    pub total_asset_a: i128,
    pub total_asset_b: i128,
    pub last_tx: u64,
    pub last_update_ts: u64,
    pub lp_shares: i128,
    pub reward_debt: i128,
}

/// One recorded unlock.
#[derive(Clone, Copy, Debug, PartialEq, Eq, Structural)]
pub struct UnlockEntry {
    pub amount: i128,
    pub tx_hash: u64,
    pub timestamp: u64,
    pub claimed: bool,
}

/// One recorded compounding restake.
#[derive(Clone, Copy, Debug, PartialEq, Eq, Structural)]
pub struct BlubRestakeEntry {
    pub amount: i128,
    pub tx_hash: u64,
    pub timestamp: u64,
    pub previous_amount: i128,
}

/// Per-account reward totals across both reward classes.
#[derive(Clone, Copy, Debug, PartialEq, Eq, Structural)]
pub struct UserRewardTotals {
    pub lp_total: i128,
    pub locked_total: i128,
    pub last_update_ts: u64,
    pub pending_lp: i128,
    pub pending_locked: i128,
}

/// One recorded reward distribution.
#[derive(Clone, Copy, Debug, PartialEq, Eq, Structural)]
pub struct RewardDistribution {
    /// 0 = LP, 1 = LOCKED.
    pub kind: u32,
    pub pool_id: u64,
    pub total_reward: i128,
    pub distributed_amount: i128,
    pub treasury_amount: i128,
    pub tx_hash: u64,
    pub timestamp: u64,
    pub user_count: u32,
}

/// The global accumulator state for both reward classes.
#[derive(Clone, Copy, Debug, PartialEq, Eq, Structural)]
pub struct GlobalState {
    pub total_locked: i128,
    pub total_lp_staked: i128,
    pub total_users: u32,
    pub last_reward_update: u64,
    /// Accumulated rewards per locked token, scaled by `PRECISION`.
    pub reward_per_locked_token: i128,
    /// Accumulated rewards per LP token, scaled by `PRECISION`.
    pub reward_per_lp_token: i128,
}

/// The protocol-owned liquidity sub-ledger: contributions only grow through
/// lock events; yield is only added by an explicit external report.
#[derive(Clone, Copy, Debug, PartialEq, Eq, Structural)]
pub struct ProtocolOwnedLiquidity {
    pub total_aqua_contributed: i128,
    pub total_blub_contributed: i128,
    pub aqua_blub_lp_position: i128,
    pub total_pol_rewards_earned: i128,
    pub last_reward_claim: u64,
    pub ice_voting_power_used: i128,
}

impl ProtocolOwnedLiquidity {
    /// The zeroed sub-ledger.
    pub open spec fn zero() -> ProtocolOwnedLiquidity {
        ProtocolOwnedLiquidity {
            total_aqua_contributed: 0,
            total_blub_contributed: 0,
            aqua_blub_lp_position: 0,
            total_pol_rewards_earned: 0,
            last_reward_claim: 0,
            ice_voting_power_used: 0,
        }
    }
}

impl Default for ProtocolOwnedLiquidity {
    fn default() -> (r: Self)
        ensures
            r == ProtocolOwnedLiquidity::zero(),
    {
        ProtocolOwnedLiquidity {
            total_aqua_contributed: 0,
            total_blub_contributed: 0,
            aqua_blub_lp_position: 0,
            total_pol_rewards_earned: 0,
            last_reward_claim: 0,
            ice_voting_power_used: 0,
        }
    }
}

/// A report of claimed POL voting yield and its deterministic split.
#[derive(Clone, Copy, Debug, PartialEq, Eq, Structural)]
pub struct PolRewardsClaimedEvent {
    pub reward_amount: i128,
    pub ice_voting_power: i128,
    pub total_pol_rewards: i128,
    pub reward_distribution_to_users: i128,
    pub treasury_amount: i128,
    pub timestamp: u64,
}

/// A batch reward calculation acknowledgement, emitted for observability.
#[derive(Clone, Copy, Debug, PartialEq, Eq, Structural)]
pub struct BatchRewardCalculatedEvent {
    pub kind: u32,
    pub total_amount: i128,
    pub user_count: u32,
    pub timestamp: u64,
}

/// A lock's POL contribution record, emitted for observability.
#[derive(Clone, Copy, Debug, PartialEq, Eq, Structural)]
pub struct PolContributionEvent {
    pub user: u64,
    pub aqua_locked: i128,
    pub pol_aqua_amount: i128,
    pub pol_blub_amount: i128,
    pub total_pol_aqua: i128,
    pub total_pol_blub: i128,
    pub timestamp: u64,
    pub lock_index: u32,
}

/// LP shares for a deposit of the two amounts.
pub open spec fn lp_shares_spec(amount_a: i128, amount_b: i128) -> int {
    if amount_a <= 0 || amount_b <= 0 {
        0
    } else {
        crate::arith::sqrt_of(sat_mul_spec(amount_a as int, amount_b as int))
    }
}

/// The count stored for `user`, or zero.
pub open spec fn count_of(s: Seq<(u64, u32)>, user: u64) -> u32 {
    if keyed_has(s, user) {
        keyed_get(s, user)
    } else {
        0u32
    }
}

/// A saturating increment.
pub open spec fn bumped(c: u32) -> u32 {
    if c == u32::MAX {
        u32::MAX
    } else {
        (c + 1) as u32
    }
}

/// The per-user lock totals stored for `user`, or the zeroed record.
pub open spec fn lock_totals_of(s: Seq<(u64, LockTotals)>, user: u64) -> LockTotals {
    if keyed_has(s, user) {
        keyed_get(s, user)
    } else {
        LockTotals {
            total_locked_aqua: 0,
            total_entries: 0,
            last_update_ts: 0,
            accumulated_rewards: 0,
        }
    }
}

/// The reward totals stored for `user`, or the zeroed record.
pub open spec fn reward_totals_of(s: Seq<(u64, UserRewardTotals)>, user: u64) -> UserRewardTotals {
    if keyed_has(s, user) {
        keyed_get(s, user)
    } else {
        UserRewardTotals {
            lp_total: 0,
            locked_total: 0,
            last_update_ts: 0,
            pending_lp: 0,
            pending_locked: 0,
        }
    }
}

/// The staking registry's whole state.
#[verifier::ext_equal]
pub struct StakingRegistry {
    pub config: Option<Config>,
    pub lock_counts: Vec<(u64, u32)>,
    pub locks: Vec<((u64, u32), LockEntry)>,
    pub unlock_counts: Vec<(u64, u32)>,
    pub unlocks: Vec<((u64, u32), UnlockEntry)>,
    pub restake_counts: Vec<(u64, u32)>,
    pub restakes: Vec<((u64, u32), BlubRestakeEntry)>,
    pub lock_totals: LockTotals,
    pub user_lock_totals: Vec<(u64, LockTotals)>,
    pub user_pools: Vec<(u64, Vec<u64>)>,
    pub lp_positions: Vec<((u64, u64), LpPosition)>,
    pub user_rewards: Vec<(u64, UserRewardTotals)>,
    pub dist_count: u32,
    pub distributions: Vec<(u64, RewardDistribution)>,
    pub global_state: GlobalState,
    pub pol: ProtocolOwnedLiquidity,
    pub pol_snapshots: Vec<(u64, ProtocolOwnedLiquidity)>,
}

impl StakingRegistry {
    /// The registry invariant: unique keys in every table, positive recorded
    /// lock amounts with non-negative multipliers, non-negative accumulator
    /// rates and LP shares, and a validated reward rate.
    pub open spec fn wf(&self) -> bool {
        &&& keyed_unique(self.lock_counts@)
        &&& keyed_unique(self.locks@)
        &&& keyed_unique(self.unlock_counts@)
        &&& keyed_unique(self.unlocks@)
        &&& keyed_unique(self.restake_counts@)
        &&& keyed_unique(self.restakes@)
        &&& keyed_unique(self.user_lock_totals@)
        &&& keyed_unique(self.user_pools@)
        &&& keyed_unique(self.lp_positions@)
        &&& keyed_unique(self.user_rewards@)
        &&& keyed_unique(self.distributions@)
        &&& keyed_unique(self.pol_snapshots@)
        &&& (forall|i: int|
            0 <= i < self.locks@.len() ==> {
                let e = (#[trigger] self.locks@[i]).1;
                0 < e.amount && 0 <= e.reward_multiplier && 0 <= e.pol_contributed
            })
        &&& (forall|i: int|
            0 <= i < self.lp_positions@.len() ==> {
                let p = (#[trigger] self.lp_positions@[i]).1;
                0 <= p.lp_shares && 0 <= p.reward_debt
            })
        &&& (forall|i: int|
            0 <= i < self.user_lock_totals@.len() ==> {
                let t = (#[trigger] self.user_lock_totals@[i]).1;
                0 <= t.total_locked_aqua && 0 <= t.accumulated_rewards
            })
        &&& 0 <= self.global_state.reward_per_locked_token
        &&& 0 <= self.global_state.reward_per_lp_token
        &&& (match self.config {
            Some(c) => 0 <= c.reward_rate <= 1000,
            None => true,
        })
    }

    pub open spec fn is_init(&self) -> bool {
        self.config is Some
    }

    pub open spec fn cfg(&self) -> Config {
        self.config->0
    }

    /// A fresh, uninitialized registry.
    pub fn new() -> (r: StakingRegistry)
        ensures
            r.wf(),
            !r.is_init(),
            r.lock_counts@.len() == 0,
            r.locks@.len() == 0,
            r.unlock_counts@.len() == 0,
            r.unlocks@.len() == 0,
            r.restake_counts@.len() == 0,
            r.restakes@.len() == 0,
            r.user_lock_totals@.len() == 0,
            r.user_pools@.len() == 0,
            r.lp_positions@.len() == 0,
            r.user_rewards@.len() == 0,
            r.dist_count == 0,
            r.distributions@.len() == 0,
            r.pol_snapshots@.len() == 0,
            r.lock_totals == (LockTotals {
                total_locked_aqua: 0,
                total_entries: 0,
                last_update_ts: 0,
                accumulated_rewards: 0,
            }),
            r.global_state == (GlobalState {
                total_locked: 0,
                total_lp_staked: 0,
                total_users: 0,
                last_reward_update: 0,
                reward_per_locked_token: 0,
                reward_per_lp_token: 0,
            }),
            r.pol == ProtocolOwnedLiquidity::zero(),
    {
        StakingRegistry {
            config: None,
            lock_counts: Vec::new(),
            locks: Vec::new(),
            unlock_counts: Vec::new(),
            unlocks: Vec::new(),
            restake_counts: Vec::new(),
            restakes: Vec::new(),
            lock_totals: LockTotals {
                total_locked_aqua: 0,
                total_entries: 0,
                last_update_ts: 0,
                accumulated_rewards: 0,
            },
            user_lock_totals: Vec::new(),
            user_pools: Vec::new(),
            lp_positions: Vec::new(),
            user_rewards: Vec::new(),
            dist_count: 0,
            distributions: Vec::new(),
            global_state: GlobalState {
                total_locked: 0,
                total_lp_staked: 0,
                total_users: 0,
                last_reward_update: 0,
                reward_per_locked_token: 0,
                reward_per_lp_token: 0,
            },
            pol: ProtocolOwnedLiquidity {
                total_aqua_contributed: 0,
                total_blub_contributed: 0,
                aqua_blub_lp_position: 0,
                total_pol_rewards_earned: 0,
                last_reward_claim: 0,
                ice_voting_power_used: 0,
            },
            pol_snapshots: Vec::new(),
        }
    }

    /// Initialize the registry once.
    pub fn initialize(&mut self, admin: u64, treasury_address: u64, now: u64) -> (r: Result<
        (),
        Error,
    >)
        requires
            old(self).wf(),
        ensures
            final(self).wf(),
            r is Err ==> *final(self) == *old(self),
            old(self).is_init() ==> r == Err::<(), Error>(Error::AlreadyInitialized),
            r is Ok <==> !old(self).is_init(),
            r is Ok ==> *final(self) == (StakingRegistry {
                config: Some(
                    Config {
                        admin,
                        version: 2,
                        total_supply: 0,
                        treasury_address,
                        reward_rate: 100,
                    },
                ),
                global_state: GlobalState {
                    total_locked: 0,
                    total_lp_staked: 0,
                    total_users: 0,
                    last_reward_update: now,
                    reward_per_locked_token: 0,
                    reward_per_lp_token: 0,
                },
                pol: ProtocolOwnedLiquidity::zero(),
                ..*old(self)
            }),
    {
        if self.config.is_some() {
            return Err(Error::AlreadyInitialized);
        }
        self.config = Some(
            Config { admin, version: 2, total_supply: 0, treasury_address, reward_rate: 100 },
        );
        self.global_state = GlobalState {
            total_locked: 0,
            total_lp_staked: 0,
            total_users: 0,
            last_reward_update: now,
            reward_per_locked_token: 0,
            reward_per_lp_token: 0,
        };
        self.pol = ProtocolOwnedLiquidity {
            total_aqua_contributed: 0,
            total_blub_contributed: 0,
            aqua_blub_lp_position: 0,
            total_pol_rewards_earned: 0,
            last_reward_claim: 0,
            ice_voting_power_used: 0,
        };
        proof {
            assert(*final(self) =~= (StakingRegistry {
                config: Some(
                    Config {
                        admin,
                        version: 2,
                        total_supply: 0,
                        treasury_address,
                        reward_rate: 100,
                    },
                ),
                global_state: GlobalState {
                    total_locked: 0,
                    total_lp_staked: 0,
                    total_users: 0,
                    last_reward_update: now,
                    reward_per_locked_token: 0,
                    reward_per_lp_token: 0,
                },
                pol: ProtocolOwnedLiquidity::zero(),
                ..*old(self)
            }));
        }
        Ok(())
    }

    /// The stored configuration.
    pub fn get_config(&self) -> (r: Result<Config, Error>)
        ensures
            self.is_init() ==> r == Ok::<Config, Error>(self.cfg()),
            !self.is_init() ==> r == Err::<Config, Error>(Error::NotInitialized),
    {
        match self.config {
            Some(c) => Ok(c),
            None => Err(Error::NotInitialized),
        }
    }

    /// Update the daily reward rate (basis points, at most 10% daily).
    pub fn update_reward_rate(&mut self, admin: u64, new_rate: i128) -> (r: Result<(), Error>)
        requires
            old(self).wf(),
        ensures
            final(self).wf(),
            r is Err ==> *final(self) == *old(self),
            !old(self).is_init() ==> r == Err::<(), Error>(Error::NotInitialized),
            old(self).is_init() && admin != old(self).cfg().admin ==> r == Err::<(), Error>(
                Error::Unauthorized,
            ),
            old(self).is_init() && admin == old(self).cfg().admin && !(0 <= new_rate <= 1000)
                ==> r == Err::<(), Error>(Error::InvalidInput),
            r is Ok <==> old(self).is_init() && admin == old(self).cfg().admin && 0 <= new_rate
                <= 1000,
            r is Ok ==> *final(self) == (StakingRegistry {
                config: Some(Config { reward_rate: new_rate, ..old(self).cfg() }),
                ..*old(self)
            }),
    {
        let cfg = match self.config {
            Some(c) => c,
            None => { return Err(Error::NotInitialized) },
        };
        if admin != cfg.admin {
            return Err(Error::Unauthorized);
        }
        if new_rate > 1000 || new_rate < 0 {
            return Err(Error::InvalidInput);
        }
        self.config = Some(Config { reward_rate: new_rate, ..cfg });
        proof {
            assert(*final(self) =~= (StakingRegistry {
                config: Some(Config { reward_rate: new_rate, ..old(self).cfg() }),
                ..*old(self)
            }));
        }
        Ok(())
    }

    /// Multiplier a lock of `duration_days` earns, in basis points: 1.0x
    /// base plus 0.01x per day, capped at a 1.0x bonus.
    pub fn calculate_lock_multiplier(duration_days: u32) -> (r: i128)
        ensures
            r == 10000 + (if duration_days * 100 > 10000 {
                10000int
            } else {
                (duration_days * 100) as int
            }),
            10000 <= r <= 20000,
    {
        let bonus_raw: i128 = (duration_days as i128) * 100;
        let bonus: i128 = if bonus_raw > 10000 {
            10000
        } else {
            bonus_raw
        };
        10000 + bonus
    }

    /// LP shares for a deposit: the integer square root of the product of
    /// the two amounts (geometric mean), zero when either side is empty.
    pub fn calculate_lp_shares(amount_a: i128, amount_b: i128) -> (r: i128)
        ensures
            r == lp_shares_spec(amount_a, amount_b),
            0 <= r,
    {
        if amount_a <= 0 || amount_b <= 0 {
            return 0;
        }
        let prod = sat_mul_i128(amount_a, amount_b);
        if prod == i128::MAX {
            proof {
                assert(crate::arith::is_integer_sqrt(
                    i128::MAX as int,
                    13043817825332782212int,
                )) by (nonlinear_arith);
                crate::arith::lemma_sqrt_unique(prod as int, 13043817825332782212int);
            }
            13043817825332782212i128
        } else {
            let r = crate::arith::integer_sqrt(prod);
            proof {
                crate::arith::lemma_sat_mul_nonneg(amount_a as int, amount_b as int);
                crate::arith::lemma_sqrt_unique(prod as int, r as int);
            }
            r
        }
    }
}


/// Multiplier a lock of `duration_days` earns.
pub open spec fn lock_multiplier_spec(duration_days: u32) -> int {
    10000 + (if duration_days * 100 > 10000 {
        10000int
    } else {
        (duration_days * 100) as int
    })
}

/// Saturating sum of `amount * reward_multiplier` over the first `n` lock
/// entries of `user`.
pub open spec fn lock_weight_sum(
    locks: Seq<((u64, u32), LockEntry)>,
    user: u64,
    n: int,
) -> int
    decreases n,
{
    if n <= 0 {
        0
    } else {
        let prev = lock_weight_sum(locks, user, n - 1);
        if keyed_has(locks, (user, (n - 1) as u32)) {
            let e = keyed_get(locks, (user, (n - 1) as u32));
            sat_add_spec(prev, sat_mul_spec(e.amount as int, e.reward_multiplier as int))
        } else {
            prev
        }
    }
}

/// Saturating sum of `amount` over the first `n` lock entries of `user`.
pub open spec fn lock_amount_sum(locks: Seq<((u64, u32), LockEntry)>, user: u64, n: int) -> int
    decreases n,
{
    if n <= 0 {
        0
    } else {
        let prev = lock_amount_sum(locks, user, n - 1);
        if keyed_has(locks, (user, (n - 1) as u32)) {
            let e = keyed_get(locks, (user, (n - 1) as u32));
            sat_add_spec(prev, e.amount as int)
        } else {
            prev
        }
    }
}

/// Saturating sum of `pol_contributed` over the first `n` lock entries.
pub open spec fn lock_pol_sum(locks: Seq<((u64, u32), LockEntry)>, user: u64, n: int) -> int
    decreases n,
{
    if n <= 0 {
        0
    } else {
        let prev = lock_pol_sum(locks, user, n - 1);
        if keyed_has(locks, (user, (n - 1) as u32)) {
            let e = keyed_get(locks, (user, (n - 1) as u32));
            sat_add_spec(prev, e.pol_contributed as int)
        } else {
            prev
        }
    }
}

/// A lock table whose entries all satisfy the registry invariant yields
/// non-negative sums.
proof fn lemma_lock_sums_nonneg(locks: Seq<((u64, u32), LockEntry)>, user: u64, n: int)
    requires
        keyed_unique(locks),
        forall|i: int|
            0 <= i < locks.len() ==> {
                let e = (#[trigger] locks[i]).1;
                0 < e.amount && 0 <= e.reward_multiplier && 0 <= e.pol_contributed
            },
    ensures
        0 <= lock_weight_sum(locks, user, n),
        0 <= lock_amount_sum(locks, user, n),
        0 <= lock_pol_sum(locks, user, n),
    decreases n,
{
    if n > 0 {
        lemma_lock_sums_nonneg(locks, user, n - 1);
        if keyed_has(locks, (user, (n - 1) as u32)) {
            let e = keyed_get(locks, (user, (n - 1) as u32));
            let i = crate::table::keyed_index(locks, (user, (n - 1) as u32));
            assert(locks[i].1 == e);
            crate::arith::lemma_sat_mul_nonneg(e.amount as int, e.reward_multiplier as int);
        }
    }
}

/// Daily time-weighted pending reward of aggregated lock totals, at a daily
/// rate and weighted multiplier in basis points.
pub open spec fn pending_rewards_spec(
    rate: i128,
    totals: LockTotals,
    total_multiplier: int,
    now: u64,
) -> int {
    if totals.total_locked_aqua == 0 || totals.last_update_ts >= now {
        0
    } else {
        let days = ((now - totals.last_update_ts) as int) / (SECONDS_PER_DAY as int);
        if days == 0 {
            0
        } else {
            sat_mul_spec(
                sat_mul_spec(sat_mul_spec(totals.total_locked_aqua as int, rate as int), days),
                total_multiplier,
            ) / 100_000_000
        }
    }
}

impl StakingRegistry {
    /// Amount-weighted average multiplier over `user`'s recorded locks, with
    /// a 1.0x default for accounts without locks.
    pub open spec fn multiplier_of(&self, user: u64) -> int {
        let n = count_of(self.lock_counts@, user) as int;
        if n == 0 {
            10000
        } else {
            let ta = lock_amount_sum(self.locks@, user, n);
            if ta == 0 {
                10000
            } else {
                lock_weight_sum(self.locks@, user, n) / ta
            }
        }
    }

    /// Walk `user`'s recorded locks and compute the amount-weighted average
    /// multiplier.
    fn get_user_total_multiplier(&self, user: u64) -> (r: i128)
        requires
            self.wf(),
        ensures
            r == self.multiplier_of(user),
            0 <= r,
    {
        let count: u32 = match keyed_find(&self.lock_counts, user) {
            Some(i) => {
                proof {
                    lemma_keyed_index_is(self.lock_counts@, user, i as int);
                }
                self.lock_counts[i].1
            },
            None => 0,
        };
        if count == 0 {
            return 10000;
        }
        let mut total_amount: i128 = 0;
        let mut weighted_multiplier: i128 = 0;
        let mut i: u32 = 0;
        while i < count
            invariant
                self.wf(),
                0 <= i <= count,
                count == count_of(self.lock_counts@, user),
                total_amount == lock_amount_sum(self.locks@, user, i as int),
                weighted_multiplier == lock_weight_sum(self.locks@, user, i as int),
                0 <= total_amount,
                0 <= weighted_multiplier,
            decreases count - i,
        {
            match indexed_find(&self.locks, user, i) {
                Some(k) => {
                    proof {
                        lemma_keyed_index_is(self.locks@, (user, i), k as int);
                        let e = self.locks@[k as int].1;
                        crate::arith::lemma_sat_mul_nonneg(
                            e.amount as int,
                            e.reward_multiplier as int,
                        );
                    }
                    let e = self.locks[k].1;
                    total_amount = sat_add_i128(total_amount, e.amount);
                    weighted_multiplier = sat_add_i128(
                        weighted_multiplier,
                        sat_mul_i128(e.amount, e.reward_multiplier),
                    );
                },
                None => {
                },
            }
            i = i + 1;
        }
        if total_amount == 0 {
            return 10000;
        }
        div_nonneg(weighted_multiplier, total_amount)
    }

    /// Pending time-weighted rewards on aggregated lock totals since their
    /// last update.
    fn calculate_pending_rewards(&self, user: u64, totals: &LockTotals, now: u64) -> (r: Result<
        i128,
        Error,
    >)
        requires
            self.wf(),
            0 <= totals.total_locked_aqua,
        ensures
            !self.is_init() ==> r == Err::<i128, Error>(Error::NotInitialized),
            self.is_init() ==> r == Ok::<i128, Error>(
                pending_rewards_spec(
                    self.cfg().reward_rate,
                    *totals,
                    self.multiplier_of(user),
                    now,
                ) as i128,
            ),
            r matches Ok(v) ==> 0 <= v,
    {
        if totals.total_locked_aqua == 0 || totals.last_update_ts >= now {
            if self.config.is_none() {
                return Err(Error::NotInitialized);
            }
            return Ok(0);
        }
        let cfg = match self.config {
            Some(c) => c,
            None => { return Err(Error::NotInitialized) },
        };
        let time_diff = now - totals.last_update_ts;
        let days_elapsed = time_diff / SECONDS_PER_DAY;
        if days_elapsed == 0 {
            return Ok(0);
        }
        let total_multiplier = self.get_user_total_multiplier(user);
        proof {
            crate::arith::lemma_sat_mul_nonneg(
                totals.total_locked_aqua as int,
                cfg.reward_rate as int,
            );
            crate::arith::lemma_sat_mul_nonneg(
                sat_mul_spec(totals.total_locked_aqua as int, cfg.reward_rate as int),
                days_elapsed as int,
            );
            crate::arith::lemma_sat_mul_nonneg(
                sat_mul_spec(
                    sat_mul_spec(totals.total_locked_aqua as int, cfg.reward_rate as int),
                    days_elapsed as int,
                ),
                total_multiplier as int,
            );
        }
        let base = sat_mul_i128(
            sat_mul_i128(sat_mul_i128(totals.total_locked_aqua, cfg.reward_rate), days_elapsed
                as i128),
            total_multiplier,
        );
        Ok(div_nonneg(base, 100_000_000))
    }

    /// Record an authenticated lock of `amount` for `user`, with its POL
    /// contribution (one tenth of the locked amount to each side), and
    /// update the lock totals, the POL sub-ledger and the global state.
    /// Returns the entry's index in the account's lock history.
    pub fn record_lock(
        &mut self,
        admin: u64,
        user: u64,
        amount: i128,
        duration_days: u32,
        tx_hash: u64,
        now: u64,
    ) -> (r: Result<u32, Error>)
        requires
            old(self).wf(),
        ensures
            final(self).wf(),
            r is Err ==> *final(self) == *old(self),
            !old(self).is_init() ==> r == Err::<u32, Error>(Error::NotInitialized),
            old(self).is_init() && admin != old(self).cfg().admin ==> r == Err::<u32, Error>(
                Error::Unauthorized,
            ),
            old(self).is_init() && admin == old(self).cfg().admin && amount <= 0 ==> r == Err::<
                u32,
                Error,
            >(Error::InvalidInput),
            r is Ok <==> old(self).is_init() && admin == old(self).cfg().admin && amount > 0,
            r is Ok ==> ({
                let idx = count_of(old(self).lock_counts@, user);
                let entry = LockEntry {
                    user,
                    amount,
                    lock_timestamp: now,
                    duration_days,
                    reward_multiplier: lock_multiplier_spec(duration_days) as i128,
                    tx_hash,
                    pol_contributed: (amount as int / 10) as i128,
                };
                let gs = old(self).global_state;
                let lt = old(self).lock_totals;
                &&& r == Ok::<u32, Error>(idx)
                &&& final(self).lock_counts@ == keyed_put(
                    old(self).lock_counts@,
                    user,
                    bumped(idx),
                )
                &&& final(self).locks@ == keyed_put(old(self).locks@, (user, idx), entry)
                &&& final(self).lock_totals == (LockTotals {
                    total_locked_aqua: sat_add_spec(
                        lt.total_locked_aqua as int,
                        amount as int,
                    ) as i128,
                    total_entries: bumped(lt.total_entries),
                    last_update_ts: now,
                    accumulated_rewards: lt.accumulated_rewards,
                })
                &&& final(self).pol == (ProtocolOwnedLiquidity {
                    total_aqua_contributed: sat_add_spec(
                        old(self).pol.total_aqua_contributed as int,
                        amount as int / 10,
                    ) as i128,
                    total_blub_contributed: sat_add_spec(
                        old(self).pol.total_blub_contributed as int,
                        amount as int / 10,
                    ) as i128,
                    ..old(self).pol
                })
                &&& final(self).global_state == (GlobalState {
                    total_locked: sat_add_spec(gs.total_locked as int, amount as int) as i128,
                    total_users: if idx == 0 {
                        bumped(gs.total_users)
                    } else {
                        gs.total_users
                    },
                    last_reward_update: now,
                    ..gs
                })
                &&& *final(self) == (StakingRegistry {
                    lock_counts: final(self).lock_counts,
                    locks: final(self).locks,
                    lock_totals: final(self).lock_totals,
                    pol: final(self).pol,
                    global_state: final(self).global_state,
                    ..*old(self)
                })
            }),
    {
        let cfg = match self.config {
            Some(c) => c,
            None => { return Err(Error::NotInitialized) },
        };
        if admin != cfg.admin {
            return Err(Error::Unauthorized);
        }
        if amount <= 0 {
            return Err(Error::InvalidInput);
        }
        let reward_multiplier = Self::calculate_lock_multiplier(duration_days);
        let pol_contribution = div_nonneg(amount, POL_SHARE_DIVISOR);
        let count: u32 = match keyed_find(&self.lock_counts, user) {
            Some(i) => {
                proof {
                    lemma_keyed_index_is(self.lock_counts@, user, i as int);
                }
                self.lock_counts[i].1
            },
            None => 0,
        };
        let index = count;
        let new_count = count.saturating_add(1);
        keyed_store(&mut self.lock_counts, user, new_count);
        let entry = LockEntry {
            user,
            amount,
            lock_timestamp: now,
            duration_days,
            reward_multiplier,
            tx_hash,
            pol_contributed: pol_contribution,
        };
        indexed_store(&mut self.locks, user, index, entry);
        self.lock_totals = LockTotals {
            total_locked_aqua: sat_add_i128(self.lock_totals.total_locked_aqua, amount),
            total_entries: self.lock_totals.total_entries.saturating_add(1),
            last_update_ts: now,
            accumulated_rewards: self.lock_totals.accumulated_rewards,
        };
        self.pol = ProtocolOwnedLiquidity {
            total_aqua_contributed: sat_add_i128(
                self.pol.total_aqua_contributed,
                pol_contribution,
            ),
            total_blub_contributed: sat_add_i128(
                self.pol.total_blub_contributed,
                pol_contribution,
            ),
            ..self.pol
        };
        self.global_state = GlobalState {
            total_locked: sat_add_i128(self.global_state.total_locked, amount),
            total_users: if index == 0 {
                self.global_state.total_users.saturating_add(1)
            } else {
                self.global_state.total_users
            },
            last_reward_update: now,
            ..self.global_state
        };
        proof {
            lemma_keyed_put(old(self).locks@, (user, index), entry);
            assert(*final(self) == (StakingRegistry {
                lock_counts: final(self).lock_counts,
                locks: final(self).locks,
                lock_totals: final(self).lock_totals,
                pol: final(self).pol,
                global_state: final(self).global_state,
                ..*old(self)
            }));
            assert forall|i: int| 0 <= i < self.locks@.len() implies {
                let e = (#[trigger] self.locks@[i]).1;
                0 < e.amount && 0 <= e.reward_multiplier && 0 <= e.pol_contributed
            } by {
                if keyed_has(old(self).locks@, (user, index)) {
                    if i != crate::table::keyed_index(old(self).locks@, (user, index)) {
                        assert(self.locks@[i] == old(self).locks@[i]);
                    }
                } else {
                    if i < self.locks@.len() - 1 {
                        assert(self.locks@[i] == old(self).locks@[i]);
                    }
                }
            }
        }
        Ok(index)
    }

    /// Record an authenticated unlock of `amount` for `user`: settle the
    /// account's pending time-weighted rewards into its accumulated balance,
    /// reduce its locked total (never below zero) and the global locked
    /// total, and append the unlock entry.
    pub fn record_unlock(&mut self, admin: u64, user: u64, amount: i128, tx_hash: u64, now: u64) -> (r:
        Result<u32, Error>)
        requires
            old(self).wf(),
        ensures
            final(self).wf(),
            r is Err ==> *final(self) == *old(self),
            !old(self).is_init() ==> r == Err::<u32, Error>(Error::NotInitialized),
            old(self).is_init() && admin != old(self).cfg().admin ==> r == Err::<u32, Error>(
                Error::Unauthorized,
            ),
            old(self).is_init() && admin == old(self).cfg().admin && amount <= 0 ==> r == Err::<
                u32,
                Error,
            >(Error::InvalidInput),
            r is Ok <==> old(self).is_init() && admin == old(self).cfg().admin && amount > 0,
            r is Ok ==> ({
                let idx = count_of(old(self).unlock_counts@, user);
                let t = lock_totals_of(old(self).user_lock_totals@, user);
                let pending = pending_rewards_spec(
                    old(self).cfg().reward_rate,
                    t,
                    old(self).multiplier_of(user),
                    now,
                );
                let nt = LockTotals {
                    total_locked_aqua: (if t.total_locked_aqua >= amount {
                        t.total_locked_aqua - amount
                    } else {
                        0
                    }) as i128,
                    total_entries: t.total_entries,
                    last_update_ts: now,
                    accumulated_rewards: sat_add_spec(
                        t.accumulated_rewards as int,
                        pending,
                    ) as i128,
                };
                let entry = UnlockEntry { amount, tx_hash, timestamp: now, claimed: false };
                &&& r == Ok::<u32, Error>(idx)
                &&& final(self).global_state == (GlobalState {
                    total_locked: sat_add_spec(
                        old(self).global_state.total_locked as int,
                        -(amount as int),
                    ) as i128,
                    last_reward_update: now,
                    ..old(self).global_state
                })
                &&& final(self).unlock_counts@ == keyed_put(
                    old(self).unlock_counts@,
                    user,
                    bumped(idx),
                )
                &&& final(self).unlocks@ == keyed_put(old(self).unlocks@, (user, idx), entry)
                &&& final(self).user_lock_totals@ == keyed_put(
                    old(self).user_lock_totals@,
                    user,
                    nt,
                )
                &&& *final(self) == (StakingRegistry {
                    global_state: final(self).global_state,
                    unlock_counts: final(self).unlock_counts,
                    unlocks: final(self).unlocks,
                    user_lock_totals: final(self).user_lock_totals,
                    ..*old(self)
                })
            }),
    {
        let cfg = match self.config {
            Some(c) => c,
            None => { return Err(Error::NotInitialized) },
        };
        if admin != cfg.admin {
            return Err(Error::Unauthorized);
        }
        if amount <= 0 {
            return Err(Error::InvalidInput);
        }
        self.global_state = GlobalState {
            total_locked: sat_add_i128(self.global_state.total_locked, -amount),
            last_reward_update: now,
            ..self.global_state
        };
        let count: u32 = match keyed_find(&self.unlock_counts, user) {
            Some(i) => {
                proof {
                    lemma_keyed_index_is(self.unlock_counts@, user, i as int);
                }
                self.unlock_counts[i].1
            },
            None => 0,
        };
        let index = count;
        keyed_store(&mut self.unlock_counts, user, count.saturating_add(1));
        let entry = UnlockEntry { amount, tx_hash, timestamp: now, claimed: false };
        indexed_store(&mut self.unlocks, user, index, entry);
        let totals: LockTotals = match keyed_find(&self.user_lock_totals, user) {
            Some(i) => {
                proof {
                    lemma_keyed_index_is(self.user_lock_totals@, user, i as int);
                }
                self.user_lock_totals[i].1
            },
            None => LockTotals {
                total_locked_aqua: 0,
                total_entries: 0,
                last_update_ts: 0,
                accumulated_rewards: 0,
            },
        };
        let pending = match self.calculate_pending_rewards(user, &totals, now) {
            Ok(v) => v,
            Err(_) => 0,
        };
        proof {
            crate::arith::lemma_sat_add_nonneg(totals.accumulated_rewards as int, pending as int);
        }
        let nt = LockTotals {
            total_locked_aqua: if totals.total_locked_aqua >= amount {
                totals.total_locked_aqua - amount
            } else {
                0
            },
            total_entries: totals.total_entries,
            last_update_ts: now,
            accumulated_rewards: sat_add_i128(totals.accumulated_rewards, pending),
        };
        keyed_store(&mut self.user_lock_totals, user, nt);
        proof {
            assert(*final(self) == (StakingRegistry {
                global_state: final(self).global_state,
                unlock_counts: final(self).unlock_counts,
                unlocks: final(self).unlocks,
                user_lock_totals: final(self).user_lock_totals,
                ..*old(self)
            }));
            lemma_keyed_put(old(self).user_lock_totals@, user, nt);
            assert forall|i: int| 0 <= i < self.user_lock_totals@.len() implies {
                let t = (#[trigger] self.user_lock_totals@[i]).1;
                0 <= t.total_locked_aqua && 0 <= t.accumulated_rewards
            } by {
                if keyed_has(old(self).user_lock_totals@, user) {
                    if i != crate::table::keyed_index(old(self).user_lock_totals@, user) {
                        assert(self.user_lock_totals@[i] == old(self).user_lock_totals@[i]);
                    }
                } else {
                    if i < self.user_lock_totals@.len() - 1 {
                        assert(self.user_lock_totals@[i] == old(self).user_lock_totals@[i]);
                    }
                }
            }
        }
        Ok(index)
    }

    /// Record an authenticated compounding restake for `user`, keeping the
    /// previous restake amount for compound-growth tracking.
    pub fn record_blub_restake(
        &mut self,
        admin: u64,
        user: u64,
        amount: i128,
        tx_hash: u64,
        now: u64,
    ) -> (r: Result<u32, Error>)
        requires
            old(self).wf(),
        ensures
            final(self).wf(),
            r is Err ==> *final(self) == *old(self),
            !old(self).is_init() ==> r == Err::<u32, Error>(Error::NotInitialized),
            old(self).is_init() && admin != old(self).cfg().admin ==> r == Err::<u32, Error>(
                Error::Unauthorized,
            ),
            old(self).is_init() && admin == old(self).cfg().admin && amount <= 0 ==> r == Err::<
                u32,
                Error,
            >(Error::InvalidInput),
            r is Ok <==> old(self).is_init() && admin == old(self).cfg().admin && amount > 0,
            r is Ok ==> ({
                let idx = count_of(old(self).restake_counts@, user);
                let prev = if idx > 0 && keyed_has(old(self).restakes@, (user, (idx - 1) as u32)) {
                    keyed_get(old(self).restakes@, (user, (idx - 1) as u32)).amount as int
                } else {
                    0
                };
                let entry = BlubRestakeEntry {
                    amount,
                    tx_hash,
                    timestamp: now,
                    previous_amount: prev as i128,
                };
                &&& r == Ok::<u32, Error>(idx)
                &&& final(self).restake_counts@ == keyed_put(
                    old(self).restake_counts@,
                    user,
                    bumped(idx),
                )
                &&& final(self).restakes@ == keyed_put(old(self).restakes@, (user, idx), entry)
                &&& *final(self) == (StakingRegistry {
                    restake_counts: final(self).restake_counts,
                    restakes: final(self).restakes,
                    ..*old(self)
                })
            }),
    {
        let cfg = match self.config {
            Some(c) => c,
            None => { return Err(Error::NotInitialized) },
        };
        if admin != cfg.admin {
            return Err(Error::Unauthorized);
        }
        if amount <= 0 {
            return Err(Error::InvalidInput);
        }
        let count: u32 = match keyed_find(&self.restake_counts, user) {
            Some(i) => {
                proof {
                    lemma_keyed_index_is(self.restake_counts@, user, i as int);
                }
                self.restake_counts[i].1
            },
            None => 0,
        };
        let previous_amount: i128 = if count > 0 {
            match indexed_find(&self.restakes, user, count - 1) {
                Some(i) => {
                    proof {
                        lemma_keyed_index_is(self.restakes@, (user, (count - 1) as u32), i as int);
                    }
                    self.restakes[i].1.amount
                },
                None => 0,
            }
        } else {
            0
        };
        let index = count;
        keyed_store(&mut self.restake_counts, user, count.saturating_add(1));
        let entry = BlubRestakeEntry { amount, tx_hash, timestamp: now, previous_amount };
        indexed_store(&mut self.restakes, user, index, entry);
        proof {
            assert(*final(self) == (StakingRegistry {
                restake_counts: final(self).restake_counts,
                restakes: final(self).restakes,
                ..*old(self)
            }));
        }
        Ok(index)
    }
}


/// The LP position stored for `user` in `pool_id`, or a zeroed position.
pub open spec fn lp_position_of(
    s: Seq<((u64, u64), LpPosition)>,
    user: u64,
    pool_id: u64,
) -> LpPosition {
    if keyed_has(s, (user, pool_id)) {
        keyed_get(s, (user, pool_id))
    } else {
        LpPosition {
            pool_id,
            total_asset_a: 0,
            total_asset_b: 0,
            last_tx: 0,
            last_update_ts: 0,
            lp_shares: 0,
            reward_debt: 0,
        }
    }
}

/// Pending LP reward of a position under the LP accumulator.
pub open spec fn lp_pending(p: LpPosition, rps: i128) -> int {
    sat_mul_spec(p.lp_shares as int, rps as int) / 1_000_000 - p.reward_debt
}

/// The pool list stored for `user`, or the empty list.
pub open spec fn pools_list_of(s: Seq<(u64, Vec<u64>)>, user: u64) -> Seq<u64> {
    if keyed_has(s, user) {
        keyed_get(s, user)@
    } else {
        Seq::empty()
    }
}

/// Saturating sum of pending LP rewards over the first `n` pools of the
/// account's pool list.
pub open spec fn lp_pending_sum(
    lp: Seq<((u64, u64), LpPosition)>,
    pools: Seq<u64>,
    user: u64,
    rps: i128,
    n: int,
) -> int
    decreases n,
{
    if n <= 0 {
        0
    } else {
        let prev = lp_pending_sum(lp, pools, user, rps, n - 1);
        if keyed_has(lp, (user, pools[n - 1])) {
            sat_add_spec(prev, lp_pending(keyed_get(lp, (user, pools[n - 1])), rps))
        } else {
            prev
        }
    }
}

/// Copy a list of identifiers.
fn copy_ids(v: &Vec<u64>) -> (r: Vec<u64>)
    ensures
        r@ == v@,
{
    let mut out: Vec<u64> = Vec::new();
    let n = v.len();
    let mut j: usize = 0;
    while j < n
        invariant
            0 <= j <= n,
            n == v@.len(),
            out@ == v@.take(j as int),
        decreases n - j,
    {
        out.push(v[j]);
        proof {
            assert(out@ =~= v@.take(j as int + 1));
        }
        j = j + 1;
    }
    proof {
        assert(v@.take(n as int) =~= v@);
    }
    out
}

/// Whether `x` occurs in the list.
fn ids_contain(v: &Vec<u64>, x: u64) -> (r: bool)
    ensures
        r == v@.contains(x),
{
    let n = v.len();
    let mut j: usize = 0;
    while j < n
        invariant
            0 <= j <= n,
            n == v@.len(),
            forall|t: int| 0 <= t < j ==> v@[t] != x,
        decreases n - j,
    {
        if v[j] == x {
            return true;
        }
        j = j + 1;
    }
    false
}

impl StakingRegistry {
    /// Record an authenticated liquidity deposit: credit LP shares (the
    /// geometric mean of the two amounts) to the account's position, flush
    /// its pending LP reward into its reward totals, rebase the reward debt
    /// marker, and track the pool under the account's pool list.
    pub fn record_lp_deposit(
        &mut self,
        admin: u64,
        user: u64,
        pool_id: u64,
        amount_a: i128,
        amount_b: i128,
        tx_hash: u64,
        now: u64,
    ) -> (r: Result<(), Error>)
        requires
            old(self).wf(),
        ensures
            final(self).wf(),
            r is Err ==> *final(self) == *old(self),
            !old(self).is_init() ==> r == Err::<(), Error>(Error::NotInitialized),
            old(self).is_init() && admin != old(self).cfg().admin ==> r == Err::<(), Error>(
                Error::Unauthorized,
            ),
            old(self).is_init() && admin == old(self).cfg().admin && (amount_a < 0 || amount_b
                < 0) ==> r == Err::<(), Error>(Error::InvalidInput),
            r is Ok <==> old(self).is_init() && admin == old(self).cfg().admin && amount_a >= 0
                && amount_b >= 0,
            r is Ok ==> ({
                let shares = lp_shares_spec(amount_a, amount_b);
                let gs = old(self).global_state;
                let rps = gs.reward_per_lp_token;
                let p = lp_position_of(old(self).lp_positions@, user, pool_id);
                let pending = lp_pending(p, rps);
                let ns = sat_add_spec(p.lp_shares as int, shares);
                let np = LpPosition {
                    pool_id,
                    total_asset_a: sat_add_spec(p.total_asset_a as int, amount_a as int) as i128,
                    total_asset_b: sat_add_spec(p.total_asset_b as int, amount_b as int) as i128,
                    last_tx: tx_hash,
                    last_update_ts: now,
                    lp_shares: ns as i128,
                    reward_debt: (sat_mul_spec(ns, rps as int) / 1_000_000) as i128,
                };
                let t = reward_totals_of(old(self).user_rewards@, user);
                &&& final(self).global_state == (GlobalState {
                    total_lp_staked: sat_add_spec(gs.total_lp_staked as int, shares) as i128,
                    total_users: bumped(gs.total_users),
                    last_reward_update: now,
                    ..gs
                })
                &&& final(self).user_pools@.len() == (if pools_list_of(
                    old(self).user_pools@,
                    user,
                ).contains(pool_id) {
                    old(self).user_pools@.len() as int
                } else if keyed_has(old(self).user_pools@, user) {
                    old(self).user_pools@.len() as int
                } else {
                    old(self).user_pools@.len() as int + 1
                })
                &&& pools_list_of(final(self).user_pools@, user) == (if pools_list_of(
                    old(self).user_pools@,
                    user,
                ).contains(pool_id) {
                    pools_list_of(old(self).user_pools@, user)
                } else {
                    pools_list_of(old(self).user_pools@, user).push(pool_id)
                })
                &&& final(self).lp_positions@ == keyed_put(
                    old(self).lp_positions@,
                    (user, pool_id),
                    np,
                )
                &&& final(self).user_rewards@ == (if pending > 0 {
                    keyed_put(
                        old(self).user_rewards@,
                        user,
                        (UserRewardTotals {
                            lp_total: sat_add_spec(t.lp_total as int, pending) as i128,
                            last_update_ts: now,
                            ..t
                        }),
                    )
                } else {
                    old(self).user_rewards@
                })
                &&& *final(self) == (StakingRegistry {
                    global_state: final(self).global_state,
                    user_pools: final(self).user_pools,
                    lp_positions: final(self).lp_positions,
                    user_rewards: final(self).user_rewards,
                    ..*old(self)
                })
            }),
    {
        let cfg = match self.config {
            Some(c) => c,
            None => { return Err(Error::NotInitialized) },
        };
        if admin != cfg.admin {
            return Err(Error::Unauthorized);
        }
        if amount_a < 0 || amount_b < 0 {
            return Err(Error::InvalidInput);
        }
        let lp_shares = Self::calculate_lp_shares(amount_a, amount_b);
        self.global_state = GlobalState {
            total_lp_staked: sat_add_i128(self.global_state.total_lp_staked, lp_shares),
            total_users: self.global_state.total_users.saturating_add(1),
            last_reward_update: now,
            ..self.global_state
        };
        let rps = self.global_state.reward_per_lp_token;
        match keyed_find(&self.user_pools, user) {
            Some(i) => {
                proof {
                    lemma_keyed_index_is(self.user_pools@, user, i as int);
                }
                if !ids_contain(&self.user_pools[i].1, pool_id) {
                    let mut list = copy_ids(&self.user_pools[i].1);
                    list.push(pool_id);
                    keyed_store(&mut self.user_pools, user, list);
                }
            },
            None => {
                let mut list: Vec<u64> = Vec::new();
                list.push(pool_id);
                keyed_store(&mut self.user_pools, user, list);
            },
        }
        let pos: LpPosition = match paired_find(&self.lp_positions, user, pool_id) {
            Some(i) => {
                proof {
                    lemma_keyed_index_is(self.lp_positions@, (user, pool_id), i as int);
                }
                self.lp_positions[i].1
            },
            None => LpPosition {
                pool_id,
                total_asset_a: 0,
                total_asset_b: 0,
                last_tx: 0,
                last_update_ts: 0,
                lp_shares: 0,
                reward_debt: 0,
            },
        };
        let scaled = sat_mul_i128(pos.lp_shares, rps);
        proof {
            crate::arith::lemma_sat_mul_nonneg(pos.lp_shares as int, rps as int);
        }
        let pending_lp = div_nonneg(scaled, 1_000_000) - pos.reward_debt;
        let new_shares = sat_add_i128(pos.lp_shares, lp_shares);
        proof {
            crate::arith::lemma_sat_add_nonneg(pos.lp_shares as int, lp_shares as int);
            crate::arith::lemma_sat_mul_nonneg(new_shares as int, rps as int);
        }
        let new_debt = div_nonneg(sat_mul_i128(new_shares, rps), 1_000_000);
        let np = LpPosition {
            pool_id,
            total_asset_a: sat_add_i128(pos.total_asset_a, amount_a),
            total_asset_b: sat_add_i128(pos.total_asset_b, amount_b),
            last_tx: tx_hash,
            last_update_ts: now,
            lp_shares: new_shares,
            reward_debt: new_debt,
        };
        paired_store(&mut self.lp_positions, user, pool_id, np);
        proof {
            lemma_keyed_put(old(self).lp_positions@, (user, pool_id), np);
            assert forall|i: int| 0 <= i < self.lp_positions@.len() implies {
                let p = (#[trigger] self.lp_positions@[i]).1;
                0 <= p.lp_shares && 0 <= p.reward_debt
            } by {
                if keyed_has(old(self).lp_positions@, (user, pool_id)) {
                    if i != crate::table::keyed_index(old(self).lp_positions@, (user, pool_id)) {
                        assert(self.lp_positions@[i] == old(self).lp_positions@[i]);
                    }
                } else {
                    if i < self.lp_positions@.len() - 1 {
                        assert(self.lp_positions@[i] == old(self).lp_positions@[i]);
                    }
                }
            }
        }
        if pending_lp > 0 {
            let t: UserRewardTotals = match keyed_find(&self.user_rewards, user) {
                Some(i) => {
                    proof {
                        lemma_keyed_index_is(self.user_rewards@, user, i as int);
                    }
                    self.user_rewards[i].1
                },
                None => UserRewardTotals {
                    lp_total: 0,
                    locked_total: 0,
                    last_update_ts: 0,
                    pending_lp: 0,
                    pending_locked: 0,
                },
            };
            let nt = UserRewardTotals {
                lp_total: sat_add_i128(t.lp_total, pending_lp),
                last_update_ts: now,
                ..t
            };
            keyed_store(&mut self.user_rewards, user, nt);
        }
        proof {
            assert(*final(self) == (StakingRegistry {
                global_state: final(self).global_state,
                user_pools: final(self).user_pools,
                lp_positions: final(self).lp_positions,
                user_rewards: final(self).user_rewards,
                ..*old(self)
            }));
        }
        Ok(())
    }
}


/// The global state after a distribution of `amount` for reward class
/// `kind` (0 = LP, 1 = LOCKED): the matching accumulator rises by the
/// distributed amount scaled per staked token; with an empty supply the
/// distribution is skipped.
pub open spec fn rates_after(gs: GlobalState, kind: u32, amount: i128) -> GlobalState {
    if kind == 0 && gs.total_lp_staked > 0 {
        GlobalState {
            reward_per_lp_token: sat_add_spec(
                gs.reward_per_lp_token as int,
                amount * 1_000_000 / (gs.total_lp_staked as int),
            ) as i128,
            ..gs
        }
    } else if kind == 1 && gs.total_locked > 0 {
        GlobalState {
            reward_per_locked_token: sat_add_spec(
                gs.reward_per_locked_token as int,
                amount * 1_000_000 / (gs.total_locked as int),
            ) as i128,
            ..gs
        }
    } else {
        gs
    }
}

impl StakingRegistry {
    /// Settle an account's reward view: accumulated time-weighted lock
    /// rewards plus pending LP rewards across all of its pools, without
    /// mutating the ledger.
    pub fn calculate_user_rewards(&self, user: u64, now: u64) -> (r: Result<
        UserRewardTotals,
        Error,
    >)
        requires
            self.wf(),
        ensures
            !self.is_init() ==> r == Err::<UserRewardTotals, Error>(Error::NotInitialized),
            self.is_init() ==> r == Ok::<UserRewardTotals, Error>(
                ({
                    let t = reward_totals_of(self.user_rewards@, user);
                    let lt = lock_totals_of(self.user_lock_totals@, user);
                    let pools = pools_list_of(self.user_pools@, user);
                    UserRewardTotals {
                        lp_total: t.lp_total,
                        locked_total: t.locked_total,
                        last_update_ts: now,
                        pending_lp: sat_add_spec(
                            t.lp_total as int,
                            lp_pending_sum(
                                self.lp_positions@,
                                pools,
                                user,
                                self.global_state.reward_per_lp_token,
                                pools.len() as int,
                            ),
                        ) as i128,
                        pending_locked: sat_add_spec(
                            lt.accumulated_rewards as int,
                            pending_rewards_spec(
                                self.cfg().reward_rate,
                                lt,
                                self.multiplier_of(user),
                                now,
                            ),
                        ) as i128,
                    }
                }),
            ),
    {
        if self.config.is_none() {
            return Err(Error::NotInitialized);
        }
        let totals: UserRewardTotals = match keyed_find(&self.user_rewards, user) {
            Some(i) => {
                proof {
                    lemma_keyed_index_is(self.user_rewards@, user, i as int);
                }
                self.user_rewards[i].1
            },
            None => UserRewardTotals {
                lp_total: 0,
                locked_total: 0,
                last_update_ts: 0,
                pending_lp: 0,
                pending_locked: 0,
            },
        };
        let lock_totals: LockTotals = match keyed_find(&self.user_lock_totals, user) {
            Some(i) => {
                proof {
                    lemma_keyed_index_is(self.user_lock_totals@, user, i as int);
                }
                self.user_lock_totals[i].1
            },
            None => LockTotals {
                total_locked_aqua: 0,
                total_entries: 0,
                last_update_ts: 0,
                accumulated_rewards: 0,
            },
        };
        let pending_locked = match self.calculate_pending_rewards(user, &lock_totals, now) {
            Ok(v) => v,
            Err(e) => { return Err(e) },
        };
        let rps = self.global_state.reward_per_lp_token;
        let mut total_pending_lp: i128 = 0;
        match keyed_find(&self.user_pools, user) {
            Some(pi) => {
                proof {
                    lemma_keyed_index_is(self.user_pools@, user, pi as int);
                }
                let pools = &self.user_pools[pi].1;
                let n = pools.len();
                let mut j: usize = 0;
                while j < n
                    invariant
                        self.wf(),
                        0 <= j <= n,
                        n == pools@.len(),
                        pools@ == pools_list_of(self.user_pools@, user),
                        rps == self.global_state.reward_per_lp_token,
                        total_pending_lp == lp_pending_sum(
                            self.lp_positions@,
                            pools@,
                            user,
                            rps,
                            j as int,
                        ),
                    decreases n - j,
                {
                    match paired_find(&self.lp_positions, user, pools[j]) {
                        Some(k) => {
                            proof {
                                lemma_keyed_index_is(
                                    self.lp_positions@,
                                    (user, pools@[j as int]),
                                    k as int,
                                );
                                crate::arith::lemma_sat_mul_nonneg(
                                    self.lp_positions@[k as int].1.lp_shares as int,
                                    rps as int,
                                );
                            }
                            let pos = self.lp_positions[k].1;
                            let scaled = sat_mul_i128(pos.lp_shares, rps);
                            let pending = div_nonneg(scaled, 1_000_000) - pos.reward_debt;
                            total_pending_lp = sat_add_i128(total_pending_lp, pending);
                        },
                        None => {
                        },
                    }
                    j = j + 1;
                }
            },
            None => {
            },
        }
        Ok(
            UserRewardTotals {
                lp_total: totals.lp_total,
                locked_total: totals.locked_total,
                last_update_ts: now,
                pending_lp: sat_add_i128(totals.lp_total, total_pending_lp),
                pending_locked: sat_add_i128(lock_totals.accumulated_rewards, pending_locked),
            },
        )
    }

    /// Record a reward distribution for a class (0 = LP, 1 = LOCKED): the
    /// matching global accumulator advances by the distributed amount per
    /// staked token, and an immutable distribution record is appended.
    pub fn record_reward_distribution(
        &mut self,
        admin: u64,
        kind: u32,
        pool_id: u64,
        total_reward: i128,
        distributed_amount: i128,
        treasury_amount: i128,
        tx_hash: u64,
        now: u64,
    ) -> (r: Result<u32, Error>)
        requires
            old(self).wf(),
        ensures
            final(self).wf(),
            r is Err ==> *final(self) == *old(self),
            !old(self).is_init() ==> r == Err::<u32, Error>(Error::NotInitialized),
            old(self).is_init() && admin != old(self).cfg().admin ==> r == Err::<u32, Error>(
                Error::Unauthorized,
            ),
            old(self).is_init() && admin == old(self).cfg().admin && (total_reward < 0
                || distributed_amount < 0 || treasury_amount < 0) ==> r == Err::<u32, Error>(
                Error::InvalidInput,
            ),
            old(self).is_init() && admin == old(self).cfg().admin && total_reward >= 0
                && distributed_amount >= 0 && treasury_amount >= 0 && ((kind == 0 && old(
                self,
            ).global_state.total_lp_staked > 0 || kind == 1 && old(self).global_state.total_locked
                > 0) && distributed_amount * 1_000_000 > i128::MAX) ==> r == Err::<u32, Error>(
                Error::RewardCalculationFailed,
            ),
            r is Ok <==> old(self).is_init() && admin == old(self).cfg().admin && total_reward
                >= 0 && distributed_amount >= 0 && treasury_amount >= 0 && !((kind == 0 && old(
                self,
            ).global_state.total_lp_staked > 0 || kind == 1 && old(self).global_state.total_locked
                > 0) && distributed_amount * 1_000_000 > i128::MAX),
            r is Ok ==> ({
                let idx = old(self).dist_count;
                let gs = rates_after(old(self).global_state, kind, distributed_amount);
                let users = if kind == 0 {
                    (old(self).global_state.total_users / 2) as u32
                } else {
                    old(self).global_state.total_users
                };
                let dist = RewardDistribution {
                    kind,
                    pool_id,
                    total_reward,
                    distributed_amount,
                    treasury_amount,
                    tx_hash,
                    timestamp: now,
                    user_count: users,
                };
                &&& r == Ok::<u32, Error>(idx)
                &&& final(self).global_state == gs
                &&& final(self).dist_count == bumped(idx)
                &&& final(self).distributions@ == keyed_put(
                    old(self).distributions@,
                    idx as u64,
                    dist,
                )
                &&& *final(self) == (StakingRegistry {
                    global_state: final(self).global_state,
                    dist_count: final(self).dist_count,
                    distributions: final(self).distributions,
                    ..*old(self)
                })
            }),
    {
        let cfg = match self.config {
            Some(c) => c,
            None => { return Err(Error::NotInitialized) },
        };
        if admin != cfg.admin {
            return Err(Error::Unauthorized);
        }
        if total_reward < 0 || distributed_amount < 0 || treasury_amount < 0 {
            return Err(Error::InvalidInput);
        }
        if kind == 0 && self.global_state.total_lp_staked > 0 {
            let scaled = match distributed_amount.checked_mul(1_000_000) {
                Some(v) => v,
                None => {
                    proof {
                        lemma_mul_nonnegative(distributed_amount as int, 1_000_000);
                    }
                    return Err(Error::RewardCalculationFailed);
                },
            };
            let inc = div_nonneg(scaled, self.global_state.total_lp_staked);
            self.global_state = GlobalState {
                reward_per_lp_token: sat_add_i128(self.global_state.reward_per_lp_token, inc),
                ..self.global_state
            };
        } else if kind == 1 && self.global_state.total_locked > 0 {
            let scaled = match distributed_amount.checked_mul(1_000_000) {
                Some(v) => v,
                None => {
                    proof {
                        lemma_mul_nonnegative(distributed_amount as int, 1_000_000);
                    }
                    return Err(Error::RewardCalculationFailed);
                },
            };
            let inc = div_nonneg(scaled, self.global_state.total_locked);
            self.global_state = GlobalState {
                reward_per_locked_token: sat_add_i128(
                    self.global_state.reward_per_locked_token,
                    inc,
                ),
                ..self.global_state
            };
        }
        let idx = self.dist_count;
        self.dist_count = self.dist_count.saturating_add(1);
        let estimated_users: u32 = if kind == 0 {
            self.global_state.total_users / 2
        } else {
            self.global_state.total_users
        };
        let dist = RewardDistribution {
            kind,
            pool_id,
            total_reward,
            distributed_amount,
            treasury_amount,
            tx_hash,
            timestamp: now,
            user_count: estimated_users,
        };
        keyed_store(&mut self.distributions, idx as u64, dist);
        proof {
            assert(*final(self) == (StakingRegistry {
                global_state: final(self).global_state,
                dist_count: final(self).dist_count,
                distributions: final(self).distributions,
                ..*old(self)
            }));
        }
        Ok(idx)
    }

    /// Credit an account's reward totals for a class (0 = LP, 1 = LOCKED).
    pub fn credit_user_reward(
        &mut self,
        admin: u64,
        kind: u32,
        user: u64,
        _pool_id: u64,
        amount: i128,
        _tx_hash: u64,
        now: u64,
    ) -> (r: Result<(), Error>)
        requires
            old(self).wf(),
        ensures
            final(self).wf(),
            r is Err ==> *final(self) == *old(self),
            !old(self).is_init() ==> r == Err::<(), Error>(Error::NotInitialized),
            old(self).is_init() && admin != old(self).cfg().admin ==> r == Err::<(), Error>(
                Error::Unauthorized,
            ),
            old(self).is_init() && admin == old(self).cfg().admin && amount <= 0 ==> r == Err::<
                (),
                Error,
            >(Error::InvalidInput),
            r is Ok <==> old(self).is_init() && admin == old(self).cfg().admin && amount > 0,
            r is Ok ==> ({
                let t = reward_totals_of(old(self).user_rewards@, user);
                let nt = UserRewardTotals {
                    lp_total: sat_add_spec(
                        t.lp_total as int,
                        if kind == 0 {
                            amount as int
                        } else {
                            0
                        },
                    ) as i128,
                    locked_total: sat_add_spec(
                        t.locked_total as int,
                        if kind == 1 {
                            amount as int
                        } else {
                            0
                        },
                    ) as i128,
                    last_update_ts: now,
                    ..t
                };
                &&& final(self).user_rewards@ == keyed_put(old(self).user_rewards@, user, nt)
                &&& *final(self) == (StakingRegistry {
                    user_rewards: final(self).user_rewards,
                    ..*old(self)
                })
            }),
    {
        let cfg = match self.config {
            Some(c) => c,
            None => { return Err(Error::NotInitialized) },
        };
        if admin != cfg.admin {
            return Err(Error::Unauthorized);
        }
        if amount <= 0 {
            return Err(Error::InvalidInput);
        }
        let t: UserRewardTotals = match keyed_find(&self.user_rewards, user) {
            Some(i) => {
                proof {
                    lemma_keyed_index_is(self.user_rewards@, user, i as int);
                }
                self.user_rewards[i].1
            },
            None => UserRewardTotals {
                lp_total: 0,
                locked_total: 0,
                last_update_ts: 0,
                pending_lp: 0,
                pending_locked: 0,
            },
        };
        let nt = UserRewardTotals {
            lp_total: sat_add_i128(
                t.lp_total,
                if kind == 0 {
                    amount
                } else {
                    0
                },
            ),
            locked_total: sat_add_i128(
                t.locked_total,
                if kind == 1 {
                    amount
                } else {
                    0
                },
            ),
            last_update_ts: now,
            ..t
        };
        keyed_store(&mut self.user_rewards, user, nt);
        proof {
            assert(*final(self) == (StakingRegistry {
                user_rewards: final(self).user_rewards,
                ..*old(self)
            }));
        }
        Ok(())
    }

    /// Record externally claimed POL voting yield: add it to the cumulative
    /// POL total and split it deterministically, 70% toward the users' claim
    /// pool and 30% toward the treasury.  Yield is never derived internally;
    /// it is always an attested external report.
    pub fn record_pol_rewards(
        &mut self,
        admin: u64,
        reward_amount: i128,
        ice_voting_power: i128,
        now: u64,
    ) -> (r: Result<PolRewardsClaimedEvent, Error>)
        requires
            old(self).wf(),
        ensures
            final(self).wf(),
            r is Err ==> *final(self) == *old(self),
            !old(self).is_init() ==> r == Err::<PolRewardsClaimedEvent, Error>(
                Error::NotInitialized,
            ),
            old(self).is_init() && admin != old(self).cfg().admin ==> r == Err::<
                PolRewardsClaimedEvent,
                Error,
            >(Error::Unauthorized),
            old(self).is_init() && admin == old(self).cfg().admin && reward_amount <= 0 ==> r
                == Err::<PolRewardsClaimedEvent, Error>(Error::InvalidInput),
            old(self).is_init() && admin == old(self).cfg().admin && reward_amount > 0
                && reward_amount * POL_USER_SHARE_PCT > i128::MAX ==> r == Err::<
                PolRewardsClaimedEvent,
                Error,
            >(Error::RewardCalculationFailed),
            r is Ok <==> old(self).is_init() && admin == old(self).cfg().admin && reward_amount
                > 0 && reward_amount * POL_USER_SHARE_PCT <= i128::MAX,
            r is Ok ==> ({
                let np = ProtocolOwnedLiquidity {
                    total_pol_rewards_earned: sat_add_spec(
                        old(self).pol.total_pol_rewards_earned as int,
                        reward_amount as int,
                    ) as i128,
                    last_reward_claim: now,
                    ice_voting_power_used: ice_voting_power,
                    ..old(self).pol
                };
                let user_distribution = reward_amount * POL_USER_SHARE_PCT / 100;
                &&& r == Ok::<PolRewardsClaimedEvent, Error>(
                    PolRewardsClaimedEvent {
                        reward_amount,
                        ice_voting_power,
                        total_pol_rewards: np.total_pol_rewards_earned,
                        reward_distribution_to_users: user_distribution as i128,
                        treasury_amount: (reward_amount - user_distribution) as i128,
                        timestamp: now,
                    },
                )
                &&& final(self).pol == np
                &&& final(self).pol_snapshots@ == keyed_put(
                    old(self).pol_snapshots@,
                    now / SECONDS_PER_DAY,
                    np,
                )
                &&& *final(self) == (StakingRegistry {
                    pol: final(self).pol,
                    pol_snapshots: final(self).pol_snapshots,
                    ..*old(self)
                })
            }),
    {
        let cfg = match self.config {
            Some(c) => c,
            None => { return Err(Error::NotInitialized) },
        };
        if admin != cfg.admin {
            return Err(Error::Unauthorized);
        }
        if reward_amount <= 0 {
            return Err(Error::InvalidInput);
        }
        proof {
            lemma_mul_nonnegative(reward_amount as int, POL_USER_SHARE_PCT as int);
        }
        let scaled = match reward_amount.checked_mul(POL_USER_SHARE_PCT) {
            Some(v) => v,
            None => { return Err(Error::RewardCalculationFailed) },
        };
        let user_distribution = div_nonneg(scaled, 100);
        proof {
            lemma_mul_inequality(POL_USER_SHARE_PCT as int, 100, reward_amount as int);
            assert(reward_amount * POL_USER_SHARE_PCT == POL_USER_SHARE_PCT * reward_amount)
                by (nonlinear_arith);
            assert(reward_amount * 100 == 100 * reward_amount) by (nonlinear_arith);
            lemma_div_is_ordered(
                reward_amount * (POL_USER_SHARE_PCT as int),
                reward_amount * 100,
                100,
            );
            lemma_div_multiples_vanish(reward_amount as int, 100);
            assert(reward_amount * 100 == 100 * (reward_amount as int)) by (nonlinear_arith);
        }
        let treasury_amount = reward_amount - user_distribution;
        let np = ProtocolOwnedLiquidity {
            total_pol_rewards_earned: sat_add_i128(
                self.pol.total_pol_rewards_earned,
                reward_amount,
            ),
            last_reward_claim: now,
            ice_voting_power_used: ice_voting_power,
            ..self.pol
        };
        self.pol = np;
        let day = now / SECONDS_PER_DAY;
        keyed_store(&mut self.pol_snapshots, day, np);
        proof {
            assert(*final(self) == (StakingRegistry {
                pol: final(self).pol,
                pol_snapshots: final(self).pol_snapshots,
                ..*old(self)
            }));
        }
        Ok(
            PolRewardsClaimedEvent {
                reward_amount,
                ice_voting_power,
                total_pol_rewards: np.total_pol_rewards_earned,
                reward_distribution_to_users: user_distribution,
                treasury_amount,
                timestamp: now,
            },
        )
    }
}


impl StakingRegistry {
    /// The aggregated per-user lock totals, if stored.
    pub fn get_user_lock_totals(&self, user: u64) -> (r: Option<LockTotals>)
        requires
            self.wf(),
        ensures
            keyed_has(self.user_lock_totals@, user) ==> r == Some(
                keyed_get(self.user_lock_totals@, user),
            ),
            !keyed_has(self.user_lock_totals@, user) ==> r is None,
    {
        match keyed_find(&self.user_lock_totals, user) {
            Some(i) => {
                proof {
                    lemma_keyed_index_is(self.user_lock_totals@, user, i as int);
                }
                Some(self.user_lock_totals[i].1)
            },
            None => None,
        }
    }

    /// Number of lock entries recorded for `user`.
    pub fn get_user_lock_count(&self, user: u64) -> (r: u32)
        requires
            self.wf(),
        ensures
            r == count_of(self.lock_counts@, user),
    {
        match keyed_find(&self.lock_counts, user) {
            Some(i) => {
                proof {
                    lemma_keyed_index_is(self.lock_counts@, user, i as int);
                }
                self.lock_counts[i].1
            },
            None => 0,
        }
    }

    /// The lock entry recorded for `user` at `index`, if any.
    pub fn get_user_lock_by_index(&self, user: u64, index: u32) -> (r: Option<LockEntry>)
        requires
            self.wf(),
        ensures
            keyed_has(self.locks@, (user, index)) ==> r == Some(
                keyed_get(self.locks@, (user, index)),
            ),
            !keyed_has(self.locks@, (user, index)) ==> r is None,
    {
        match indexed_find(&self.locks, user, index) {
            Some(i) => {
                proof {
                    lemma_keyed_index_is(self.locks@, (user, index), i as int);
                }
                Some(self.locks[i].1)
            },
            None => None,
        }
    }

    /// The pools `user` participates in.
    pub fn get_user_pools(&self, user: u64) -> (r: Vec<u64>)
        requires
            self.wf(),
        ensures
            r@ == pools_list_of(self.user_pools@, user),
    {
        match keyed_find(&self.user_pools, user) {
            Some(i) => {
                proof {
                    lemma_keyed_index_is(self.user_pools@, user, i as int);
                }
                copy_ids(&self.user_pools[i].1)
            },
            None => {
                proof {
                    assert(pools_list_of(self.user_pools@, user) =~= Seq::<u64>::empty());
                }
                Vec::new()
            },
        }
    }

    /// `user`'s LP position in `pool_id`, if stored.
    pub fn get_user_lp(&self, user: u64, pool_id: u64) -> (r: Option<LpPosition>)
        requires
            self.wf(),
        ensures
            keyed_has(self.lp_positions@, (user, pool_id)) ==> r == Some(
                keyed_get(self.lp_positions@, (user, pool_id)),
            ),
            !keyed_has(self.lp_positions@, (user, pool_id)) ==> r is None,
    {
        match paired_find(&self.lp_positions, user, pool_id) {
            Some(i) => {
                proof {
                    lemma_keyed_index_is(self.lp_positions@, (user, pool_id), i as int);
                }
                Some(self.lp_positions[i].1)
            },
            None => None,
        }
    }

    /// `user`'s stored reward totals, if any.
    pub fn get_user_rewards(&self, user: u64) -> (r: Option<UserRewardTotals>)
        requires
            self.wf(),
        ensures
            keyed_has(self.user_rewards@, user) ==> r == Some(keyed_get(self.user_rewards@, user)),
            !keyed_has(self.user_rewards@, user) ==> r is None,
    {
        match keyed_find(&self.user_rewards, user) {
            Some(i) => {
                proof {
                    lemma_keyed_index_is(self.user_rewards@, user, i as int);
                }
                Some(self.user_rewards[i].1)
            },
            None => None,
        }
    }

    /// Number of unlock entries recorded for `user`.
    pub fn get_unlock_count(&self, user: u64) -> (r: u32)
        requires
            self.wf(),
        ensures
            r == count_of(self.unlock_counts@, user),
    {
        match keyed_find(&self.unlock_counts, user) {
            Some(i) => {
                proof {
                    lemma_keyed_index_is(self.unlock_counts@, user, i as int);
                }
                self.unlock_counts[i].1
            },
            None => 0,
        }
    }

    /// The unlock entry recorded for `user` at `index`, if any.
    pub fn get_unlock_by_index(&self, user: u64, index: u32) -> (r: Option<UnlockEntry>)
        requires
            self.wf(),
        ensures
            keyed_has(self.unlocks@, (user, index)) ==> r == Some(
                keyed_get(self.unlocks@, (user, index)),
            ),
            !keyed_has(self.unlocks@, (user, index)) ==> r is None,
    {
        match indexed_find(&self.unlocks, user, index) {
            Some(i) => {
                proof {
                    lemma_keyed_index_is(self.unlocks@, (user, index), i as int);
                }
                Some(self.unlocks[i].1)
            },
            None => None,
        }
    }

    /// Number of restake entries recorded for `user`.
    pub fn get_blub_restake_count(&self, user: u64) -> (r: u32)
        requires
            self.wf(),
        ensures
            r == count_of(self.restake_counts@, user),
    {
        match keyed_find(&self.restake_counts, user) {
            Some(i) => {
                proof {
                    lemma_keyed_index_is(self.restake_counts@, user, i as int);
                }
                self.restake_counts[i].1
            },
            None => 0,
        }
    }

    /// The restake entry recorded for `user` at `index`, if any.
    pub fn get_blub_restake_by_index(&self, user: u64, index: u32) -> (r: Option<BlubRestakeEntry>)
        requires
            self.wf(),
        ensures
            keyed_has(self.restakes@, (user, index)) ==> r == Some(
                keyed_get(self.restakes@, (user, index)),
            ),
            !keyed_has(self.restakes@, (user, index)) ==> r is None,
    {
        match indexed_find(&self.restakes, user, index) {
            Some(i) => {
                proof {
                    lemma_keyed_index_is(self.restakes@, (user, index), i as int);
                }
                Some(self.restakes[i].1)
            },
            None => None,
        }
    }

    /// Number of recorded reward distributions.
    pub fn get_distribution_count(&self) -> (r: u32)
        ensures
            r == self.dist_count,
    {
        self.dist_count
    }

    /// The reward distribution recorded at `index`, if any.
    pub fn get_distribution_by_index(&self, index: u32) -> (r: Option<RewardDistribution>)
        requires
            self.wf(),
        ensures
            keyed_has(self.distributions@, index as u64) ==> r == Some(
                keyed_get(self.distributions@, index as u64),
            ),
            !keyed_has(self.distributions@, index as u64) ==> r is None,
    {
        match keyed_find(&self.distributions, index as u64) {
            Some(i) => {
                proof {
                    lemma_keyed_index_is(self.distributions@, index as u64, i as int);
                }
                Some(self.distributions[i].1)
            },
            None => None,
        }
    }

    /// The global accumulator state, once the registry is initialized.
    pub fn get_global_state(&self) -> (r: Option<GlobalState>)
        ensures
            self.is_init() ==> r == Some(self.global_state),
            !self.is_init() ==> r is None,
    {
        if self.config.is_some() {
            Some(self.global_state)
        } else {
            None
        }
    }

    /// The POL sub-ledger.
    pub fn get_protocol_owned_liquidity(&self) -> (r: ProtocolOwnedLiquidity)
        ensures
            r == self.pol,
    {
        self.pol
    }

    /// The POL snapshot recorded for `day`, if any.
    pub fn get_daily_pol_snapshot(&self, day: u64) -> (r: Option<ProtocolOwnedLiquidity>)
        requires
            self.wf(),
        ensures
            keyed_has(self.pol_snapshots@, day) ==> r == Some(keyed_get(self.pol_snapshots@, day)),
            !keyed_has(self.pol_snapshots@, day) ==> r is None,
    {
        match keyed_find(&self.pol_snapshots, day) {
            Some(i) => {
                proof {
                    lemma_keyed_index_is(self.pol_snapshots@, day, i as int);
                }
                Some(self.pol_snapshots[i].1)
            },
            None => None,
        }
    }

    /// Total POL contribution across `user`'s recorded locks.
    pub fn get_user_pol_contribution(&self, user: u64) -> (r: i128)
        requires
            self.wf(),
        ensures
            r == lock_pol_sum(
                self.locks@,
                user,
                count_of(self.lock_counts@, user) as int,
            ),
    {
        let count = self.get_user_lock_count(user);
        let mut total: i128 = 0;
        let mut i: u32 = 0;
        while i < count
            invariant
                self.wf(),
                0 <= i <= count,
                total == lock_pol_sum(self.locks@, user, i as int),
            decreases count - i,
        {
            match indexed_find(&self.locks, user, i) {
                Some(k) => {
                    proof {
                        lemma_keyed_index_is(self.locks@, (user, i), k as int);
                    }
                    total = sat_add_i128(total, self.locks[k].1.pol_contributed);
                },
                None => {
                },
            }
            i = i + 1;
        }
        total
    }
}

} // verus!

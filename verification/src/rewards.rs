//! The reward pool registry and the claim engine.
//!
//! One funding/distribution pool exists per reward class, tracking funded
//! against distributed totals.  Claims resolve an account's claimable
//! balance, enforce the cooldown and the min/max bounds, apply the streak
//! bonus and the performance fee, and settle against the pool — failing, not
//! clamping, whenever they would push `total_distributed` past
//! `total_funded`.  Every failure leaves the ledger untouched.

use vstd::prelude::*;
use crate::arith::{div_nonneg, MAX_BASIS_POINTS, SECONDS_PER_DAY};
use crate::table::{
    keyed_find, keyed_get, keyed_has, keyed_index, keyed_unique, lemma_keyed_index_is,
    lemma_keyed_push_unique, lemma_keyed_update_unique,
};
use vstd::arithmetic::div_mod::{lemma_div_is_ordered, lemma_div_multiples_vanish};
use vstd::arithmetic::mul::{lemma_mul_inequality, lemma_mul_nonnegative};

verus! {

/// Number of days a newly funded amount is amortized over.
pub const DISTRIBUTION_DAYS: i128 = 7;

/// Largest treasury fee in basis points (20%).
pub const MAX_TREASURY_FEE_BP: i128 = 2000;

/// Largest streak bonus in basis points (20%).
pub const MAX_STREAK_BONUS_BP: i128 = 2000;

/// Streak bonus earned per consecutive day, in basis points (1%).
pub const STREAK_BONUS_STEP_BP: i128 = 100;

/// The reward classes.
#[derive(Clone, Copy, Debug, PartialEq, Eq, Structural)]
pub enum RewardPoolType {
    Staking,
    Liquidity,
    Governance,
    Bonus,
}

/// Errors returned by the rewards ledger.
#[derive(Clone, Copy, Debug, PartialEq, Eq, Structural)]
pub enum RewardError {
    NotInitialized,
    AlreadyInitialized,
    Unauthorized,
    InsufficientRewards,
    NoRewardsToClaim,
    BelowMinimumClaim,
    AboveMaximumClaim,
    ContractPaused,
    InvalidConfiguration,
    ClaimCooldownActive,
    InvalidRewardPool,
    NumericOverflow,
    InvalidTimestamp,
    RewardPoolInactive,
}

/// One funding/distribution pool.
#[derive(Clone, Copy, Debug, PartialEq, Eq, Structural)]
pub struct RewardPool {
    pub total_rewards: i128,
    pub distributed_rewards: i128,
    pub last_distribution: u64,
    pub distribution_rate: i128,
    pub pool_type: RewardPoolType,
    pub active: bool,
}

/// Per-account reward bookkeeping.
#[derive(Clone, Copy, Debug, PartialEq, Eq, Structural)]
pub struct UserRewardInfo {
    pub total_earned: i128,
    pub total_claimed: i128,
    pub last_claim: u64,
    pub last_update: u64,
    pub claim_count: u32,
    /// Consecutive-day claim streak, for the streak bonus.
    pub streak: u32,
}

/// Configuration fixed at initialization, with the administrative switches.
#[derive(Clone, Copy, Debug, PartialEq, Eq, Structural)]
pub struct RewardConfig {
    pub admin: u64,
    pub staking_contract: u64,
    pub reward_token: u64,
    pub min_claim_amount: i128,
    pub max_claim_per_tx: i128,
    pub claim_cooldown: u64,
    pub emergency_pause: bool,
    pub treasury_address: u64,
    pub treasury_fee_rate: i128,
}

/// Aggregate distribution statistics.
#[derive(Clone, Copy, Debug, PartialEq, Eq, Structural)]
pub struct GlobalRewardStats {
    pub total_rewards_distributed: i128,
    pub total_unique_claimants: u32,
    pub last_stats_update: u64,
    pub average_claim_size: i128,
}

/// An immutable, append-only record of one successful claim, used for
/// cooldown and streak-bonus lookups.
#[derive(Clone, Copy, Debug, PartialEq, Eq, Structural)]
pub struct ClaimRecord {
    pub user: u64,
    pub claim_index: u32,
    pub amount: i128,
    pub bonus: i128,
    pub fee: i128,
    pub timestamp: u64,
}

/// A batch distribution acknowledgement, emitted for observability.
#[derive(Clone, Copy, Debug, PartialEq, Eq, Structural)]
pub struct BatchRewardProcessedEvent {
    pub pool_type: RewardPoolType,
    pub total_amount: i128,
    pub recipients_processed: u32,
    pub timestamp: u64,
}

/// Whether `t` names a pool in the registry.
pub open spec fn pool_has(s: Seq<RewardPool>, t: RewardPoolType) -> bool {
    exists|i: int| 0 <= i < s.len() && s[i].pool_type == t
}

/// Index of the pool of class `t`.
pub open spec fn pool_index(s: Seq<RewardPool>, t: RewardPoolType) -> int {
    choose|i: int| 0 <= i < s.len() && s[i].pool_type == t
}

/// The pool of class `t`.
pub open spec fn pool_of(s: Seq<RewardPool>, t: RewardPoolType) -> RewardPool {
    s[pool_index(s, t)]
}

/// At most one pool per reward class.
pub open spec fn pools_unique(s: Seq<RewardPool>) -> bool {
    forall|i: int, j: int| 0 <= i < j < s.len() ==> s[i].pool_type != s[j].pool_type
}

/// A pool conserves value: it never distributes more than was funded.
pub open spec fn pool_wf(p: RewardPool) -> bool {
    &&& 0 <= p.distributed_rewards <= p.total_rewards
    &&& 0 <= p.distribution_rate
}

/// An account never claims more than it earned.
pub open spec fn user_wf(u: UserRewardInfo) -> bool {
    0 <= u.total_claimed <= u.total_earned
}

/// In a registry with unique classes, `pool_index` resolves to the witness.
proof fn lemma_pool_index_is(s: Seq<RewardPool>, t: RewardPoolType, i: int)
    requires
        pools_unique(s),
        0 <= i < s.len(),
        s[i].pool_type == t,
    ensures
        pool_index(s, t) == i,
        pool_has(s, t),
{
    assert(0 <= i < s.len() && s[i].pool_type == t);
    let j = pool_index(s, t);
    if j != i {
        assert(s[i].pool_type != s[j].pool_type);
    }
}

/// The reward ledger: configuration, the pool registry, per-account
/// balances, the append-only claim history and aggregate statistics.
#[verifier::ext_equal]
pub struct RewardsContract {
    pub config: Option<RewardConfig>,
    pub pools: Vec<RewardPool>,
    pub user_rewards: Vec<(u64, UserRewardInfo)>,
    pub claim_history: Vec<ClaimRecord>,
    pub global_stats: GlobalRewardStats,
    pub snapshots: Vec<(u64, i128)>,
    pub fees_accrued: i128,
}

impl RewardsContract {
    /// The ledger invariant: per-pool and per-account conservation, unique
    /// keys, and validated configuration bounds.
    pub open spec fn wf(&self) -> bool {
        &&& pools_unique(self.pools@)
        &&& keyed_unique(self.user_rewards@)
        &&& keyed_unique(self.snapshots@)
        &&& (forall|i: int| 0 <= i < self.pools@.len() ==> pool_wf(#[trigger] self.pools@[i]))
        &&& (forall|i: int|
            0 <= i < self.user_rewards@.len() ==> user_wf((#[trigger] self.user_rewards@[i]).1))
        &&& 0 <= self.fees_accrued
        &&& 0 <= self.global_stats.total_rewards_distributed
        &&& 0 <= self.global_stats.average_claim_size
        &&& (match self.config {
            Some(c) => 0 < c.min_claim_amount < c.max_claim_per_tx && 0 <= c.treasury_fee_rate
                <= MAX_TREASURY_FEE_BP,
            None => true,
        })
    }

    pub open spec fn is_init(&self) -> bool {
        self.config is Some
    }

    pub open spec fn cfg(&self) -> RewardConfig {
        self.config->0
    }

    pub open spec fn paused(&self) -> bool {
        match self.config {
            Some(c) => c.emergency_pause,
            None => false,
        }
    }

    /// The claimable balance of `user`: earned but not yet claimed.
    pub open spec fn claimable_of(&self, user: u64) -> int {
        if keyed_has(self.user_rewards@, user) {
            let u = keyed_get(self.user_rewards@, user);
            u.total_earned - u.total_claimed
        } else {
            0
        }
    }

    /// A fresh, uninitialized ledger.
    pub fn new() -> (r: RewardsContract)
        ensures
            r.wf(),
            !r.is_init(),
            r.pools@.len() == 0,
            r.user_rewards@.len() == 0,
            r.claim_history@.len() == 0,
            r.snapshots@.len() == 0,
            r.fees_accrued == 0,
            r.global_stats == (GlobalRewardStats {
                total_rewards_distributed: 0,
                total_unique_claimants: 0,
                last_stats_update: 0,
                average_claim_size: 0,
            }),
    {
        RewardsContract {
            config: None,
            pools: Vec::new(),
            user_rewards: Vec::new(),
            claim_history: Vec::new(),
            global_stats: GlobalRewardStats {
                total_rewards_distributed: 0,
                total_unique_claimants: 0,
                last_stats_update: 0,
                average_claim_size: 0,
            },
            snapshots: Vec::new(),
            fees_accrued: 0,
        }
    }

    /// Initialize the ledger once: validate the parameter combination, store
    /// the configuration and open the Liquidity and Staking pools.
    pub fn initialize(
        &mut self,
        admin: u64,
        staking_contract: u64,
        reward_token: u64,
        treasury_address: u64,
        min_claim_amount: i128,
        max_claim_per_tx: i128,
        claim_cooldown: u64,
        treasury_fee_rate: i128,
        now: u64,
    ) -> (r: Result<(), RewardError>)
        requires
            old(self).wf(),
        ensures
            final(self).wf(),
            r is Err ==> *final(self) == *old(self),
            old(self).is_init() ==> r == Err::<(), RewardError>(RewardError::AlreadyInitialized),
            !old(self).is_init() && !(0 <= treasury_fee_rate <= MAX_TREASURY_FEE_BP && 0
                < min_claim_amount < max_claim_per_tx) ==> r == Err::<(), RewardError>(
                RewardError::InvalidConfiguration,
            ),
            r is Ok <==> !old(self).is_init() && 0 <= treasury_fee_rate <= MAX_TREASURY_FEE_BP
                && 0 < min_claim_amount < max_claim_per_tx,
            r is Ok ==> final(self).is_init() && final(self).cfg() == (RewardConfig {
                admin,
                staking_contract,
                reward_token,
                min_claim_amount,
                max_claim_per_tx,
                claim_cooldown,
                emergency_pause: false,
                treasury_address,
                treasury_fee_rate,
            }) && final(self).pools@.len() == 2 && final(self).pools@[0] == (RewardPool {
                total_rewards: 0,
                distributed_rewards: 0,
                last_distribution: now,
                distribution_rate: 0,
                pool_type: RewardPoolType::Liquidity,
                active: true,
            }) && final(self).pools@[1] == (RewardPool {
                total_rewards: 0,
                distributed_rewards: 0,
                last_distribution: now,
                distribution_rate: 0,
                pool_type: RewardPoolType::Staking,
                active: true,
            }) && final(self).user_rewards@ == old(self).user_rewards@
                && final(self).claim_history@ == old(self).claim_history@ && final(self).global_stats == (
            GlobalRewardStats {
                total_rewards_distributed: 0,
                total_unique_claimants: 0,
                last_stats_update: now,
                average_claim_size: 0,
            }) && final(self).fees_accrued == old(self).fees_accrued
                && final(self).snapshots@ == old(self).snapshots@,
    {
        if self.config.is_some() {
            return Err(RewardError::AlreadyInitialized);
        }
        if treasury_fee_rate > MAX_TREASURY_FEE_BP || treasury_fee_rate < 0 {
            return Err(RewardError::InvalidConfiguration);
        }
        if min_claim_amount >= max_claim_per_tx {
            return Err(RewardError::InvalidConfiguration);
        }
        if min_claim_amount <= 0 || max_claim_per_tx <= 0 {
            return Err(RewardError::InvalidConfiguration);
        }
        self.config = Some(
            RewardConfig {
                admin,
                staking_contract,
                reward_token,
                min_claim_amount,
                max_claim_per_tx,
                claim_cooldown,
                emergency_pause: false,
                treasury_address,
                treasury_fee_rate,
            },
        );
        let mut pools: Vec<RewardPool> = Vec::new();
        pools.push(
            RewardPool {
                total_rewards: 0,
                distributed_rewards: 0,
                last_distribution: now,
                distribution_rate: 0,
                pool_type: RewardPoolType::Liquidity,
                active: true,
            },
        );
        pools.push(
            RewardPool {
                total_rewards: 0,
                distributed_rewards: 0,
                last_distribution: now,
                distribution_rate: 0,
                pool_type: RewardPoolType::Staking,
                active: true,
            },
        );
        self.pools = pools;
        self.global_stats = GlobalRewardStats {
            total_rewards_distributed: 0,
            total_unique_claimants: 0,
            last_stats_update: now,
            average_claim_size: 0,
        };
        Ok(())
    }

    /// The stored configuration.
    pub fn get_config(&self) -> (r: Result<RewardConfig, RewardError>)
        ensures
            self.is_init() ==> r == Ok::<RewardConfig, RewardError>(self.cfg()),
            !self.is_init() ==> r == Err::<RewardConfig, RewardError>(RewardError::NotInitialized),
    {
        match self.config {
            Some(c) => Ok(c),
            None => Err(RewardError::NotInitialized),
        }
    }

    /// Index of the pool of class `t`.
    fn find_pool(&self, t: RewardPoolType) -> (r: Option<usize>)
        ensures
            match r {
                Some(i) => i < self.pools@.len() && self.pools@[i as int].pool_type == t,
                None => !pool_has(self.pools@, t),
            },
    {
        let n = self.pools.len();
        let mut j: usize = 0;
        while j < n
            invariant
                0 <= j <= n,
                n == self.pools@.len(),
                forall|k: int| 0 <= k < j ==> (#[trigger] self.pools@[k]).pool_type != t,
            decreases n - j,
        {
            if self.pools[j].pool_type == t {
                return Some(j);
            }
            j = j + 1;
        }
        None
    }

    /// Fund the pool of class `pool_type` and recompute its distribution
    /// rate as the funded remainder amortized over seven days.  Funding
    /// never rewrites past history: it only changes the future rate.
    pub fn fund_reward_pool(
        &mut self,
        admin: u64,
        pool_type: RewardPoolType,
        amount: i128,
        now: u64,
    ) -> (r: Result<(), RewardError>)
        requires
            old(self).wf(),
        ensures
            final(self).wf(),
            r is Err ==> *final(self) == *old(self),
            !old(self).is_init() ==> r == Err::<(), RewardError>(RewardError::NotInitialized),
            old(self).is_init() && admin != old(self).cfg().admin ==> r == Err::<(), RewardError>(
                RewardError::Unauthorized,
            ),
            old(self).is_init() && admin == old(self).cfg().admin && old(self).paused() ==> r
                == Err::<(), RewardError>(RewardError::ContractPaused),
            old(self).is_init() && admin == old(self).cfg().admin && !old(self).paused() && amount
                <= 0 ==> r == Err::<(), RewardError>(RewardError::InvalidConfiguration),
            old(self).is_init() && admin == old(self).cfg().admin && !old(self).paused() && amount
                > 0 && !pool_has(old(self).pools@, pool_type) ==> r == Err::<(), RewardError>(
                RewardError::InvalidRewardPool,
            ),
            old(self).is_init() && admin == old(self).cfg().admin && !old(self).paused() && amount
                > 0 && pool_has(old(self).pools@, pool_type) && !pool_of(
                old(self).pools@,
                pool_type,
            ).active ==> r == Err::<(), RewardError>(RewardError::RewardPoolInactive),
            old(self).is_init() && admin == old(self).cfg().admin && !old(self).paused() && amount
                > 0 && pool_has(old(self).pools@, pool_type) && pool_of(
                old(self).pools@,
                pool_type,
            ).active && pool_of(old(self).pools@, pool_type).total_rewards + amount > i128::MAX
                ==> r == Err::<(), RewardError>(RewardError::NumericOverflow),
            r is Ok <==> old(self).is_init() && admin == old(self).cfg().admin && !old(
                self,
            ).paused() && amount > 0 && pool_has(old(self).pools@, pool_type) && pool_of(
                old(self).pools@,
                pool_type,
            ).active && pool_of(old(self).pools@, pool_type).total_rewards + amount <= i128::MAX,
            r is Ok ==> ({
                let i = pool_index(old(self).pools@, pool_type);
                let p = old(self).pools@[i];
                *final(self) == (RewardsContract {
                    pools: final(self).pools,
                    ..*old(self)
                }) && final(self).pools@ == old(self).pools@.update(
                    i,
                    (RewardPool {
                        total_rewards: (p.total_rewards + amount) as i128,
                        distribution_rate: ((p.total_rewards + amount - p.distributed_rewards)
                            / (DISTRIBUTION_DAYS as int)) as i128,
                        last_distribution: now,
                        ..p
                    }),
                )
            }),
    {
        let cfg = match self.config {
            Some(c) => c,
            None => { return Err(RewardError::NotInitialized) },
        };
        if admin != cfg.admin {
            return Err(RewardError::Unauthorized);
        }
        if cfg.emergency_pause {
            return Err(RewardError::ContractPaused);
        }
        if amount <= 0 {
            return Err(RewardError::InvalidConfiguration);
        }
        let i = match self.find_pool(pool_type) {
            Some(i) => i,
            None => { return Err(RewardError::InvalidRewardPool) },
        };
        let p = self.pools[i];
        proof {
            lemma_pool_index_is(self.pools@, pool_type, i as int);
        }
        if !p.active {
            return Err(RewardError::RewardPoolInactive);
        }
        let total = match p.total_rewards.checked_add(amount) {
            Some(v) => v,
            None => { return Err(RewardError::NumericOverflow) },
        };
        let np = RewardPool {
            total_rewards: total,
            distribution_rate: div_nonneg(total - p.distributed_rewards, DISTRIBUTION_DAYS),
            last_distribution: now,
            ..p
        };
        proof {
            let ghost ps = old(self).pools@[pool_index(old(self).pools@, pool_type)];
            assert(ps == p);
            assert(np == (RewardPool {
                total_rewards: (ps.total_rewards + amount) as i128,
                distribution_rate: ((ps.total_rewards + amount - ps.distributed_rewards) / (
                DISTRIBUTION_DAYS as int)) as i128,
                last_distribution: now,
                ..ps
            }));
        }
        self.pools[i] = np;
        proof {
            assert(*final(self) =~= (RewardsContract { pools: final(self).pools, ..*old(self) }));
            assert forall|k: int| 0 <= k < self.pools@.len() implies pool_wf(
                #[trigger] self.pools@[k],
            ) by {
                if k != i as int {
                    assert(self.pools@[k] == old(self).pools@[k]);
                }
            }
        }
        Ok(())
    }

    /// Estimate the daily reward share of a stake of `user_stake_amount`
    /// against `total_stake_amount`, from the pool's distribution rate.
    pub fn estimate_user_rewards(
        &self,
        pool_type: RewardPoolType,
        user_stake_amount: i128,
        total_stake_amount: i128,
    ) -> (r: Result<i128, RewardError>)
        requires
            self.wf(),
        ensures
            user_stake_amount <= 0 || total_stake_amount <= 0 ==> r == Ok::<i128, RewardError>(0),
            user_stake_amount > 0 && total_stake_amount > 0 && !pool_has(self.pools@, pool_type)
                ==> r == Err::<i128, RewardError>(RewardError::InvalidRewardPool),
            user_stake_amount > 0 && total_stake_amount > 0 && pool_has(self.pools@, pool_type)
                && user_stake_amount * MAX_BASIS_POINTS > i128::MAX ==> r == Err::<
                i128,
                RewardError,
            >(RewardError::NumericOverflow),
            user_stake_amount > 0 && total_stake_amount > 0 && pool_has(self.pools@, pool_type)
                && user_stake_amount * MAX_BASIS_POINTS <= i128::MAX && pool_of(
                self.pools@,
                pool_type,
            ).distribution_rate * (user_stake_amount * MAX_BASIS_POINTS / (total_stake_amount as int))
                > i128::MAX ==> r == Err::<i128, RewardError>(RewardError::NumericOverflow),
            user_stake_amount > 0 && total_stake_amount > 0 && pool_has(self.pools@, pool_type)
                && user_stake_amount * MAX_BASIS_POINTS <= i128::MAX && pool_of(
                self.pools@,
                pool_type,
            ).distribution_rate * (user_stake_amount * MAX_BASIS_POINTS / (total_stake_amount as int))
                <= i128::MAX ==> r == Ok::<i128, RewardError>(
                (pool_of(self.pools@, pool_type).distribution_rate * (user_stake_amount
                    * MAX_BASIS_POINTS / (total_stake_amount as int)) / (
                MAX_BASIS_POINTS as int)) as i128,
            ),
    {
        if user_stake_amount <= 0 || total_stake_amount <= 0 {
            return Ok(0);
        }
        let i = match self.find_pool(pool_type) {
            Some(i) => i,
            None => { return Err(RewardError::InvalidRewardPool) },
        };
        let p = self.pools[i];
        proof {
            lemma_pool_index_is(self.pools@, pool_type, i as int);
            lemma_mul_nonnegative(user_stake_amount as int, MAX_BASIS_POINTS as int);
        }
        let scaled = match user_stake_amount.checked_mul(MAX_BASIS_POINTS) {
            Some(v) => v,
            None => { return Err(RewardError::NumericOverflow) },
        };
        let user_percentage = div_nonneg(scaled, total_stake_amount);
        proof {
            lemma_mul_nonnegative(p.distribution_rate as int, user_percentage as int);
        }
        let prod = match p.distribution_rate.checked_mul(user_percentage) {
            Some(v) => v,
            None => { return Err(RewardError::NumericOverflow) },
        };
        Ok(div_nonneg(prod, MAX_BASIS_POINTS))
    }
}


/// The claim streak that a claim at `now` establishes: one more than before
/// when the previous claim happened exactly one day earlier, else reset to 1.
pub open spec fn next_streak(u: UserRewardInfo, now: u64) -> u32 {
    if streak_continues(u, now) {
        if u.streak < u32::MAX {
            (u.streak + 1) as u32
        } else {
            u.streak
        }
    } else {
        1
    }
}

/// Whether a claim at `now` continues a daily streak: the previous claim
/// happened exactly one day earlier.
pub open spec fn streak_continues(u: UserRewardInfo, now: u64) -> bool {
    u.claim_count > 0 && now == u.last_claim + SECONDS_PER_DAY
}

/// The streak bonus rate in basis points: 1% per consecutive day, capped at
/// 20%; a broken streak earns no bonus.
pub open spec fn claim_bonus_rate(u: UserRewardInfo, now: u64) -> int {
    if streak_continues(u, now) {
        let ns = next_streak(u, now);
        if ns * STREAK_BONUS_STEP_BP > MAX_STREAK_BONUS_BP {
            MAX_STREAK_BONUS_BP as int
        } else {
            ns * STREAK_BONUS_STEP_BP
        }
    } else {
        0
    }
}

/// The streak bonus on a claimable amount.
pub open spec fn bonus_of(claimable: int, u: UserRewardInfo, now: u64) -> int {
    claimable * claim_bonus_rate(u, now) / (MAX_BASIS_POINTS as int)
}

impl RewardsContract {
    /// Claimable plus streak bonus, before the performance fee.
    pub open spec fn claim_gross(&self, user: u64, now: u64) -> int {
        let u = keyed_get(self.user_rewards@, user);
        let cl = u.total_earned - u.total_claimed;
        cl + bonus_of(cl, u, now)
    }

    /// The performance fee on a claim, in basis points of the gross amount;
    /// it accrues to the fee accumulator, never to the distributable pool.
    pub open spec fn claim_fee(&self, user: u64, now: u64) -> int {
        self.claim_gross(user, now) * self.cfg().treasury_fee_rate / (MAX_BASIS_POINTS as int)
    }

    /// What a claim pays out: gross minus the performance fee.
    pub open spec fn claim_net(&self, user: u64, now: u64) -> int {
        self.claim_gross(user, now) - self.claim_fee(user, now)
    }

    /// The claim engine's decision, in the order the checks are made: the
    /// first failing guard names the error; `None` means the claim goes
    /// through.
    pub open spec fn claim_error(&self, user: u64, pool_type: RewardPoolType, now: u64) -> Option<
        RewardError,
    > {
        if !self.is_init() {
            Some(RewardError::NotInitialized)
        } else if self.paused() {
            Some(RewardError::ContractPaused)
        } else if !keyed_has(self.user_rewards@, user) {
            Some(RewardError::NoRewardsToClaim)
        } else {
            let u = keyed_get(self.user_rewards@, user);
            let c = self.cfg();
            let cl = u.total_earned - u.total_claimed;
            if now < u.last_claim + c.claim_cooldown {
                Some(RewardError::ClaimCooldownActive)
            } else if cl <= 0 {
                Some(RewardError::NoRewardsToClaim)
            } else if cl < c.min_claim_amount {
                Some(RewardError::BelowMinimumClaim)
            } else if cl > c.max_claim_per_tx {
                Some(RewardError::AboveMaximumClaim)
            } else if !pool_has(self.pools@, pool_type) {
                Some(RewardError::InvalidRewardPool)
            } else if !pool_of(self.pools@, pool_type).active {
                Some(RewardError::RewardPoolInactive)
            } else if cl * claim_bonus_rate(u, now) > i128::MAX {
                Some(RewardError::NumericOverflow)
            } else if self.claim_gross(user, now) > i128::MAX {
                Some(RewardError::NumericOverflow)
            } else if self.claim_gross(user, now) * c.treasury_fee_rate > i128::MAX {
                Some(RewardError::NumericOverflow)
            } else if self.fees_accrued + self.claim_fee(user, now) > i128::MAX {
                Some(RewardError::NumericOverflow)
            } else if self.global_stats.total_rewards_distributed + cl > i128::MAX {
                Some(RewardError::NumericOverflow)
            } else if self.claim_net(user, now) > pool_of(self.pools@, pool_type).total_rewards
                - pool_of(self.pools@, pool_type).distributed_rewards {
                Some(RewardError::InsufficientRewards)
            } else {
                None
            }
        }
    }

    /// Claim `user`'s rewards against the pool of class `pool_type`.
    ///
    /// The guards run in the order of `claim_error`; any failure aborts the
    /// whole claim with no state change.  On success the account's balance
    /// is marked fully claimed, the streak and claim count advance, an
    /// immutable history entry is appended, the pool's distributed total
    /// grows by the net amount, the fee accrues separately, and the paid
    /// amount (gross minus fee) is returned.
    pub fn claim_rewards(&mut self, user: u64, pool_type: RewardPoolType, now: u64) -> (r: Result<
        i128,
        RewardError,
    >)
        requires
            old(self).wf(),
        ensures
            final(self).wf(),
            r is Err ==> *final(self) == *old(self) && (old(self).claim_error(
                user,
                pool_type,
                now,
            ) matches Some(e) && r == Err::<i128, RewardError>(e)),
            r is Ok <==> old(self).claim_error(user, pool_type, now) is None,
            r is Ok ==> ({
                let u = keyed_get(old(self).user_rewards@, user);
                let ui = keyed_index(old(self).user_rewards@, user);
                let pi = pool_index(old(self).pools@, pool_type);
                let p = old(self).pools@[pi];
                let cl = u.total_earned - u.total_claimed;
                let ns = next_streak(u, now);
                let fee = old(self).claim_fee(user, now);
                let net = old(self).claim_net(user, now);
                let nc = if u.claim_count < u32::MAX {
                    (u.claim_count + 1) as u32
                } else {
                    u.claim_count
                };
                let ncl = if old(self).global_stats.total_unique_claimants < u32::MAX {
                    (old(self).global_stats.total_unique_claimants + 1) as u32
                } else {
                    old(self).global_stats.total_unique_claimants
                };
                let ntotal = old(self).global_stats.total_rewards_distributed + cl;
                &&& r == Ok::<i128, RewardError>(net as i128)
                &&& final(self).config == old(self).config
                &&& final(self).user_rewards@ == old(self).user_rewards@.update(
                    ui,
                    (
                        user,
                        UserRewardInfo {
                            total_claimed: u.total_earned,
                            last_claim: now,
                            claim_count: nc,
                            streak: ns,
                            ..u
                        },
                    ),
                )
                &&& final(self).claim_history@ == old(self).claim_history@.push(
                    ClaimRecord {
                        user,
                        claim_index: nc,
                        amount: cl as i128,
                        bonus: bonus_of(cl, u, now) as i128,
                        fee: fee as i128,
                        timestamp: now,
                    },
                )
                &&& final(self).pools@ == old(self).pools@.update(
                    pi,
                    (RewardPool { distributed_rewards: (p.distributed_rewards + net) as i128, ..p
                    }),
                )
                &&& final(self).fees_accrued == old(self).fees_accrued + fee
                &&& final(self).global_stats == (GlobalRewardStats {
                    total_rewards_distributed: ntotal as i128,
                    total_unique_claimants: ncl,
                    last_stats_update: now,
                    average_claim_size: (ntotal / (ncl as int)) as i128,
                })
                &&& final(self).snapshots@ == old(self).snapshots@
                &&& final(self).claimable_of(user) == 0
            }),
    {
        let cfg = match self.config {
            Some(c) => c,
            None => { return Err(RewardError::NotInitialized) },
        };
        if cfg.emergency_pause {
            return Err(RewardError::ContractPaused);
        }
        let ui = match keyed_find(&self.user_rewards, user) {
            Some(i) => i,
            None => { return Err(RewardError::NoRewardsToClaim) },
        };
        let u = self.user_rewards[ui].1;
        proof {
            lemma_keyed_index_is(self.user_rewards@, user, ui as int);
        }
        let cooled = match u.last_claim.checked_add(cfg.claim_cooldown) {
            Some(t) => now >= t,
            None => false,
        };
        if !cooled {
            return Err(RewardError::ClaimCooldownActive);
        }
        let cl = u.total_earned - u.total_claimed;
        if cl <= 0 {
            return Err(RewardError::NoRewardsToClaim);
        }
        if cl < cfg.min_claim_amount {
            return Err(RewardError::BelowMinimumClaim);
        }
        if cl > cfg.max_claim_per_tx {
            return Err(RewardError::AboveMaximumClaim);
        }
        let pi = match self.find_pool(pool_type) {
            Some(i) => i,
            None => { return Err(RewardError::InvalidRewardPool) },
        };
        let p = self.pools[pi];
        proof {
            lemma_pool_index_is(self.pools@, pool_type, pi as int);
        }
        if !p.active {
            return Err(RewardError::RewardPoolInactive);
        }
        let streak_hit = u.claim_count > 0 && match u.last_claim.checked_add(SECONDS_PER_DAY) {
            Some(t) => now == t,
            None => false,
        };
        let ns: u32 = if streak_hit {
            if u.streak < u32::MAX {
                u.streak + 1
            } else {
                u.streak
            }
        } else {
            1
        };
        let brate: i128 = if streak_hit {
            if ns > 20 {
                MAX_STREAK_BONUS_BP
            } else {
                (ns as i128) * STREAK_BONUS_STEP_BP
            }
        } else {
            0
        };
        proof {
            assert(ns == next_streak(u, now));
            assert(brate == claim_bonus_rate(u, now));
            lemma_mul_nonnegative(cl as int, brate as int);
        }
        let bprod = match cl.checked_mul(brate) {
            Some(v) => v,
            None => { return Err(RewardError::NumericOverflow) },
        };
        let bonus = div_nonneg(bprod, MAX_BASIS_POINTS);
        let gross = match cl.checked_add(bonus) {
            Some(v) => v,
            None => { return Err(RewardError::NumericOverflow) },
        };
        proof {
            lemma_mul_nonnegative(gross as int, cfg.treasury_fee_rate as int);
            lemma_mul_inequality(
                cfg.treasury_fee_rate as int,
                MAX_BASIS_POINTS as int,
                gross as int,
            );
            assert(gross * cfg.treasury_fee_rate == cfg.treasury_fee_rate * gross)
                by (nonlinear_arith);
            assert(gross * MAX_BASIS_POINTS == MAX_BASIS_POINTS * gross) by (nonlinear_arith);
            lemma_div_is_ordered(
                gross * (cfg.treasury_fee_rate as int),
                gross * (MAX_BASIS_POINTS as int),
                MAX_BASIS_POINTS as int,
            );
            lemma_div_multiples_vanish(gross as int, MAX_BASIS_POINTS as int);
            assert(gross * (MAX_BASIS_POINTS as int) == (MAX_BASIS_POINTS as int) * (
            gross as int)) by (nonlinear_arith);
        }
        let fprod = match gross.checked_mul(cfg.treasury_fee_rate) {
            Some(v) => v,
            None => { return Err(RewardError::NumericOverflow) },
        };
        let fee = div_nonneg(fprod, MAX_BASIS_POINTS);
        let net = gross - fee;
        let new_fees = match self.fees_accrued.checked_add(fee) {
            Some(v) => v,
            None => { return Err(RewardError::NumericOverflow) },
        };
        let ntotal = match self.global_stats.total_rewards_distributed.checked_add(cl) {
            Some(v) => v,
            None => { return Err(RewardError::NumericOverflow) },
        };
        if net > p.total_rewards - p.distributed_rewards {
            return Err(RewardError::InsufficientRewards);
        }
        let nc: u32 = if u.claim_count < u32::MAX {
            u.claim_count + 1
        } else {
            u.claim_count
        };
        let ncl: u32 = if self.global_stats.total_unique_claimants < u32::MAX {
            self.global_stats.total_unique_claimants + 1
        } else {
            self.global_stats.total_unique_claimants
        };
        let nu = UserRewardInfo {
            total_claimed: u.total_earned,
            last_claim: now,
            claim_count: nc,
            streak: ns,
            total_earned: u.total_earned,
            last_update: u.last_update,
        };
        self.user_rewards[ui] = (user, nu);
        self.claim_history.push(
            ClaimRecord { user, claim_index: nc, amount: cl, bonus, fee, timestamp: now },
        );
        let np = RewardPool { distributed_rewards: p.distributed_rewards + net, ..p };
        self.pools[pi] = np;
        self.fees_accrued = new_fees;
        self.global_stats = GlobalRewardStats {
            total_rewards_distributed: ntotal,
            total_unique_claimants: ncl,
            last_stats_update: now,
            average_claim_size: div_nonneg(ntotal, ncl as i128),
        };
        proof {
            assert(old(self).claim_error(user, pool_type, now) is None);
            assert forall|k: int| 0 <= k < self.pools@.len() implies pool_wf(
                #[trigger] self.pools@[k],
            ) by {
                if k == pi as int {
                    assert(self.pools@[k] == np);
                } else {
                    assert(self.pools@[k] == old(self).pools@[k]);
                }
            }
            assert forall|k: int| 0 <= k < self.user_rewards@.len() implies user_wf(
                (#[trigger] self.user_rewards@[k]).1,
            ) by {
                if k == ui as int {
                    assert(self.user_rewards@[k].1 == nu);
                } else {
                    assert(self.user_rewards@[k] == old(self).user_rewards@[k]);
                }
            }
            lemma_keyed_update_unique(old(self).user_rewards@, ui as int, nu);
            assert forall|a: int, b: int|
                0 <= a < b < self.pools@.len() implies (#[trigger] self.pools@[a]).pool_type != (
            #[trigger] self.pools@[b]).pool_type by {
                assert(self.pools@[a].pool_type == old(self).pools@[a].pool_type);
                assert(self.pools@[b].pool_type == old(self).pools@[b].pool_type);
            }
            lemma_keyed_index_is(self.user_rewards@, user, ui as int);
        }
        Ok(net)
    }
}


impl RewardsContract {
    /// Record a backend-computed batch distribution against a pool, checking
    /// the funded remainder; the per-account crediting follows through
    /// `credit_user_reward`.
    pub fn process_batch_rewards(
        &mut self,
        admin: u64,
        pool_type: RewardPoolType,
        total_pool_amount: i128,
        treasury_amount: i128,
        now: u64,
    ) -> (r: Result<BatchRewardProcessedEvent, RewardError>)
        requires
            old(self).wf(),
        ensures
            final(self).wf(),
            r is Err ==> *final(self) == *old(self),
            !old(self).is_init() ==> r == Err::<BatchRewardProcessedEvent, RewardError>(
                RewardError::NotInitialized,
            ),
            old(self).is_init() && admin != old(self).cfg().admin ==> r == Err::<
                BatchRewardProcessedEvent,
                RewardError,
            >(RewardError::Unauthorized),
            old(self).is_init() && admin == old(self).cfg().admin && old(self).paused() ==> r
                == Err::<BatchRewardProcessedEvent, RewardError>(RewardError::ContractPaused),
            old(self).is_init() && admin == old(self).cfg().admin && !old(self).paused() && (
            total_pool_amount < 0 || treasury_amount < 0) ==> r == Err::<
                BatchRewardProcessedEvent,
                RewardError,
            >(RewardError::InvalidConfiguration),
            old(self).is_init() && admin == old(self).cfg().admin && !old(self).paused()
                && total_pool_amount >= 0 && treasury_amount >= 0 && !pool_has(
                old(self).pools@,
                pool_type,
            ) ==> r == Err::<BatchRewardProcessedEvent, RewardError>(
                RewardError::InvalidRewardPool,
            ),
            old(self).is_init() && admin == old(self).cfg().admin && !old(self).paused()
                && total_pool_amount >= 0 && treasury_amount >= 0 && pool_has(
                old(self).pools@,
                pool_type,
            ) && !pool_of(old(self).pools@, pool_type).active ==> r == Err::<
                BatchRewardProcessedEvent,
                RewardError,
            >(RewardError::RewardPoolInactive),
            old(self).is_init() && admin == old(self).cfg().admin && !old(self).paused()
                && total_pool_amount >= 0 && treasury_amount >= 0 && pool_has(
                old(self).pools@,
                pool_type,
            ) && pool_of(old(self).pools@, pool_type).active && (total_pool_amount
                + treasury_amount > i128::MAX || old(
                self,
            ).global_stats.total_rewards_distributed + total_pool_amount > i128::MAX) ==> r
                == Err::<BatchRewardProcessedEvent, RewardError>(RewardError::NumericOverflow),
            old(self).is_init() && admin == old(self).cfg().admin && !old(self).paused()
                && total_pool_amount >= 0 && treasury_amount >= 0 && pool_has(
                old(self).pools@,
                pool_type,
            ) && pool_of(old(self).pools@, pool_type).active && total_pool_amount
                + treasury_amount <= i128::MAX && old(self).global_stats.total_rewards_distributed
                + total_pool_amount <= i128::MAX && total_pool_amount + treasury_amount > pool_of(
                old(self).pools@,
                pool_type,
            ).total_rewards - pool_of(old(self).pools@, pool_type).distributed_rewards ==> r
                == Err::<BatchRewardProcessedEvent, RewardError>(RewardError::InsufficientRewards),
            r is Ok <==> old(self).is_init() && admin == old(self).cfg().admin && !old(
                self,
            ).paused() && total_pool_amount >= 0 && treasury_amount >= 0 && pool_has(
                old(self).pools@,
                pool_type,
            ) && pool_of(old(self).pools@, pool_type).active && total_pool_amount
                + treasury_amount <= i128::MAX && old(self).global_stats.total_rewards_distributed
                + total_pool_amount <= i128::MAX && total_pool_amount + treasury_amount <= pool_of(
                old(self).pools@,
                pool_type,
            ).total_rewards - pool_of(old(self).pools@, pool_type).distributed_rewards,
            r is Ok ==> ({
                let pi = pool_index(old(self).pools@, pool_type);
                let p = old(self).pools@[pi];
                let td = total_pool_amount + treasury_amount;
                let ncl = old(self).global_stats.total_unique_claimants;
                let ntotal = old(self).global_stats.total_rewards_distributed
                    + total_pool_amount;
                &&& r == Ok::<BatchRewardProcessedEvent, RewardError>(
                    BatchRewardProcessedEvent {
                        pool_type,
                        total_amount: total_pool_amount,
                        recipients_processed: 0,
                        timestamp: now,
                    },
                )
                &&& final(self).config == old(self).config
                &&& final(self).pools@ == old(self).pools@.update(
                    pi,
                    (RewardPool {
                        distributed_rewards: (p.distributed_rewards + td) as i128,
                        last_distribution: now,
                        ..p
                    }),
                )
                &&& final(self).user_rewards@ == old(self).user_rewards@
                &&& final(self).claim_history@ == old(self).claim_history@
                &&& final(self).fees_accrued == old(self).fees_accrued
                &&& final(self).global_stats == (GlobalRewardStats {
                    total_rewards_distributed: ntotal as i128,
                    total_unique_claimants: ncl,
                    last_stats_update: now,
                    average_claim_size: (if ncl > 0 {
                        ntotal / (ncl as int)
                    } else {
                        0
                    }) as i128,
                })
                &&& final(self).snapshots@ == (if keyed_has(old(self).snapshots@, now
                    / SECONDS_PER_DAY) {
                    old(self).snapshots@.update(
                        keyed_index(old(self).snapshots@, now / SECONDS_PER_DAY),
                        (now / SECONDS_PER_DAY, td as i128),
                    )
                } else {
                    old(self).snapshots@.push((now / SECONDS_PER_DAY, td as i128))
                })
            }),
    {
        let cfg = match self.config {
            Some(c) => c,
            None => { return Err(RewardError::NotInitialized) },
        };
        if admin != cfg.admin {
            return Err(RewardError::Unauthorized);
        }
        if cfg.emergency_pause {
            return Err(RewardError::ContractPaused);
        }
        if total_pool_amount < 0 || treasury_amount < 0 {
            return Err(RewardError::InvalidConfiguration);
        }
        let pi = match self.find_pool(pool_type) {
            Some(i) => i,
            None => { return Err(RewardError::InvalidRewardPool) },
        };
        let p = self.pools[pi];
        proof {
            lemma_pool_index_is(self.pools@, pool_type, pi as int);
        }
        if !p.active {
            return Err(RewardError::RewardPoolInactive);
        }
        let td = match total_pool_amount.checked_add(treasury_amount) {
            Some(v) => v,
            None => { return Err(RewardError::NumericOverflow) },
        };
        let ntotal = match self.global_stats.total_rewards_distributed.checked_add(
            total_pool_amount,
        ) {
            Some(v) => v,
            None => { return Err(RewardError::NumericOverflow) },
        };
        if td > p.total_rewards - p.distributed_rewards {
            return Err(RewardError::InsufficientRewards);
        }
        let np = RewardPool {
            distributed_rewards: p.distributed_rewards + td,
            last_distribution: now,
            ..p
        };
        self.pools[pi] = np;
        let ncl = self.global_stats.total_unique_claimants;
        self.global_stats = GlobalRewardStats {
            total_rewards_distributed: ntotal,
            total_unique_claimants: ncl,
            last_stats_update: now,
            average_claim_size: if ncl > 0 {
                div_nonneg(ntotal, ncl as i128)
            } else {
                0
            },
        };
        let day = now / SECONDS_PER_DAY;
        match keyed_find(&self.snapshots, day) {
            Some(si) => {
                proof {
                    lemma_keyed_index_is(old(self).snapshots@, day, si as int);
                    lemma_keyed_update_unique(old(self).snapshots@, si as int, td);
                }
                self.snapshots[si] = (day, td);
            },
            None => {
                proof {
                    lemma_keyed_push_unique(self.snapshots@, day, td);
                }
                self.snapshots.push((day, td));
            },
        }
        proof {
            assert forall|k: int| 0 <= k < self.pools@.len() implies pool_wf(
                #[trigger] self.pools@[k],
            ) by {
                if k == pi as int {
                    assert(self.pools@[k] == np);
                } else {
                    assert(self.pools@[k] == old(self).pools@[k]);
                }
            }
            assert forall|a: int, b: int|
                0 <= a < b < self.pools@.len() implies (#[trigger] self.pools@[a]).pool_type != (
            #[trigger] self.pools@[b]).pool_type by {
                assert(self.pools@[a].pool_type == old(self).pools@[a].pool_type);
                assert(self.pools@[b].pool_type == old(self).pools@[b].pool_type);
            }
        }
        Ok(
            BatchRewardProcessedEvent {
                pool_type,
                total_amount: total_pool_amount,
                recipients_processed: 0,
                timestamp: now,
            },
        )
    }

    /// Credit an individual account with an earned reward amount, creating
    /// its record on first credit.
    pub fn credit_user_reward(&mut self, admin: u64, user: u64, amount: i128, now: u64) -> (r:
        Result<(), RewardError>)
        requires
            old(self).wf(),
        ensures
            final(self).wf(),
            r is Err ==> *final(self) == *old(self),
            !old(self).is_init() ==> r == Err::<(), RewardError>(RewardError::NotInitialized),
            old(self).is_init() && admin != old(self).cfg().admin ==> r == Err::<(), RewardError>(
                RewardError::Unauthorized,
            ),
            old(self).is_init() && admin == old(self).cfg().admin && amount <= 0 ==> r == Err::<
                (),
                RewardError,
            >(RewardError::InvalidConfiguration),
            old(self).is_init() && admin == old(self).cfg().admin && amount > 0 && keyed_has(
                old(self).user_rewards@,
                user,
            ) && keyed_get(old(self).user_rewards@, user).total_earned + amount > i128::MAX ==> r
                == Err::<(), RewardError>(RewardError::NumericOverflow),
            r is Ok <==> old(self).is_init() && admin == old(self).cfg().admin && amount > 0 && (
            keyed_has(old(self).user_rewards@, user) ==> keyed_get(
                old(self).user_rewards@,
                user,
            ).total_earned + amount <= i128::MAX),
            r is Ok ==> ({
                &&& *final(self) == (RewardsContract {
                    user_rewards: final(self).user_rewards,
                    ..*old(self)
                })
                &&& (if keyed_has(old(self).user_rewards@, user) {
                    final(self).user_rewards@ == old(self).user_rewards@.update(
                        keyed_index(old(self).user_rewards@, user),
                        (
                            user,
                            (UserRewardInfo {
                                total_earned: (keyed_get(
                                    old(self).user_rewards@,
                                    user,
                                ).total_earned + amount) as i128,
                                last_update: now,
                                ..keyed_get(old(self).user_rewards@, user)
                            }),
                        ),
                    )
                } else {
                    final(self).user_rewards@ == old(self).user_rewards@.push(
                        (
                            user,
                            (UserRewardInfo {
                                total_earned: amount,
                                total_claimed: 0,
                                last_claim: 0,
                                last_update: now,
                                claim_count: 0,
                                streak: 0,
                            }),
                        ),
                    )
                })
            }),
    {
        let cfg = match self.config {
            Some(c) => c,
            None => { return Err(RewardError::NotInitialized) },
        };
        if admin != cfg.admin {
            return Err(RewardError::Unauthorized);
        }
        if amount <= 0 {
            return Err(RewardError::InvalidConfiguration);
        }
        match keyed_find(&self.user_rewards, user) {
            Some(i) => {
                let u = self.user_rewards[i].1;
                proof {
                    lemma_keyed_index_is(self.user_rewards@, user, i as int);
                }
                let earned = match u.total_earned.checked_add(amount) {
                    Some(v) => v,
                    None => { return Err(RewardError::NumericOverflow) },
                };
                let nu = UserRewardInfo { total_earned: earned, last_update: now, ..u };
                self.user_rewards[i] = (user, nu);
                proof {
                    lemma_keyed_update_unique(old(self).user_rewards@, i as int, nu);
                    assert(*final(self) =~= (RewardsContract {
                        user_rewards: final(self).user_rewards,
                        ..*old(self)
                    }));
                    assert forall|k: int| 0 <= k < self.user_rewards@.len() implies user_wf(
                        (#[trigger] self.user_rewards@[k]).1,
                    ) by {
                        if k == i as int {
                            assert(self.user_rewards@[k].1 == nu);
                        } else {
                            assert(self.user_rewards@[k] == old(self).user_rewards@[k]);
                        }
                    }
                }
                Ok(())
            },
            None => {
                let nu = UserRewardInfo {
                    total_earned: amount,
                    total_claimed: 0,
                    last_claim: 0,
                    last_update: now,
                    claim_count: 0,
                    streak: 0,
                };
                proof {
                    lemma_keyed_push_unique(self.user_rewards@, user, nu);
                }
                self.user_rewards.push((user, nu));
                proof {
                    assert(*final(self) =~= (RewardsContract {
                        user_rewards: final(self).user_rewards,
                        ..*old(self)
                    }));
                    assert forall|k: int| 0 <= k < self.user_rewards@.len() implies user_wf(
                        (#[trigger] self.user_rewards@[k]).1,
                    ) by {
                        if k < self.user_rewards@.len() - 1 {
                            assert(self.user_rewards@[k] == old(self).user_rewards@[k]);
                        } else {
                            assert(self.user_rewards@[k].1 == nu);
                        }
                    }
                }
                Ok(())
            },
        }
    }

    /// Pause or resume the ledger's mutating operations.
    pub fn set_emergency_pause(&mut self, admin: u64, paused: bool) -> (r: Result<
        (),
        RewardError,
    >)
        requires
            old(self).wf(),
        ensures
            final(self).wf(),
            r is Err ==> *final(self) == *old(self),
            !old(self).is_init() ==> r == Err::<(), RewardError>(RewardError::NotInitialized),
            old(self).is_init() && admin != old(self).cfg().admin ==> r == Err::<(), RewardError>(
                RewardError::Unauthorized,
            ),
            r is Ok <==> old(self).is_init() && admin == old(self).cfg().admin,
            r is Ok ==> *final(self) == (RewardsContract {
                config: Some(RewardConfig { emergency_pause: paused, ..old(self).cfg() }),
                ..*old(self)
            }),
    {
        let cfg = match self.config {
            Some(c) => c,
            None => { return Err(RewardError::NotInitialized) },
        };
        if admin != cfg.admin {
            return Err(RewardError::Unauthorized);
        }
        self.config = Some(RewardConfig { emergency_pause: paused, ..cfg });
        proof {
            assert(*final(self) =~= (RewardsContract {
                config: Some(RewardConfig { emergency_pause: paused, ..old(self).cfg() }),
                ..*old(self)
            }));
        }
        Ok(())
    }

    /// Activate or deactivate a pool: an inactive pool rejects funding and
    /// new claims but settlement bookkeeping elsewhere is not blocked.
    pub fn toggle_reward_pool(&mut self, admin: u64, pool_type: RewardPoolType, active: bool) -> (r:
        Result<(), RewardError>)
        requires
            old(self).wf(),
        ensures
            final(self).wf(),
            r is Err ==> *final(self) == *old(self),
            !old(self).is_init() ==> r == Err::<(), RewardError>(RewardError::NotInitialized),
            old(self).is_init() && admin != old(self).cfg().admin ==> r == Err::<(), RewardError>(
                RewardError::Unauthorized,
            ),
            old(self).is_init() && admin == old(self).cfg().admin && !pool_has(
                old(self).pools@,
                pool_type,
            ) ==> r == Err::<(), RewardError>(RewardError::InvalidRewardPool),
            r is Ok <==> old(self).is_init() && admin == old(self).cfg().admin && pool_has(
                old(self).pools@,
                pool_type,
            ),
            r is Ok ==> *final(self) == (RewardsContract { pools: final(self).pools, ..*old(self) })
                && final(self).pools@ == old(self).pools@.update(
                pool_index(old(self).pools@, pool_type),
                (RewardPool { active, ..pool_of(old(self).pools@, pool_type) }),
            ),
    {
        let cfg = match self.config {
            Some(c) => c,
            None => { return Err(RewardError::NotInitialized) },
        };
        if admin != cfg.admin {
            return Err(RewardError::Unauthorized);
        }
        let i = match self.find_pool(pool_type) {
            Some(i) => i,
            None => { return Err(RewardError::InvalidRewardPool) },
        };
        let p = self.pools[i];
        proof {
            lemma_pool_index_is(self.pools@, pool_type, i as int);
        }
        let np = RewardPool { active, ..p };
        self.pools[i] = np;
        proof {
            assert(*final(self) =~= (RewardsContract { pools: final(self).pools, ..*old(self) }));
            assert forall|k: int| 0 <= k < self.pools@.len() implies pool_wf(
                #[trigger] self.pools@[k],
            ) by {
                if k == i as int {
                    assert(self.pools@[k] == np);
                } else {
                    assert(self.pools@[k] == old(self).pools@[k]);
                }
            }
            assert forall|a: int, b: int|
                0 <= a < b < self.pools@.len() implies (#[trigger] self.pools@[a]).pool_type != (
            #[trigger] self.pools@[b]).pool_type by {
                assert(self.pools@[a].pool_type == old(self).pools@[a].pool_type);
                assert(self.pools@[b].pool_type == old(self).pools@[b].pool_type);
            }
        }
        Ok(())
    }

    /// The claimable balance of `user` (zero for an unknown account).
    pub fn get_claimable_rewards(&self, user: u64) -> (r: i128)
        requires
            self.wf(),
        ensures
            r == self.claimable_of(user),
    {
        match keyed_find(&self.user_rewards, user) {
            Some(i) => {
                proof {
                    lemma_keyed_index_is(self.user_rewards@, user, i as int);
                }
                let u = self.user_rewards[i].1;
                u.total_earned - u.total_claimed
            },
            None => 0,
        }
    }

    /// The stored reward record of `user`, if any.
    pub fn get_user_reward_info(&self, user: u64) -> (r: Option<UserRewardInfo>)
        requires
            self.wf(),
        ensures
            match r {
                Some(u) => keyed_has(self.user_rewards@, user) && u == keyed_get(
                    self.user_rewards@,
                    user,
                ),
                None => !keyed_has(self.user_rewards@, user),
            },
    {
        match keyed_find(&self.user_rewards, user) {
            Some(i) => {
                proof {
                    lemma_keyed_index_is(self.user_rewards@, user, i as int);
                }
                Some(self.user_rewards[i].1)
            },
            None => None,
        }
    }

    /// The pool of class `pool_type`, if present.
    pub fn get_reward_pool(&self, pool_type: RewardPoolType) -> (r: Option<RewardPool>)
        requires
            self.wf(),
        ensures
            match r {
                Some(p) => pool_has(self.pools@, pool_type) && p == pool_of(
                    self.pools@,
                    pool_type,
                ),
                None => !pool_has(self.pools@, pool_type),
            },
    {
        match self.find_pool(pool_type) {
            Some(i) => {
                proof {
                    lemma_pool_index_is(self.pools@, pool_type, i as int);
                }
                Some(self.pools[i])
            },
            None => None,
        }
    }

    /// The aggregate statistics, once the ledger is initialized.
    pub fn get_global_stats(&self) -> (r: Option<GlobalRewardStats>)
        ensures
            self.is_init() ==> r == Some(self.global_stats),
            !self.is_init() ==> r is None,
    {
        if self.config.is_some() {
            Some(self.global_stats)
        } else {
            None
        }
    }

    /// The distribution snapshot recorded for `day`, if any.
    pub fn get_daily_snapshot(&self, day: u64) -> (r: Option<i128>)
        requires
            self.wf(),
        ensures
            match r {
                Some(v) => keyed_has(self.snapshots@, day) && v == keyed_get(self.snapshots@, day),
                None => !keyed_has(self.snapshots@, day),
            },
    {
        match keyed_find(&self.snapshots, day) {
            Some(i) => {
                proof {
                    lemma_keyed_index_is(self.snapshots@, day, i as int);
                }
                Some(self.snapshots[i].1)
            },
            None => None,
        }
    }
}

/// Cooldown enforcement: a claim attempted before `last_claim +
/// claim_cooldown` reports the cooldown error, regardless of the pending
/// balance, and by `claim_rewards`' contract leaves the ledger unchanged.
pub proof fn lemma_cooldown_enforced(
    s: RewardsContract,
    user: u64,
    pool_type: RewardPoolType,
    now: u64,
)
    requires
        s.is_init(),
        !s.paused(),
        keyed_has(s.user_rewards@, user),
        now < keyed_get(s.user_rewards@, user).last_claim + s.cfg().claim_cooldown,
    ensures
        s.claim_error(user, pool_type, now) == Some(RewardError::ClaimCooldownActive),
{
}

/// No double-accrual: in a state where an account's claimable balance is
/// zero — exactly how `claim_rewards` leaves the account it paid — an
/// immediate repeat claim yields nothing: it reports the cooldown error or
/// the no-rewards error, and by `claim_rewards`' contract leaves the ledger
/// unchanged.
pub proof fn lemma_no_double_accrual(
    s: RewardsContract,
    user: u64,
    pool_type: RewardPoolType,
    now: u64,
)
    requires
        s.is_init(),
        !s.paused(),
        keyed_has(s.user_rewards@, user),
        s.claimable_of(user) == 0,
    ensures
        s.claim_error(user, pool_type, now) == Some(RewardError::ClaimCooldownActive) || s
            .claim_error(user, pool_type, now) == Some(RewardError::NoRewardsToClaim),
{
}

} // verus!

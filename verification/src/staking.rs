//! The staking position ledger with its lazily settled global accumulator.
//!
//! One position per account holds locked principal, the lock parameters and a
//! `reward_debt` marker.  A global `reward_per_share` accumulator (scaled by
//! [`PRECISION`]) advances lazily from a funded reward pool: no operation ever
//! iterates over all accounts to compute rewards; each account's pending
//! reward is `principal * reward_per_share / PRECISION - reward_debt`,
//! evaluated at read or mutation time.

use vstd::prelude::*;
use vstd::arithmetic::div_mod::{lemma_div_is_ordered, lemma_div_multiples_vanish, lemma_fundamental_div_mod, lemma_mod_division_less_than_divisor};
use vstd::arithmetic::mul::{lemma_mul_inequality, lemma_mul_nonnegative};
use crate::arith::{div_nonneg, lemma_div_at_most, MAX_BASIS_POINTS, PRECISION, SECONDS_PER_DAY};

verus! {

/// Fee in basis points deducted from principal on an early unstake.
pub const EARLY_UNSTAKE_FEE_BP: i128 = 1000;

/// Largest pool funding total: keeps `reward_per_share`, which is bounded by
/// `total_distributed * PRECISION`, inside `i128`.
pub const MAX_POOL_FUNDING: i128 = 170_141_183_460_469_231_731_687_303_715_884;

/// Errors returned by the staking ledger.
#[derive(Clone, Copy, Debug, PartialEq, Eq, Structural)]
pub enum StakingError {
    NotInitialized,
    AlreadyInitialized,
    Unauthorized,
    ContractPaused,
    InvalidInput,
    InsufficientAmount,
    InvalidLockPeriod,
    MaxStakeExceeded,
    StakeNotFound,
    LockPeriodNotExpired,
    NumericOverflow,
}

/// Configuration fixed at initialization, with the administrative switches.
#[derive(Clone, Copy, Debug, PartialEq, Eq, Structural)]
pub struct StakingConfig {
    pub admin: u64,
    pub aqua_token: u64,
    pub blub_token: u64,
    pub min_stake_amount: i128,
    /// Nominal base reward rate in basis points, kept as a configuration
    /// parameter; distribution itself is driven by the funded pool's rate.
    pub base_reward_rate: i128,
    pub emergency_pause: bool,
}

/// One account's position: locked principal, lock parameters, the accumulator
/// value already paid out (`reward_debt`), and rewards flushed but not yet
/// withdrawn (`accrued`).
#[derive(Clone, Copy, Debug, PartialEq, Eq, Structural)]
pub struct StakeInfo {
    pub amount: i128,
    pub lock_period: u64,
    pub staked_at: u64,
    pub reward_multiplier: i128,
    pub reward_debt: i128,
    pub accrued: i128,
    pub compound_count: u32,
}

/// The staking ledger: configuration, lock schedule, the position table, the
/// global accumulator and the reward pool for this reward class.
#[verifier::ext_equal]
pub struct StakingContract {
    pub config: Option<StakingConfig>,
    pub lock_periods: Vec<u64>,
    pub reward_multipliers: Vec<i128>,
    pub positions: Vec<(u64, StakeInfo)>,
    pub total_staked: i128,
    pub reward_per_share: i128,
    pub last_update_at: u64,
    pub pool_funded: i128,
    pub pool_distributed: i128,
    /// Rewards distributed per whole elapsed day.
    pub distribution_rate: i128,
    /// Days the funded remainder is amortized over when the pool is funded.
    pub distribution_period: u64,
    pub max_stake_per_account: i128,
}

/// Sum of all locked principals in the position table.
pub open spec fn sum_principals(s: Seq<(u64, StakeInfo)>) -> int
    decreases s.len(),
{
    if s.len() == 0 {
        0
    } else {
        sum_principals(s.drop_last()) + s.last().1.amount
    }
}

/// Every account appears at most once in the position table.
pub open spec fn unique_users(s: Seq<(u64, StakeInfo)>) -> bool {
    forall|i: int, j: int| 0 <= i < j < s.len() ==> s[i].0 != s[j].0
}

/// Whether `user` holds a position.
pub open spec fn has_user(s: Seq<(u64, StakeInfo)>, user: u64) -> bool {
    exists|i: int| 0 <= i < s.len() && s[i].0 == user
}

/// Index of `user`'s position.
pub open spec fn user_index(s: Seq<(u64, StakeInfo)>, user: u64) -> int {
    choose|i: int| 0 <= i < s.len() && s[i].0 == user
}

/// `user`'s position.
pub open spec fn position_of(s: Seq<(u64, StakeInfo)>, user: u64) -> StakeInfo {
    s[user_index(s, user)].1
}

/// Pending reward of a position at accumulator value `rps`.
pub open spec fn pending_of(p: StakeInfo, rps: i128) -> int {
    p.amount * rps / (PRECISION as int) - p.reward_debt
}

/// Well-formedness of one position against the current accumulator.
pub open spec fn pos_wf(p: StakeInfo, rps: i128) -> bool {
    &&& 0 < p.amount
    &&& 0 <= p.accrued
    &&& 0 <= p.reward_multiplier
    &&& 0 <= p.reward_debt <= p.amount * rps / (PRECISION as int)
}

impl StakingContract {
    /// The ledger invariant: the accumulator and pool satisfy conservation
    /// (`total_distributed <= total_funded`) and the position table's
    /// principals sum to `total_staked`.
    pub open spec fn wf(&self) -> bool {
        &&& unique_users(self.positions@)
        &&& sum_principals(self.positions@) == self.total_staked
        &&& 0 <= self.total_staked
        &&& 0 <= self.pool_distributed <= self.pool_funded <= MAX_POOL_FUNDING
        &&& 0 <= self.reward_per_share <= self.pool_distributed * (PRECISION as int)
        &&& 0 <= self.distribution_rate
        &&& 1 <= self.distribution_period
        &&& 0 <= self.max_stake_per_account
        &&& self.lock_periods@.len() == self.reward_multipliers@.len()
        &&& (forall|i: int|
            0 <= i < self.positions@.len() ==> pos_wf(
                (#[trigger] self.positions@[i]).1,
                self.reward_per_share,
            ))
        &&& (forall|i: int|
            0 <= i < self.reward_multipliers@.len() ==> 0 <= (
            #[trigger] self.reward_multipliers@[i]))
        &&& (match self.config {
            Some(c) => 0 < c.min_stake_amount,
            None => true,
        })
    }

    pub open spec fn is_init(&self) -> bool {
        self.config is Some
    }

    pub open spec fn cfg(&self) -> StakingConfig {
        self.config->0
    }

    pub open spec fn paused(&self) -> bool {
        match self.config {
            Some(c) => c.emergency_pause,
            None => false,
        }
    }

    /// Whole days elapsed since the last settlement.
    pub open spec fn settle_days(&self, now: u64) -> int {
        if now <= self.last_update_at {
            0
        } else {
            ((now - self.last_update_at) as int) / (SECONDS_PER_DAY as int)
        }
    }

    /// What one settlement distributes: the pool's daily rate times the
    /// whole days elapsed, capped by the funded remainder.
    pub open spec fn settle_newly(&self, now: u64) -> int {
        if now <= self.last_update_at || self.total_staked == 0 {
            0
        } else {
            let raw = self.distribution_rate * self.settle_days(now);
            let remaining = self.pool_funded - self.pool_distributed;
            if raw > remaining {
                remaining
            } else {
                raw
            }
        }
    }

    /// The ledger after settling the accumulator at time `now`: a no-op into
    /// the past; with an empty supply only the clock advances (unclaimed
    /// rewards for an empty pool are an accepted loss); otherwise the newly
    /// distributed amount is folded into `reward_per_share` and the clock
    /// advances by the settled whole days, keeping partial-day progress.
    pub open spec fn settled(&self, now: u64) -> StakingContract {
        if now <= self.last_update_at {
            *self
        } else if self.total_staked == 0 {
            StakingContract { last_update_at: now, ..*self }
        } else {
            let newly = self.settle_newly(now);
            StakingContract {
                reward_per_share: (self.reward_per_share + newly * (PRECISION as int)
                    / (self.total_staked as int)) as i128,
                pool_distributed: (self.pool_distributed + newly) as i128,
                last_update_at: (self.last_update_at + self.settle_days(now)
                    * SECONDS_PER_DAY) as u64,
                ..*self
            }
        }
    }
}

/// The position table's sum grows by the pushed principal.
proof fn lemma_sum_push(s: Seq<(u64, StakeInfo)>, p: (u64, StakeInfo))
    ensures
        sum_principals(s.push(p)) == sum_principals(s) + p.1.amount,
{
    assert(s.push(p).drop_last() =~= s);
}

/// Updating one entry shifts the sum by the difference of principals.
proof fn lemma_sum_update(s: Seq<(u64, StakeInfo)>, i: int, p: (u64, StakeInfo))
    requires
        0 <= i < s.len(),
    ensures
        sum_principals(s.update(i, p)) == sum_principals(s) - s[i].1.amount + p.1.amount,
    decreases s.len(),
{
    if i == s.len() - 1 {
        assert(s.update(i, p).drop_last() =~= s.drop_last());
        assert(s.update(i, p).last() == p);
    } else {
        assert(s.update(i, p).drop_last() =~= s.drop_last().update(i, p));
        lemma_sum_update(s.drop_last(), i, p);
    }
}

/// Removing one entry subtracts its principal from the sum.
proof fn lemma_sum_remove(s: Seq<(u64, StakeInfo)>, i: int)
    requires
        0 <= i < s.len(),
    ensures
        sum_principals(s.remove(i)) == sum_principals(s) - s[i].1.amount,
    decreases s.len(),
{
    if i == s.len() - 1 {
        assert(s.remove(i) =~= s.drop_last());
    } else {
        assert(s.remove(i).drop_last() =~= s.drop_last().remove(i));
        lemma_sum_remove(s.drop_last(), i);
    }
}

/// With non-negative principals, the sum dominates each single entry.
proof fn lemma_sum_lower_bound(s: Seq<(u64, StakeInfo)>, i: int)
    requires
        0 <= i < s.len(),
        forall|j: int| 0 <= j < s.len() ==> 0 <= (#[trigger] s[j]).1.amount,
    ensures
        s[i].1.amount <= sum_principals(s),
        0 <= sum_principals(s),
    decreases s.len(),
{
    if s.len() > 0 {
        if i == s.len() - 1 {
            lemma_sum_nonneg(s.drop_last());
        } else {
            lemma_sum_lower_bound(s.drop_last(), i);
        }
    }
}

/// A table of non-negative principals has a non-negative sum.
proof fn lemma_sum_nonneg(s: Seq<(u64, StakeInfo)>)
    requires
        forall|j: int| 0 <= j < s.len() ==> 0 <= (#[trigger] s[j]).1.amount,
    ensures
        0 <= sum_principals(s),
    decreases s.len(),
{
    if s.len() > 0 {
        lemma_sum_nonneg(s.drop_last());
    }
}

/// In a table with unique users, `user_index` resolves to the one witness.
proof fn lemma_user_index_is(s: Seq<(u64, StakeInfo)>, user: u64, i: int)
    requires
        unique_users(s),
        0 <= i < s.len(),
        s[i].0 == user,
    ensures
        user_index(s, user) == i,
        has_user(s, user),
{
    assert(0 <= i < s.len() && s[i].0 == user);
    let j = user_index(s, user);
    if j != i {
        assert(s[i].0 != s[j].0);
    }
}

/// A position's floor-scaled entitlement only grows as the accumulator grows.
proof fn lemma_entitlement_mono(a: int, r1: int, r2: int)
    requires
        0 <= a,
        0 <= r1 <= r2,
    ensures
        a * r1 / (PRECISION as int) <= a * r2 / (PRECISION as int),
{
    lemma_mul_inequality(r1, r2, a);
    assert(a * r1 == r1 * a) by (nonlinear_arith);
    assert(a * r2 == r2 * a) by (nonlinear_arith);
    lemma_div_is_ordered(a * r1, a * r2, PRECISION as int);
}

/// A value at most `i128::MAX / PRECISION`, scaled by `PRECISION`, fits.
proof fn lemma_scaled_fits(x: int)
    requires
        0 <= x <= MAX_POOL_FUNDING,
    ensures
        0 <= x * (PRECISION as int) <= i128::MAX,
{
    assert(PRECISION == 1_000_000);
    assert(MAX_POOL_FUNDING == i128::MAX / 1_000_000);
    lemma_mul_inequality(x, i128::MAX as int / 1_000_000, 1_000_000);
    lemma_fundamental_div_mod(i128::MAX as int, 1_000_000);
    lemma_mul_nonnegative(x, PRECISION as int);
    assert(x * 1_000_000 <= (i128::MAX as int / 1_000_000) * 1_000_000) by {
        assert(x * 1_000_000 == 1_000_000 * x) by (nonlinear_arith);
        assert((i128::MAX as int / 1_000_000) * 1_000_000 == 1_000_000 * (i128::MAX as int
            / 1_000_000)) by (nonlinear_arith);
        lemma_mul_inequality(x, i128::MAX as int / 1_000_000, 1_000_000);
    }
}

impl StakingContract {
    /// A fresh, uninitialized ledger.
    pub fn new() -> (r: StakingContract)
        ensures
            r.wf(),
            !r.is_init(),
            r.lock_periods@.len() == 0,
            r.reward_multipliers@.len() == 0,
            r.positions@.len() == 0,
            r.total_staked == 0,
            r.reward_per_share == 0,
            r.last_update_at == 0,
            r.pool_funded == 0,
            r.pool_distributed == 0,
            r.distribution_rate == 0,
            r.distribution_period == 1,
            r.max_stake_per_account == i128::MAX,
    {
        StakingContract {
            config: None,
            lock_periods: Vec::new(),
            reward_multipliers: Vec::new(),
            positions: Vec::new(),
            total_staked: 0,
            reward_per_share: 0,
            last_update_at: 0,
            pool_funded: 0,
            pool_distributed: 0,
            distribution_rate: 0,
            distribution_period: 1,
            max_stake_per_account: i128::MAX,
        }
    }

    /// Initialize the ledger once: store the configuration and the lock
    /// schedule (parallel period/multiplier tables).  Fails with
    /// `AlreadyInitialized` on a second call and with `InvalidInput` on an
    /// invalid parameter combination.
    #[verifier::loop_isolation(false)]
    pub fn initialize(
        &mut self,
        admin: u64,
        aqua_token: u64,
        blub_token: u64,
        min_stake_amount: i128,
        base_reward_rate: i128,
        lock_periods: Vec<u64>,
        reward_multipliers: Vec<i128>,
        now: u64,
    ) -> (r: Result<(), StakingError>)
        requires
            old(self).wf(),
        ensures
            final(self).wf(),
            old(self).is_init() ==> r == Err::<(), StakingError>(StakingError::AlreadyInitialized)
                && *final(self) == *old(self),
            !old(self).is_init() && (lock_periods@.len() != reward_multipliers@.len()
                || lock_periods@.len() == 0 || min_stake_amount <= 0 || base_reward_rate < 0
                || base_reward_rate > MAX_BASIS_POINTS || exists|i: int|
                0 <= i < reward_multipliers@.len() && (#[trigger] reward_multipliers@[i]) < 0)
                ==> r == Err::<(), StakingError>(StakingError::InvalidInput)
                && *final(self) == *old(self),
            r is Ok ==> !old(self).is_init() && final(self).is_init() && final(self).cfg() == (
            StakingConfig {
                admin,
                aqua_token,
                blub_token,
                min_stake_amount,
                base_reward_rate,
                emergency_pause: false,
            }) && final(self).lock_periods@ == lock_periods@ && final(self).reward_multipliers@
                == reward_multipliers@ && final(self).positions@ == old(self).positions@
                && final(self).total_staked == old(self).total_staked
                && final(self).reward_per_share == old(self).reward_per_share
                && final(self).last_update_at == now
                && final(self).pool_funded == old(self).pool_funded
                && final(self).pool_distributed == old(self).pool_distributed
                && final(self).distribution_rate == old(self).distribution_rate
                && final(self).distribution_period == old(self).distribution_period
                && final(self).max_stake_per_account == old(self).max_stake_per_account,
            r is Ok <==> !old(self).is_init() && lock_periods@.len() == reward_multipliers@.len()
                && lock_periods@.len() > 0 && min_stake_amount > 0 && 0 <= base_reward_rate
                <= MAX_BASIS_POINTS && (forall|i: int|
                0 <= i < reward_multipliers@.len() ==> (#[trigger] reward_multipliers@[i]) >= 0),
    {
        if self.config.is_some() {
            return Err(StakingError::AlreadyInitialized);
        }
        if lock_periods.len() != reward_multipliers.len() || lock_periods.len() == 0 {
            return Err(StakingError::InvalidInput);
        }
        if min_stake_amount <= 0 || base_reward_rate < 0 || base_reward_rate > MAX_BASIS_POINTS {
            return Err(StakingError::InvalidInput);
        }
        let mut k: usize = 0;
        while k < reward_multipliers.len()
            invariant
                0 <= k <= reward_multipliers@.len(),
                forall|i: int| 0 <= i < k ==> (#[trigger] reward_multipliers@[i]) >= 0,
            decreases reward_multipliers@.len() - k,
        {
            if reward_multipliers[k] < 0 {
                assert(0 <= k < reward_multipliers@.len() && reward_multipliers@[k as int] < 0);
                return Err(StakingError::InvalidInput);
            }
            k = k + 1;
        }
        self.config = Some(
            StakingConfig {
                admin,
                aqua_token,
                blub_token,
                min_stake_amount,
                base_reward_rate,
                emergency_pause: false,
            },
        );
        self.lock_periods = lock_periods;
        self.reward_multipliers = reward_multipliers;
        self.last_update_at = now;
        Ok(())
    }

    /// The stored configuration, if the ledger is initialized.
    pub fn get_config(&self) -> (r: Option<StakingConfig>)
        ensures
            r == self.config,
    {
        self.config
    }

    /// The stored position of `user`, if any.
    pub fn get_stake_balance(&self, user: u64) -> (r: Option<StakeInfo>)
        requires
            self.wf(),
        ensures
            match r {
                Some(p) => has_user(self.positions@, user) && p == position_of(
                    self.positions@,
                    user,
                ),
                None => !has_user(self.positions@, user),
            },
    {
        match self.find_position(user) {
            Some(i) => {
                proof {
                    lemma_user_index_is(self.positions@, user, i as int);
                }
                Some(self.positions[i].1)
            },
            None => None,
        }
    }

    /// Total principal currently locked across all positions.
    pub fn get_total_staked(&self) -> (r: i128)
        ensures
            r == self.total_staked,
    {
        self.total_staked
    }

    /// Index of `user`'s position in the table.
    fn find_position(&self, user: u64) -> (r: Option<usize>)
        ensures
            match r {
                Some(i) => i < self.positions@.len() && self.positions@[i as int].0 == user,
                None => !has_user(self.positions@, user),
            },
    {
        let n = self.positions.len();
        let mut j: usize = 0;
        while j < n
            invariant
                0 <= j <= n,
                n == self.positions@.len(),
                forall|k: int| 0 <= k < j ==> (#[trigger] self.positions@[k]).0 != user,
            decreases n - j,
        {
            if self.positions[j].0 == user {
                return Some(j);
            }
            j = j + 1;
        }
        None
    }

    /// Settle the global accumulator up to `now`.  This is the single place
    /// where distribution advances; it must precede any read or mutation that
    /// depends on up-to-date rewards, and every operation of this ledger does
    /// so.
    pub fn settle(&mut self, now: u64)
        requires
            old(self).wf(),
        ensures
            final(self).wf(),
            *final(self) == old(self).settled(now),
            final(self).reward_per_share >= old(self).reward_per_share,
            final(self).pool_funded == old(self).pool_funded,
    {
        let (rps, dist, upd) = self.settle_values(now);
        self.reward_per_share = rps;
        self.pool_distributed = dist;
        self.last_update_at = upd;
        proof {
            assert(*self =~= old(self).settled(now));
            old(self).lemma_settled_wf(now);
        }
    }

    /// Compute the settled accumulator, distributed total and update time
    /// without committing them.
    fn settle_values(&self, now: u64) -> (r: (i128, i128, u64))
        requires
            self.wf(),
        ensures
            r.0 == self.settled(now).reward_per_share,
            r.1 == self.settled(now).pool_distributed,
            r.2 == self.settled(now).last_update_at,
            r.0 >= self.reward_per_share,
    {
        if now <= self.last_update_at {
            return (self.reward_per_share, self.pool_distributed, self.last_update_at);
        }
        if self.total_staked == 0 {
            return (self.reward_per_share, self.pool_distributed, now);
        }
        let elapsed = now - self.last_update_at;
        let days = elapsed / SECONDS_PER_DAY;
        proof {
            lemma_fundamental_div_mod(elapsed as int, SECONDS_PER_DAY as int);
        }
        let upd = self.last_update_at + days * SECONDS_PER_DAY;
        let remaining = self.pool_funded - self.pool_distributed;
        let newly = match self.distribution_rate.checked_mul(days as i128) {
            Some(v) => if v > remaining {
                remaining
            } else {
                v
            },
            None => {
                proof {
                    lemma_mul_nonnegative(self.distribution_rate as int, days as int);
                }
                remaining
            },
        };
        assert(newly == self.settle_newly(now));
        assert(0 <= newly <= remaining);
        proof {
            lemma_scaled_fits(newly as int);
            lemma_scaled_fits(self.pool_funded as int);
            lemma_scaled_fits(self.pool_distributed as int);
        }
        let inc = div_nonneg(newly * PRECISION, self.total_staked);
        proof {
            lemma_div_at_most(newly * (PRECISION as int), self.total_staked as int);
            assert((self.pool_distributed + newly) * (PRECISION as int) == self.pool_distributed
                * (PRECISION as int) + newly * (PRECISION as int)) by (nonlinear_arith);
            lemma_scaled_fits((self.pool_distributed + newly) as int);
        }
        let rps = self.reward_per_share + inc;
        let dist = self.pool_distributed + newly;
        (rps, dist, upd)
    }

    /// Settling preserves the ledger invariant.
    proof fn lemma_settled_wf(&self, now: u64)
        requires
            self.wf(),
        ensures
            self.settled(now).wf(),
            self.settled(now).reward_per_share >= self.reward_per_share,
    {
        let s = self.settled(now);
        if now <= self.last_update_at || self.total_staked == 0 {
        } else {
            let newly = self.settle_newly(now);
            lemma_mul_nonnegative(
                self.distribution_rate as int,
                (now - self.last_update_at) as int,
            );
            assert(0 <= newly <= self.pool_funded - self.pool_distributed);
            lemma_scaled_fits(newly as int);
            lemma_scaled_fits(self.pool_funded as int);
            lemma_scaled_fits(self.pool_distributed as int);
            lemma_scaled_fits((self.pool_distributed + newly) as int);
            let inc = newly * (PRECISION as int) / (self.total_staked as int);
            lemma_div_at_most(newly * (PRECISION as int), self.total_staked as int);
            assert((self.pool_distributed + newly) * (PRECISION as int) == self.pool_distributed
                * (PRECISION as int) + newly * (PRECISION as int)) by (nonlinear_arith);
            assert(s.reward_per_share == self.reward_per_share + inc);
            assert(0 <= s.reward_per_share <= s.pool_distributed * (PRECISION as int));
            assert forall|i: int| 0 <= i < s.positions@.len() implies pos_wf(
                (#[trigger] s.positions@[i]).1,
                s.reward_per_share,
            ) by {
                let p = s.positions@[i].1;
                assert(pos_wf(p, self.reward_per_share));
                lemma_entitlement_mono(
                    p.amount as int,
                    self.reward_per_share as int,
                    s.reward_per_share as int,
                );
            }
        }
    }

    /// Fund the reward pool.  Funding never rewrites past accumulator
    /// history: the ledger settles first, then the future distribution rate
    /// is recomputed as the funded remainder amortized over the configured
    /// period.
    pub fn fund_pool(&mut self, admin: u64, amount: i128, now: u64) -> (r: Result<
        (),
        StakingError,
    >)
        requires
            old(self).wf(),
        ensures
            final(self).wf(),
            final(self).pool_funded >= old(self).pool_funded,
            final(self).reward_per_share >= old(self).reward_per_share,
            r is Err ==> *final(self) == *old(self),
            !old(self).is_init() ==> r == Err::<(), StakingError>(StakingError::NotInitialized),
            old(self).is_init() && admin != old(self).cfg().admin ==> r == Err::<
                (),
                StakingError,
            >(StakingError::Unauthorized),
            old(self).is_init() && admin == old(self).cfg().admin && amount <= 0 ==> r == Err::<
                (),
                StakingError,
            >(StakingError::InvalidInput),
            old(self).is_init() && admin == old(self).cfg().admin && amount > 0 && old(
                self,
            ).settled(now).pool_funded + amount > MAX_POOL_FUNDING ==> r == Err::<
                (),
                StakingError,
            >(StakingError::NumericOverflow),
            r is Ok <==> old(self).is_init() && admin == old(self).cfg().admin && amount > 0
                && old(self).settled(now).pool_funded + amount <= MAX_POOL_FUNDING,
            r is Ok ==> ({
                let s = old(self).settled(now);
                *final(self) == (StakingContract {
                    pool_funded: (s.pool_funded + amount) as i128,
                    distribution_rate: ((s.pool_funded + amount - s.pool_distributed)
                        / s.distribution_period as int) as i128,
                    ..s
                })
            }),
    {
        let cfg = match self.config {
            Some(c) => c,
            None => { return Err(StakingError::NotInitialized) },
        };
        if admin != cfg.admin {
            return Err(StakingError::Unauthorized);
        }
        if amount <= 0 {
            return Err(StakingError::InvalidInput);
        }
        let (rps, dist, upd) = self.settle_values(now);
        proof {
            old(self).lemma_settled_wf(now);
        }
        if amount > MAX_POOL_FUNDING - self.pool_funded {
            return Err(StakingError::NumericOverflow);
        }
        let funded = self.pool_funded + amount;
        self.reward_per_share = rps;
        self.pool_distributed = dist;
        self.last_update_at = upd;
        self.pool_funded = funded;
        self.distribution_rate = div_nonneg(funded - dist, self.distribution_period as i128);
        proof {
            let s = old(self).settled(now);
            assert(self.pool_funded == s.pool_funded + amount);
            lemma_div_at_most((funded - dist) as int, self.distribution_period as int);
            assert(*self =~= (StakingContract {
                pool_funded: (s.pool_funded + amount) as i128,
                distribution_rate: ((s.pool_funded + amount - s.pool_distributed)
                    / s.distribution_period as int) as i128,
                ..s
            }));
            assert forall|i: int| 0 <= i < self.positions@.len() implies pos_wf(
                (#[trigger] self.positions@[i]).1,
                self.reward_per_share,
            ) by {
                assert(pos_wf(s.positions@[i].1, s.reward_per_share));
            }
            lemma_scaled_fits(s.pool_distributed as int);
        }
        Ok(())
    }

    /// Pause or resume the ledger's mutating operations.
    pub fn set_emergency_pause(&mut self, admin: u64, paused: bool) -> (r: Result<
        (),
        StakingError,
    >)
        requires
            old(self).wf(),
        ensures
            final(self).wf(),
            r is Err ==> *final(self) == *old(self),
            !old(self).is_init() ==> r == Err::<(), StakingError>(StakingError::NotInitialized),
            old(self).is_init() && admin != old(self).cfg().admin ==> r == Err::<
                (),
                StakingError,
            >(StakingError::Unauthorized),
            r is Ok <==> old(self).is_init() && admin == old(self).cfg().admin,
            r is Ok ==> *final(self) == (StakingContract {
                config: Some(StakingConfig { emergency_pause: paused, ..old(self).cfg() }),
                ..*old(self)
            }),
    {
        let cfg = match self.config {
            Some(c) => c,
            None => { return Err(StakingError::NotInitialized) },
        };
        if admin != cfg.admin {
            return Err(StakingError::Unauthorized);
        }
        self.config = Some(StakingConfig { emergency_pause: paused, ..cfg });
        proof {
            assert(*self =~= (StakingContract {
                config: Some(StakingConfig { emergency_pause: paused, ..old(self).cfg() }),
                ..*old(self)
            }));
        }
        Ok(())
    }

    /// Update the nominal base reward rate (basis points, at most 100%).
    pub fn update_reward_rate(&mut self, admin: u64, new_rate: i128) -> (r: Result<
        (),
        StakingError,
    >)
        requires
            old(self).wf(),
        ensures
            final(self).wf(),
            r is Err ==> *final(self) == *old(self),
            !old(self).is_init() ==> r == Err::<(), StakingError>(StakingError::NotInitialized),
            old(self).is_init() && admin != old(self).cfg().admin ==> r == Err::<
                (),
                StakingError,
            >(StakingError::Unauthorized),
            old(self).is_init() && admin == old(self).cfg().admin && !(0 <= new_rate
                <= MAX_BASIS_POINTS) ==> r == Err::<(), StakingError>(StakingError::InvalidInput),
            r is Ok <==> old(self).is_init() && admin == old(self).cfg().admin && 0 <= new_rate
                <= MAX_BASIS_POINTS,
            r is Ok ==> *final(self) == (StakingContract {
                config: Some(StakingConfig { base_reward_rate: new_rate, ..old(self).cfg() }),
                ..*old(self)
            }),
    {
        let cfg = match self.config {
            Some(c) => c,
            None => { return Err(StakingError::NotInitialized) },
        };
        if admin != cfg.admin {
            return Err(StakingError::Unauthorized);
        }
        if new_rate < 0 || new_rate > MAX_BASIS_POINTS {
            return Err(StakingError::InvalidInput);
        }
        self.config = Some(StakingConfig { base_reward_rate: new_rate, ..cfg });
        proof {
            assert(*self =~= (StakingContract {
                config: Some(StakingConfig { base_reward_rate: new_rate, ..old(self).cfg() }),
                ..*old(self)
            }));
        }
        Ok(())
    }

    /// Set the per-account stake ceiling.
    pub fn set_max_stake(&mut self, admin: u64, value: i128) -> (r: Result<(), StakingError>)
        requires
            old(self).wf(),
        ensures
            final(self).wf(),
            r is Err ==> *final(self) == *old(self),
            !old(self).is_init() ==> r == Err::<(), StakingError>(StakingError::NotInitialized),
            old(self).is_init() && admin != old(self).cfg().admin ==> r == Err::<
                (),
                StakingError,
            >(StakingError::Unauthorized),
            old(self).is_init() && admin == old(self).cfg().admin && value <= 0 ==> r == Err::<
                (),
                StakingError,
            >(StakingError::InvalidInput),
            r is Ok <==> old(self).is_init() && admin == old(self).cfg().admin && value > 0,
            r is Ok ==> *final(self) == (StakingContract { max_stake_per_account: value, ..*old(self) }),
    {
        let cfg = match self.config {
            Some(c) => c,
            None => { return Err(StakingError::NotInitialized) },
        };
        if admin != cfg.admin {
            return Err(StakingError::Unauthorized);
        }
        if value <= 0 {
            return Err(StakingError::InvalidInput);
        }
        self.max_stake_per_account = value;
        proof {
            assert(*self =~= (StakingContract { max_stake_per_account: value, ..*old(self) }));
        }
        Ok(())
    }

    /// Set the amortization period for newly funded rewards, in days.
    pub fn set_distribution_period(&mut self, admin: u64, days: u64) -> (r: Result<
        (),
        StakingError,
    >)
        requires
            old(self).wf(),
        ensures
            final(self).wf(),
            r is Err ==> *final(self) == *old(self),
            !old(self).is_init() ==> r == Err::<(), StakingError>(StakingError::NotInitialized),
            old(self).is_init() && admin != old(self).cfg().admin ==> r == Err::<
                (),
                StakingError,
            >(StakingError::Unauthorized),
            old(self).is_init() && admin == old(self).cfg().admin && days == 0 ==> r == Err::<
                (),
                StakingError,
            >(StakingError::InvalidInput),
            r is Ok <==> old(self).is_init() && admin == old(self).cfg().admin && days > 0,
            r is Ok ==> *final(self) == (StakingContract { distribution_period: days, ..*old(self) }),
    {
        let cfg = match self.config {
            Some(c) => c,
            None => { return Err(StakingError::NotInitialized) },
        };
        if admin != cfg.admin {
            return Err(StakingError::Unauthorized);
        }
        if days == 0 {
            return Err(StakingError::InvalidInput);
        }
        self.distribution_period = days;
        proof {
            assert(*self =~= (StakingContract { distribution_period: days, ..*old(self) }));
        }
        Ok(())
    }
}


/// Multiplier the lock schedule assigns to `lock`, if present (first match
/// between the parallel period/multiplier tables).
pub open spec fn sched_lookup(periods: Seq<u64>, mults: Seq<i128>, lock: u64) -> Option<i128>
    decreases periods.len(),
{
    if periods.len() == 0 || periods.len() != mults.len() {
        None
    } else if periods[0] == lock {
        Some(mults[0])
    } else {
        sched_lookup(periods.drop_first(), mults.drop_first(), lock)
    }
}

/// A multiplier found in a schedule whose entries are all non-negative is
/// itself non-negative.
proof fn lemma_sched_lookup_nonneg(periods: Seq<u64>, mults: Seq<i128>, lock: u64)
    requires
        forall|i: int| 0 <= i < mults.len() ==> 0 <= (#[trigger] mults[i]),
        sched_lookup(periods, mults, lock) is Some,
    ensures
        sched_lookup(periods, mults, lock)->0 >= 0,
    decreases periods.len(),
{
    if periods.len() == 0 || periods.len() != mults.len() {
    } else if periods[0] == lock {
        assert(0 <= mults[0]);
    } else {
        assert(forall|i: int|
            0 <= i < mults.drop_first().len() ==> 0 <= (#[trigger] mults.drop_first()[i]));
        lemma_sched_lookup_nonneg(periods.drop_first(), mults.drop_first(), lock);
    }
}

/// A position increased by `amount` at accumulator value `rps`: the pending
/// reward is flushed into `accrued` first, so new principal does not
/// retroactively earn past rewards, and the debt marker is rebased.
pub open spec fn stake_grown(p: StakeInfo, amount: i128, rps: i128) -> StakeInfo {
    StakeInfo {
        amount: (p.amount + amount) as i128,
        reward_debt: ((p.amount + amount) * rps / (PRECISION as int)) as i128,
        accrued: (p.accrued + pending_of(p, rps)) as i128,
        ..p
    }
}

/// A freshly opened position.
pub open spec fn fresh_position(
    amount: i128,
    lock_period: u64,
    mult: i128,
    rps: i128,
    now: u64,
) -> StakeInfo {
    StakeInfo {
        amount,
        lock_period,
        staked_at: now,
        reward_multiplier: mult,
        reward_debt: (amount * rps / (PRECISION as int)) as i128,
        accrued: 0,
        compound_count: 0,
    }
}

/// A position after compounding: pending and accrued rewards fold into the
/// principal, the lock restarts at `now` with the new schedule entry.
pub open spec fn compounded(p: StakeInfo, lock_period: u64, mult: i128, rps: i128, now: u64) -> StakeInfo {
    StakeInfo {
        amount: (p.amount + pending_of(p, rps) + p.accrued) as i128,
        lock_period,
        staked_at: now,
        reward_multiplier: mult,
        reward_debt: ((p.amount + pending_of(p, rps) + p.accrued) * rps / (PRECISION as int)) as i128,
        accrued: 0,
        compound_count: if p.compound_count < u32::MAX {
            (p.compound_count + 1) as u32
        } else {
            p.compound_count
        },
    }
}

/// Whether the checked arithmetic of `stake` overflows on the settled state.
pub open spec fn stake_overflow(s: StakingContract, user: u64, amount: i128) -> bool {
    if has_user(s.positions@, user) {
        let p = position_of(s.positions@, user);
        ||| p.amount * s.reward_per_share > i128::MAX
        ||| p.amount + amount > i128::MAX
        ||| (p.amount + amount) * s.reward_per_share > i128::MAX
        ||| p.accrued + pending_of(p, s.reward_per_share) > i128::MAX
        ||| s.total_staked + amount > i128::MAX
    } else {
        ||| amount * s.reward_per_share > i128::MAX
        ||| s.total_staked + amount > i128::MAX
    }
}

/// Whether `stake` would lift the account past the per-account ceiling.
pub open spec fn stake_exceeds(s: StakingContract, user: u64, amount: i128) -> bool {
    if has_user(s.positions@, user) {
        position_of(s.positions@, user).amount + amount > s.max_stake_per_account
    } else {
        amount > s.max_stake_per_account
    }
}

/// Whether the checked arithmetic of `unstake` overflows on the settled state.
pub open spec fn unstake_overflow(s: StakingContract, user: u64, apply_early_fee: bool, now: u64) -> bool {
    if has_user(s.positions@, user) {
        let p = position_of(s.positions@, user);
        let fee = unstake_fee(p, apply_early_fee, now);
        ||| (now < p.staked_at + p.lock_period && apply_early_fee && p.amount
            * EARLY_UNSTAKE_FEE_BP > i128::MAX)
        ||| p.amount * s.reward_per_share > i128::MAX
        ||| p.amount - fee + p.accrued > i128::MAX
        ||| p.amount - fee + p.accrued + pending_of(p, s.reward_per_share) > i128::MAX
    } else {
        false
    }
}

/// The early-withdrawal fee, deducted from principal only, never from
/// already-accrued rewards.
pub open spec fn unstake_fee(p: StakeInfo, apply_early_fee: bool, now: u64) -> int {
    if now < p.staked_at + p.lock_period && apply_early_fee {
        p.amount * EARLY_UNSTAKE_FEE_BP / (MAX_BASIS_POINTS as int)
    } else {
        0
    }
}

/// What a successful `unstake` pays out: principal less any early fee, plus
/// accrued and pending rewards.
pub open spec fn unstake_payout(p: StakeInfo, rps: i128, apply_early_fee: bool, now: u64) -> int {
    p.amount - unstake_fee(p, apply_early_fee, now) + p.accrued + pending_of(p, rps)
}

/// Whether the checked arithmetic of `restake` overflows on the settled state.
pub open spec fn restake_overflow(s: StakingContract, user: u64) -> bool {
    if has_user(s.positions@, user) {
        let p = position_of(s.positions@, user);
        let grown = p.amount + pending_of(p, s.reward_per_share) + p.accrued;
        ||| p.amount * s.reward_per_share > i128::MAX
        ||| grown > i128::MAX
        ||| grown * s.reward_per_share > i128::MAX
        ||| s.total_staked + pending_of(p, s.reward_per_share) + p.accrued > i128::MAX
    } else {
        false
    }
}

impl StakingContract {
    /// The validations of `stake` that do not depend on the stored positions.
    pub open spec fn stake_ready(&self, amount: i128, lock_period: u64) -> bool {
        &&& self.is_init()
        &&& !self.paused()
        &&& amount >= self.cfg().min_stake_amount
        &&& self.sched_mult(lock_period) is Some
    }

    /// The schedule's multiplier for `lock_period`.
    pub open spec fn sched_mult(&self, lock_period: u64) -> Option<i128> {
        sched_lookup(self.lock_periods@, self.reward_multipliers@, lock_period)
    }

    /// All fields of `other` besides the position table and `total_staked`
    /// agree with `self`.
    pub open spec fn same_but_positions(&self, other: StakingContract) -> bool {
        &&& other.config == self.config
        &&& other.lock_periods@ == self.lock_periods@
        &&& other.reward_multipliers@ == self.reward_multipliers@
        &&& other.reward_per_share == self.reward_per_share
        &&& other.last_update_at == self.last_update_at
        &&& other.pool_funded == self.pool_funded
        &&& other.pool_distributed == self.pool_distributed
        &&& other.distribution_rate == self.distribution_rate
        &&& other.distribution_period == self.distribution_period
        &&& other.max_stake_per_account == self.max_stake_per_account
    }

    /// Look the lock period up in the schedule.
    #[verifier::loop_isolation(false)]
    fn lookup_multiplier(&self, lock_period: u64) -> (r: Option<i128>)
        requires
            self.lock_periods@.len() == self.reward_multipliers@.len(),
        ensures
            r == self.sched_mult(lock_period),
    {
        let n = self.lock_periods.len();
        proof {
            assert(self.lock_periods@.skip(0) =~= self.lock_periods@);
            assert(self.reward_multipliers@.skip(0) =~= self.reward_multipliers@);
        }
        let mut j: usize = 0;
        while j < n
            invariant
                0 <= j <= n,
                sched_lookup(
                    self.lock_periods@.skip(j as int),
                    self.reward_multipliers@.skip(j as int),
                    lock_period,
                ) == self.sched_mult(lock_period),
            decreases n - j,
        {
            if self.lock_periods[j] == lock_period {
                return Some(self.reward_multipliers[j]);
            }
            proof {
                assert(self.lock_periods@.skip(j as int).drop_first() =~= self.lock_periods@.skip(
                    j as int + 1,
                ));
                assert(self.reward_multipliers@.skip(j as int).drop_first()
                    =~= self.reward_multipliers@.skip(j as int + 1));
            }
            j = j + 1;
        }
        None
    }

    /// Open a new position for `user` or increase the existing one.  Pending
    /// rewards are flushed before the principal changes, so new principal
    /// does not retroactively earn past rewards; the debt marker is rebased
    /// and `total_staked` grows by `amount`.  An increase keeps the existing
    /// lock parameters; a new lock is taken out through `restake`.
    pub fn stake(&mut self, user: u64, amount: i128, lock_period: u64, now: u64) -> (r: Result<
        (),
        StakingError,
    >)
        requires
            old(self).wf(),
        ensures
            final(self).wf(),
            final(self).reward_per_share >= old(self).reward_per_share,
            final(self).pool_funded == old(self).pool_funded,
            r is Err ==> *final(self) == *old(self),
            !old(self).is_init() ==> r == Err::<(), StakingError>(StakingError::NotInitialized),
            old(self).is_init() && old(self).paused() ==> r == Err::<(), StakingError>(
                StakingError::ContractPaused,
            ),
            old(self).is_init() && !old(self).paused() && amount < old(
                self,
            ).cfg().min_stake_amount ==> r == Err::<(), StakingError>(
                StakingError::InsufficientAmount,
            ),
            old(self).is_init() && !old(self).paused() && amount >= old(
                self,
            ).cfg().min_stake_amount && old(self).sched_mult(lock_period) is None ==> r == Err::<
                (),
                StakingError,
            >(StakingError::InvalidLockPeriod),
            old(self).stake_ready(amount, lock_period) && stake_overflow(
                old(self).settled(now),
                user,
                amount,
            ) ==> r == Err::<(), StakingError>(StakingError::NumericOverflow),
            old(self).stake_ready(amount, lock_period) && !stake_overflow(
                old(self).settled(now),
                user,
                amount,
            ) && stake_exceeds(old(self).settled(now), user, amount) ==> r == Err::<
                (),
                StakingError,
            >(StakingError::MaxStakeExceeded),
            r is Ok <==> old(self).stake_ready(amount, lock_period) && !stake_overflow(
                old(self).settled(now),
                user,
                amount,
            ) && !stake_exceeds(old(self).settled(now), user, amount),
            r is Ok ==> ({
                let s = old(self).settled(now);
                let rps = s.reward_per_share;
                &&& s.same_but_positions(*final(self))
                &&& final(self).total_staked == s.total_staked + amount
                &&& (if has_user(s.positions@, user) {
                    final(self).positions@ == s.positions@.update(
                        user_index(s.positions@, user),
                        (user, stake_grown(position_of(s.positions@, user), amount, rps)),
                    )
                } else {
                    final(self).positions@ == s.positions@.push(
                        (
                            user,
                            fresh_position(
                                amount,
                                lock_period,
                                old(self).sched_mult(lock_period)->0,
                                rps,
                                now,
                            ),
                        ),
                    )
                })
            }),
    {
        let cfg = match self.config {
            Some(c) => c,
            None => { return Err(StakingError::NotInitialized) },
        };
        if cfg.emergency_pause {
            return Err(StakingError::ContractPaused);
        }
        if amount < cfg.min_stake_amount {
            return Err(StakingError::InsufficientAmount);
        }
        let mult = match self.lookup_multiplier(lock_period) {
            Some(m) => m,
            None => { return Err(StakingError::InvalidLockPeriod) },
        };
        let (rps, dist, upd) = self.settle_values(now);
        proof {
            old(self).lemma_settled_wf(now);
        }
        let ghost s = old(self).settled(now);
        match self.find_position(user) {
            Some(i) => {
                let p = self.positions[i].1;
                proof {
                    lemma_user_index_is(self.positions@, user, i as int);
                    lemma_mul_nonnegative(p.amount as int, rps as int);
                    lemma_mul_nonnegative((p.amount + amount) as int, rps as int);
                    lemma_entitlement_mono(
                        p.amount as int,
                        self.reward_per_share as int,
                        rps as int,
                    );
                }
                let prod = match p.amount.checked_mul(rps) {
                    Some(v) => v,
                    None => { return Err(StakingError::NumericOverflow) },
                };
                let pending_amt = div_nonneg(prod, PRECISION) - p.reward_debt;
                let new_amount = match p.amount.checked_add(amount) {
                    Some(v) => v,
                    None => { return Err(StakingError::NumericOverflow) },
                };
                let prod2 = match new_amount.checked_mul(rps) {
                    Some(v) => v,
                    None => { return Err(StakingError::NumericOverflow) },
                };
                let new_accrued = match p.accrued.checked_add(pending_amt) {
                    Some(v) => v,
                    None => { return Err(StakingError::NumericOverflow) },
                };
                let new_total = match self.total_staked.checked_add(amount) {
                    Some(v) => v,
                    None => { return Err(StakingError::NumericOverflow) },
                };
                if new_amount > self.max_stake_per_account {
                    return Err(StakingError::MaxStakeExceeded);
                }
                let new_debt = div_nonneg(prod2, PRECISION);
                let newinfo = StakeInfo {
                    amount: new_amount,
                    reward_debt: new_debt,
                    accrued: new_accrued,
                    lock_period: p.lock_period,
                    staked_at: p.staked_at,
                    reward_multiplier: p.reward_multiplier,
                    compound_count: p.compound_count,
                };
                self.positions[i] = (user, newinfo);
                self.total_staked = new_total;
                self.reward_per_share = rps;
                self.pool_distributed = dist;
                self.last_update_at = upd;
                proof {
                    assert(newinfo == stake_grown(position_of(s.positions@, user), amount, rps));
                    lemma_sum_update(
                        old(self).positions@,
                        i as int,
                        (user, newinfo),
                    );
                    assert(self.positions@ == s.positions@.update(
                        user_index(s.positions@, user),
                        (user, newinfo),
                    ));
                    lemma_div_at_most(prod2 as int, PRECISION as int);
                    assert(newinfo.amount * rps == prod2);
                    assert(newinfo.reward_debt == newinfo.amount * rps / (PRECISION as int));
                    assert(pos_wf(newinfo, rps));
                    assert forall|k: int| 0 <= k < self.positions@.len() implies pos_wf(
                        (#[trigger] self.positions@[k]).1,
                        self.reward_per_share,
                    ) by {
                        if k == i as int {
                            assert(self.positions@[k].1 == newinfo);
                        } else {
                            assert(self.positions@[k] == s.positions@[k]);
                            assert(pos_wf(s.positions@[k].1, rps));
                        }
                    }
                }
                Ok(())
            },
            None => {
                proof {
                    lemma_mul_nonnegative(amount as int, rps as int);
                    lemma_sched_lookup_nonneg(
                        self.lock_periods@,
                        self.reward_multipliers@,
                        lock_period,
                    );
                }
                let prod = match amount.checked_mul(rps) {
                    Some(v) => v,
                    None => { return Err(StakingError::NumericOverflow) },
                };
                let new_total = match self.total_staked.checked_add(amount) {
                    Some(v) => v,
                    None => { return Err(StakingError::NumericOverflow) },
                };
                if amount > self.max_stake_per_account {
                    return Err(StakingError::MaxStakeExceeded);
                }
                let debt = div_nonneg(prod, PRECISION);
                let info = StakeInfo {
                    amount,
                    lock_period,
                    staked_at: now,
                    reward_multiplier: mult,
                    reward_debt: debt,
                    accrued: 0,
                    compound_count: 0,
                };
                self.positions.push((user, info));
                self.total_staked = new_total;
                self.reward_per_share = rps;
                self.pool_distributed = dist;
                self.last_update_at = upd;
                proof {
                    assert(info == fresh_position(amount, lock_period, mult, rps, now));
                    lemma_sum_push(old(self).positions@, (user, info));
                    lemma_div_at_most(prod as int, PRECISION as int);
                    assert(info.amount * rps == prod);
                    assert(pos_wf(info, rps));
                    assert forall|k: int| 0 <= k < self.positions@.len() implies pos_wf(
                        (#[trigger] self.positions@[k]).1,
                        self.reward_per_share,
                    ) by {
                        if k < self.positions@.len() - 1 {
                            assert(self.positions@[k] == s.positions@[k]);
                            assert(pos_wf(s.positions@[k].1, rps));
                        } else {
                            assert(self.positions@[k].1 == info);
                        }
                    }
                    assert forall|a: int, b: int|
                        0 <= a < b < self.positions@.len() implies self.positions@[a].0
                        != self.positions@[b].0 by {
                        if b == self.positions@.len() - 1 {
                            assert(!has_user(s.positions@, user));
                            assert(s.positions@[a] == self.positions@[a]);
                        }
                    }
                }
                Ok(())
            },
        }
    }
}


impl StakingContract {
    /// Close `user`'s position.  Before the lock expires the call fails with
    /// `LockPeriodNotExpired` unless `apply_early_fee` is set, in which case
    /// an early-withdrawal fee is deducted from principal only.  Pending and
    /// accrued rewards are always paid out in full; the position is removed
    /// and `total_staked` shrinks by its principal.
    pub fn unstake(&mut self, user: u64, apply_early_fee: bool, now: u64) -> (r: Result<
        i128,
        StakingError,
    >)
        requires
            old(self).wf(),
        ensures
            final(self).wf(),
            final(self).reward_per_share >= old(self).reward_per_share,
            final(self).pool_funded == old(self).pool_funded,
            r is Err ==> *final(self) == *old(self),
            !old(self).is_init() ==> r == Err::<i128, StakingError>(StakingError::NotInitialized),
            old(self).is_init() && old(self).paused() ==> r == Err::<i128, StakingError>(
                StakingError::ContractPaused,
            ),
            old(self).is_init() && !old(self).paused() && !has_user(old(self).positions@, user)
                ==> r == Err::<i128, StakingError>(StakingError::StakeNotFound),
            old(self).is_init() && !old(self).paused() && has_user(old(self).positions@, user)
                && now < position_of(old(self).positions@, user).staked_at + position_of(
                old(self).positions@,
                user,
            ).lock_period && !apply_early_fee ==> r == Err::<i128, StakingError>(
                StakingError::LockPeriodNotExpired,
            ),
            old(self).is_init() && !old(self).paused() && has_user(old(self).positions@, user)
                && !(now < position_of(old(self).positions@, user).staked_at + position_of(
                old(self).positions@,
                user,
            ).lock_period && !apply_early_fee) && unstake_overflow(
                old(self).settled(now),
                user,
                apply_early_fee,
                now,
            ) ==> r == Err::<i128, StakingError>(StakingError::NumericOverflow),
            r is Ok <==> old(self).is_init() && !old(self).paused() && has_user(
                old(self).positions@,
                user,
            ) && !(now < position_of(old(self).positions@, user).staked_at + position_of(
                old(self).positions@,
                user,
            ).lock_period && !apply_early_fee) && !unstake_overflow(
                old(self).settled(now),
                user,
                apply_early_fee,
                now,
            ),
            r is Ok ==> ({
                let s = old(self).settled(now);
                let p = position_of(s.positions@, user);
                &&& s.same_but_positions(*final(self))
                &&& r == Ok::<i128, StakingError>(
                    unstake_payout(p, s.reward_per_share, apply_early_fee, now) as i128,
                )
                &&& final(self).total_staked == s.total_staked - p.amount
                &&& final(self).positions@ == s.positions@.remove(user_index(s.positions@, user))
                &&& !has_user(final(self).positions@, user)
            }),
    {
        let cfg = match self.config {
            Some(c) => c,
            None => { return Err(StakingError::NotInitialized) },
        };
        if cfg.emergency_pause {
            return Err(StakingError::ContractPaused);
        }
        let i = match self.find_position(user) {
            Some(i) => i,
            None => { return Err(StakingError::StakeNotFound) },
        };
        let p = self.positions[i].1;
        proof {
            lemma_user_index_is(self.positions@, user, i as int);
        }
        let expiry = p.staked_at.checked_add(p.lock_period);
        let early = match expiry {
            Some(e) => now < e,
            None => true,
        };
        if early && !apply_early_fee {
            return Err(StakingError::LockPeriodNotExpired);
        }
        let (rps, dist, upd) = self.settle_values(now);
        proof {
            old(self).lemma_settled_wf(now);
        }
        let ghost s = old(self).settled(now);
        let fee: i128 = if early {
            let fp = match p.amount.checked_mul(EARLY_UNSTAKE_FEE_BP) {
                Some(v) => v,
                None => { return Err(StakingError::NumericOverflow) },
            };
            proof {
                lemma_mul_nonnegative(p.amount as int, EARLY_UNSTAKE_FEE_BP as int);
                lemma_mul_inequality(
                    EARLY_UNSTAKE_FEE_BP as int,
                    MAX_BASIS_POINTS as int,
                    p.amount as int,
                );
                assert(p.amount * EARLY_UNSTAKE_FEE_BP == EARLY_UNSTAKE_FEE_BP * p.amount)
                    by (nonlinear_arith);
                assert(p.amount * MAX_BASIS_POINTS == MAX_BASIS_POINTS * p.amount)
                    by (nonlinear_arith);
                lemma_div_is_ordered(
                    p.amount * (EARLY_UNSTAKE_FEE_BP as int),
                    p.amount * (MAX_BASIS_POINTS as int),
                    MAX_BASIS_POINTS as int,
                );
                lemma_div_multiples_vanish(p.amount as int, MAX_BASIS_POINTS as int);
                assert(p.amount * (MAX_BASIS_POINTS as int) == (MAX_BASIS_POINTS as int)
                    * (p.amount as int)) by (nonlinear_arith);
            }
            div_nonneg(fp, MAX_BASIS_POINTS)
        } else {
            0
        };
        assert(0 <= fee <= p.amount);
        assert(fee == unstake_fee(p, apply_early_fee, now));
        proof {
            lemma_mul_nonnegative(p.amount as int, rps as int);
            lemma_entitlement_mono(p.amount as int, self.reward_per_share as int, rps as int);
        }
        let prod = match p.amount.checked_mul(rps) {
            Some(v) => v,
            None => { return Err(StakingError::NumericOverflow) },
        };
        let pending_amt = div_nonneg(prod, PRECISION) - p.reward_debt;
        let base = match (p.amount - fee).checked_add(p.accrued) {
            Some(v) => v,
            None => { return Err(StakingError::NumericOverflow) },
        };
        let payout = match base.checked_add(pending_amt) {
            Some(v) => v,
            None => { return Err(StakingError::NumericOverflow) },
        };
        proof {
            lemma_sum_lower_bound(self.positions@, i as int);
            lemma_sum_remove(self.positions@, i as int);
        }
        self.positions.remove(i);
        self.total_staked = self.total_staked - p.amount;
        self.reward_per_share = rps;
        self.pool_distributed = dist;
        self.last_update_at = upd;
        proof {
            assert(payout == unstake_payout(p, rps, apply_early_fee, now));
            assert(self.positions@ == s.positions@.remove(user_index(s.positions@, user)));
            assert forall|k: int| 0 <= k < self.positions@.len() implies pos_wf(
                (#[trigger] self.positions@[k]).1,
                self.reward_per_share,
            ) by {
                if k < i as int {
                    assert(self.positions@[k] == s.positions@[k]);
                    assert(pos_wf(s.positions@[k].1, rps));
                } else {
                    assert(self.positions@[k] == s.positions@[k + 1]);
                    assert(pos_wf(s.positions@[k + 1].1, rps));
                }
            }
            assert forall|k: int| 0 <= k < self.positions@.len() implies (
            #[trigger] self.positions@[k]).0 != user by {
                if k < i as int {
                    assert(self.positions@[k] == s.positions@[k]);
                } else {
                    assert(self.positions@[k] == s.positions@[k + 1]);
                }
            }
        }
        Ok(payout)
    }

    /// Compound `user`'s position: flush pending and accrued rewards into the
    /// principal, restart the lock at `now` under `new_lock_period`, and
    /// rebase the debt marker, so nothing is counted twice.
    pub fn restake(&mut self, user: u64, new_lock_period: u64, now: u64) -> (r: Result<
        (),
        StakingError,
    >)
        requires
            old(self).wf(),
        ensures
            final(self).wf(),
            final(self).reward_per_share >= old(self).reward_per_share,
            final(self).pool_funded == old(self).pool_funded,
            r is Err ==> *final(self) == *old(self),
            !old(self).is_init() ==> r == Err::<(), StakingError>(StakingError::NotInitialized),
            old(self).is_init() && old(self).paused() ==> r == Err::<(), StakingError>(
                StakingError::ContractPaused,
            ),
            old(self).is_init() && !old(self).paused() && old(self).sched_mult(new_lock_period)
                is None ==> r == Err::<(), StakingError>(StakingError::InvalidLockPeriod),
            old(self).is_init() && !old(self).paused() && old(self).sched_mult(new_lock_period)
                is Some && !has_user(old(self).positions@, user) ==> r == Err::<
                (),
                StakingError,
            >(StakingError::StakeNotFound),
            old(self).is_init() && !old(self).paused() && old(self).sched_mult(new_lock_period)
                is Some && has_user(old(self).positions@, user) && restake_overflow(
                old(self).settled(now),
                user,
            ) ==> r == Err::<(), StakingError>(StakingError::NumericOverflow),
            old(self).is_init() && !old(self).paused() && old(self).sched_mult(new_lock_period)
                is Some && has_user(old(self).positions@, user) && !restake_overflow(
                old(self).settled(now),
                user,
            ) && ({
                let p = position_of(old(self).settled(now).positions@, user);
                p.amount + pending_of(p, old(self).settled(now).reward_per_share) + p.accrued
                    > old(self).max_stake_per_account
            }) ==> r == Err::<(), StakingError>(StakingError::MaxStakeExceeded),
            r is Ok <==> old(self).is_init() && !old(self).paused() && old(self).sched_mult(
                new_lock_period,
            ) is Some && has_user(old(self).positions@, user) && !restake_overflow(
                old(self).settled(now),
                user,
            ) && ({
                let p = position_of(old(self).settled(now).positions@, user);
                p.amount + pending_of(p, old(self).settled(now).reward_per_share) + p.accrued
                    <= old(self).max_stake_per_account
            }),
            r is Ok ==> ({
                let s = old(self).settled(now);
                let p = position_of(s.positions@, user);
                let np = compounded(
                    p,
                    new_lock_period,
                    old(self).sched_mult(new_lock_period)->0,
                    s.reward_per_share,
                    now,
                );
                &&& s.same_but_positions(*final(self))
                &&& final(self).total_staked == s.total_staked + pending_of(
                    p,
                    s.reward_per_share,
                ) + p.accrued
                &&& final(self).positions@ == s.positions@.update(
                    user_index(s.positions@, user),
                    (user, np),
                )
                &&& pending_of(np, final(self).reward_per_share) == 0
            }),
    {
        let cfg = match self.config {
            Some(c) => c,
            None => { return Err(StakingError::NotInitialized) },
        };
        if cfg.emergency_pause {
            return Err(StakingError::ContractPaused);
        }
        let mult = match self.lookup_multiplier(new_lock_period) {
            Some(m) => m,
            None => { return Err(StakingError::InvalidLockPeriod) },
        };
        let i = match self.find_position(user) {
            Some(i) => i,
            None => { return Err(StakingError::StakeNotFound) },
        };
        let p = self.positions[i].1;
        proof {
            lemma_user_index_is(self.positions@, user, i as int);
        }
        let (rps, dist, upd) = self.settle_values(now);
        proof {
            old(self).lemma_settled_wf(now);
            lemma_mul_nonnegative(p.amount as int, rps as int);
            lemma_entitlement_mono(p.amount as int, self.reward_per_share as int, rps as int);
        }
        let ghost s = old(self).settled(now);
        let prod = match p.amount.checked_mul(rps) {
            Some(v) => v,
            None => { return Err(StakingError::NumericOverflow) },
        };
        let pending_amt = div_nonneg(prod, PRECISION) - p.reward_debt;
        let gain = match pending_amt.checked_add(p.accrued) {
            Some(v) => v,
            None => { return Err(StakingError::NumericOverflow) },
        };
        let grown = match p.amount.checked_add(gain) {
            Some(v) => v,
            None => { return Err(StakingError::NumericOverflow) },
        };
        proof {
            lemma_mul_nonnegative(grown as int, rps as int);
        }
        let prod2 = match grown.checked_mul(rps) {
            Some(v) => v,
            None => { return Err(StakingError::NumericOverflow) },
        };
        let new_total = match self.total_staked.checked_add(gain) {
            Some(v) => v,
            None => { return Err(StakingError::NumericOverflow) },
        };
        if grown > self.max_stake_per_account {
            return Err(StakingError::MaxStakeExceeded);
        }
        let new_debt = div_nonneg(prod2, PRECISION);
        let np = StakeInfo {
            amount: grown,
            lock_period: new_lock_period,
            staked_at: now,
            reward_multiplier: mult,
            reward_debt: new_debt,
            accrued: 0,
            compound_count: if p.compound_count < u32::MAX {
                p.compound_count + 1
            } else {
                p.compound_count
            },
        };
        self.positions[i] = (user, np);
        self.total_staked = new_total;
        self.reward_per_share = rps;
        self.pool_distributed = dist;
        self.last_update_at = upd;
        proof {
            lemma_sched_lookup_nonneg(
                old(self).lock_periods@,
                old(self).reward_multipliers@,
                new_lock_period,
            );
            assert(np == compounded(
                position_of(s.positions@, user),
                new_lock_period,
                mult,
                rps,
                now,
            ));
            lemma_sum_update(old(self).positions@, i as int, (user, np));
            assert(self.positions@ == s.positions@.update(
                user_index(s.positions@, user),
                (user, np),
            ));
            lemma_div_at_most(prod2 as int, PRECISION as int);
            assert(np.amount * rps == prod2);
            assert(np.reward_debt == np.amount * rps / (PRECISION as int));
            assert(pending_of(np, rps) == 0);
            assert(pos_wf(np, rps));
            assert forall|k: int| 0 <= k < self.positions@.len() implies pos_wf(
                (#[trigger] self.positions@[k]).1,
                self.reward_per_share,
            ) by {
                if k == i as int {
                    assert(self.positions@[k].1 == np);
                } else {
                    assert(self.positions@[k] == s.positions@[k]);
                    assert(pos_wf(s.positions@[k].1, rps));
                }
            }
        }
        Ok(())
    }

    /// Settle, then report `user`'s total claimable reward: the accrued
    /// balance plus the pending amount under the up-to-date accumulator.
    pub fn calculate_rewards(&mut self, user: u64, now: u64) -> (r: Result<i128, StakingError>)
        requires
            old(self).wf(),
        ensures
            final(self).wf(),
            final(self).reward_per_share >= old(self).reward_per_share,
            final(self).pool_funded == old(self).pool_funded,
            r is Err ==> *final(self) == *old(self),
            !old(self).is_init() ==> r == Err::<i128, StakingError>(StakingError::NotInitialized),
            old(self).is_init() && !has_user(old(self).positions@, user) ==> r == Err::<
                i128,
                StakingError,
            >(StakingError::StakeNotFound),
            old(self).is_init() && has_user(old(self).positions@, user) && ({
                let s = old(self).settled(now);
                let p = position_of(s.positions@, user);
                p.amount * s.reward_per_share > i128::MAX || p.accrued + pending_of(
                    p,
                    s.reward_per_share,
                ) > i128::MAX
            }) ==> r == Err::<i128, StakingError>(StakingError::NumericOverflow),
            r is Ok <==> old(self).is_init() && has_user(old(self).positions@, user) && ({
                let s = old(self).settled(now);
                let p = position_of(s.positions@, user);
                p.amount * s.reward_per_share <= i128::MAX && p.accrued + pending_of(
                    p,
                    s.reward_per_share,
                ) <= i128::MAX
            }),
            r is Ok ==> ({
                let s = old(self).settled(now);
                let p = position_of(s.positions@, user);
                &&& *final(self) == s
                &&& r == Ok::<i128, StakingError>(
                    (p.accrued + pending_of(p, s.reward_per_share)) as i128,
                )
            }),
    {
        if self.config.is_none() {
            return Err(StakingError::NotInitialized);
        }
        let i = match self.find_position(user) {
            Some(i) => i,
            None => { return Err(StakingError::StakeNotFound) },
        };
        let p = self.positions[i].1;
        proof {
            lemma_user_index_is(self.positions@, user, i as int);
        }
        let (rps, dist, upd) = self.settle_values(now);
        proof {
            old(self).lemma_settled_wf(now);
            lemma_mul_nonnegative(p.amount as int, rps as int);
            lemma_entitlement_mono(p.amount as int, self.reward_per_share as int, rps as int);
        }
        let prod = match p.amount.checked_mul(rps) {
            Some(v) => v,
            None => { return Err(StakingError::NumericOverflow) },
        };
        let pending_amt = div_nonneg(prod, PRECISION) - p.reward_debt;
        let total = match p.accrued.checked_add(pending_amt) {
            Some(v) => v,
            None => { return Err(StakingError::NumericOverflow) },
        };
        self.reward_per_share = rps;
        self.pool_distributed = dist;
        self.last_update_at = upd;
        proof {
            assert(*self =~= old(self).settled(now));
        }
        Ok(total)
    }
}


/// Reward accrued by a principal `p` while the accumulator rises from `r0`
/// to `r1`, as the ledger computes it (floor-scaled at both ends).
pub open spec fn accrual_between(p: int, r0: int, r1: int) -> int {
    p * r1 / (PRECISION as int) - p * r0 / (PRECISION as int)
}

/// Conservation: in any well-formed ledger the distributed total never
/// exceeds the funded total, and the position table's principals sum to
/// `total_staked`.  Every operation of `StakingContract` requires and
/// preserves `wf`, so this holds at all times.
pub proof fn lemma_conservation(s: StakingContract)
    requires
        s.wf(),
    ensures
        s.pool_distributed <= s.pool_funded,
        sum_principals(s.positions@) == s.total_staked,
{
}

/// Monotonicity: settling the accumulator never decreases
/// `reward_per_share` and never changes the funded total; together with the
/// operations' own contracts — each states that `reward_per_share` and
/// `pool_funded` do not decrease across the call — the two quantities are
/// non-decreasing across any sequence of operations.
pub proof fn lemma_monotonic_accumulator(s: StakingContract, now: u64)
    requires
        s.wf(),
    ensures
        s.settled(now).reward_per_share >= s.reward_per_share,
        s.settled(now).pool_funded == s.pool_funded,
{
    s.lemma_settled_wf(now);
}

/// The ring identity behind proportional accrual.
proof fn lemma_prop_ring(
    p1: int,
    p2: int,
    r0: int,
    r1: int,
    m: int,
    x11: int,
    a11: int,
    x10: int,
    a10: int,
    x21: int,
    a21: int,
    x20: int,
    a20: int,
)
    by (nonlinear_arith)
    requires
        p1 * r1 == m * x11 + a11,
        p1 * r0 == m * x10 + a10,
        p2 * r1 == m * x21 + a21,
        p2 * r0 == m * x20 + a20,
    ensures
        m * ((x11 - x10) * p2 - (x21 - x20) * p1) == (a10 - a11) * p2 + (a21 - a20) * p1,
{
    assert(m * (x11 - x10) == p1 * (r1 - r0) + a10 - a11);
    assert(m * (x21 - x20) == p2 * (r1 - r0) + a20 - a21);
    assert(m * ((x11 - x10) * p2) == (p1 * (r1 - r0) + a10 - a11) * p2);
    assert(m * ((x21 - x20) * p1) == (p2 * (r1 - r0) + a20 - a21) * p1);
    assert((p1 * (r1 - r0)) * p2 == (p2 * (r1 - r0)) * p1);
}

/// Bounding the rounding residue of proportional accrual.
proof fn lemma_prop_bound(
    d: int,
    m: int,
    p1: int,
    p2: int,
    a11: int,
    a10: int,
    a21: int,
    a20: int,
)
    by (nonlinear_arith)
    requires
        0 < m,
        0 < p1,
        0 < p2,
        0 <= a11 < m,
        0 <= a10 < m,
        0 <= a21 < m,
        0 <= a20 < m,
        m * d == (a10 - a11) * p2 + (a21 - a20) * p1,
    ensures
        -(p1 + p2) < d < p1 + p2,
{
    assert((a10 - a11) * p2 <= (m - 1) * p2);
    assert((a10 - a11) * p2 >= -((m - 1) * p2));
    assert((a21 - a20) * p1 <= (m - 1) * p1);
    assert((a21 - a20) * p1 >= -((m - 1) * p1));
    assert(m * d < m * (p1 + p2));
    assert(m * d > -(m * (p1 + p2)));
}

/// Proportionality: two positions with principals `p1` and `p2`, whose debt
/// markers were both taken at accumulator value `r0`, accrue rewards in
/// proportion to their principals while the accumulator rises to `r1`, up to
/// integer rounding: the cross products of their accruals differ by less
/// than `p1 + p2`.  In particular, equal principals accrue equal rewards.
pub proof fn lemma_proportional_rewards(p1: int, p2: int, r0: int, r1: int)
    requires
        0 < p1,
        0 < p2,
        0 <= r0 <= r1,
    ensures
        -(p1 + p2) < accrual_between(p1, r0, r1) * p2 - accrual_between(p2, r0, r1) * p1 < p1
            + p2,
        p1 == p2 ==> accrual_between(p1, r0, r1) == accrual_between(p2, r0, r1),
{
    let m = PRECISION as int;
    lemma_fundamental_div_mod(p1 * r1, m);
    lemma_mod_division_less_than_divisor(p1 * r1, m);
    lemma_fundamental_div_mod(p1 * r0, m);
    lemma_mod_division_less_than_divisor(p1 * r0, m);
    lemma_fundamental_div_mod(p2 * r1, m);
    lemma_mod_division_less_than_divisor(p2 * r1, m);
    lemma_fundamental_div_mod(p2 * r0, m);
    lemma_mod_division_less_than_divisor(p2 * r0, m);
    lemma_prop_ring(
        p1,
        p2,
        r0,
        r1,
        m,
        p1 * r1 / m,
        (p1 * r1) % m,
        p1 * r0 / m,
        (p1 * r0) % m,
        p2 * r1 / m,
        (p2 * r1) % m,
        p2 * r0 / m,
        (p2 * r0) % m,
    );
    lemma_prop_bound(
        accrual_between(p1, r0, r1) * p2 - accrual_between(p2, r0, r1) * p1,
        m,
        p1,
        p2,
        (p1 * r1) % m,
        (p1 * r0) % m,
        (p2 * r1) % m,
        (p2 * r0) % m,
    );
}

} // verus!

//! The liquidity pool registry: pools mirrored from the AMM, per-account LP
//! positions, and daily fee bookkeeping for reward calculation.
//!
//! Pool registration and liquidity movements are admin-recorded after the
//! host confirms the corresponding AMM transaction; this ledger keeps the
//! authoritative per-account share accounting.

use vstd::prelude::*;
use crate::arith::{div_nonneg, sat_add_i128, sat_add_spec, sat_sub_i128, sat_sub_spec, SECONDS_PER_DAY};
use crate::registry::lp_shares_spec;
use crate::table::{
    keyed_find, keyed_get, keyed_has, keyed_put, keyed_store, keyed_unique, lemma_keyed_index_is,
    paired_find, paired_remove, paired_store,
};
use vstd::arithmetic::mul::lemma_mul_nonnegative;

verus! {

/// Largest pool fee in basis points (10%).
pub const MAX_POOL_FEE_BP: i128 = 1000;

/// Errors returned by the liquidity ledger.
#[derive(Clone, Copy, Debug, PartialEq, Eq, Structural)]
pub enum LiquidityError {
    NotInitialized,
    AlreadyInitialized,
    Unauthorized,
    PoolNotFound,
    InsufficientLiquidity,
    InvalidTokens,
    InvalidFeeRate,
    ContractPaused,
    PoolLimitReached,
    InvalidPoolId,
    PositionNotFound,
    NumericOverflow,
}

/// One mirrored liquidity pool.
#[derive(Clone, Copy, Debug, PartialEq, Eq, Structural)]
pub struct LiquidityPool {
    pub pool_id: u64,
    pub token_a: u64,
    pub token_b: u64,
    pub total_liquidity: i128,
    pub reserve_a: i128,
    pub reserve_b: i128,
    pub fee_rate: i128,
    pub created_at: u64,
    pub active: bool,
}

/// One account's LP position in a pool.
#[derive(Clone, Copy, Debug, PartialEq, Eq, Structural)]
pub struct LPPosition {
    pub user: u64,
    pub pool_id: u64,
    pub lp_amount: i128,
    pub asset_a_deposited: i128,
    pub asset_b_deposited: i128,
    pub timestamp: u64,
    pub last_reward_claim: u64,
    pub total_fees_earned: i128,
}

/// Configuration fixed at initialization, with the administrative switches.
#[derive(Clone, Copy, Debug, PartialEq, Eq, Structural)]
pub struct LiquidityConfig {
    pub admin: u64,
    pub staking_contract: u64,
    pub rewards_contract: u64,
    pub min_liquidity: i128,
    pub default_fee_rate: i128,
    pub emergency_pause: bool,
    pub treasury_address: u64,
    pub max_pools: u32,
}

/// Aggregate liquidity statistics.
#[derive(Clone, Copy, Debug, PartialEq, Eq, Structural)]
pub struct GlobalLiquidityStats {
    pub total_value_locked: i128,
    pub total_pools: u32,
    pub total_lp_providers: u32,
    pub total_fees_collected: i128,
    pub last_update: u64,
}

/// The stats after applying deltas, with saturating arithmetic.
pub open spec fn stats_after(
    s: GlobalLiquidityStats,
    tvl_delta: int,
    pools_delta: u32,
    providers_delta: u32,
    fees_delta: int,
    now: u64,
) -> GlobalLiquidityStats {
    GlobalLiquidityStats {
        total_value_locked: sat_add_spec(s.total_value_locked as int, tvl_delta) as i128,
        total_pools: (if s.total_pools + pools_delta > u32::MAX {
            u32::MAX
        } else {
            (s.total_pools + pools_delta) as u32
        }),
        total_lp_providers: (if s.total_lp_providers + providers_delta > u32::MAX {
            u32::MAX
        } else {
            (s.total_lp_providers + providers_delta) as u32
        }),
        total_fees_collected: sat_add_spec(s.total_fees_collected as int, fees_delta) as i128,
        last_update: now,
    }
}

/// The liquidity ledger.
#[verifier::ext_equal]
pub struct LiquidityContract {
    pub config: Option<LiquidityConfig>,
    pub pools: Vec<(u64, LiquidityPool)>,
    pub positions: Vec<((u64, u64), LPPosition)>,
    pub user_pools: Vec<(u64, Vec<u64>)>,
    pub pool_count: u32,
    pub global_stats: GlobalLiquidityStats,
    pub daily_fees: Vec<((u64, u64), i128)>,
}

impl LiquidityContract {
    /// The ledger invariant: unique keys, non-negative LP amounts, and a
    /// validated configuration.
    pub open spec fn wf(&self) -> bool {
        &&& keyed_unique(self.pools@)
        &&& keyed_unique(self.positions@)
        &&& keyed_unique(self.user_pools@)
        &&& keyed_unique(self.daily_fees@)
        &&& (forall|i: int|
            0 <= i < self.positions@.len() ==> 0 <= (#[trigger] self.positions@[i]).1.lp_amount)
        &&& (match self.config {
            Some(c) => 0 < c.min_liquidity && 0 <= c.default_fee_rate <= MAX_POOL_FEE_BP,
            None => true,
        })
    }

    pub open spec fn is_init(&self) -> bool {
        self.config is Some
    }

    pub open spec fn cfg(&self) -> LiquidityConfig {
        self.config->0
    }

    pub open spec fn paused(&self) -> bool {
        match self.config {
            Some(c) => c.emergency_pause,
            None => false,
        }
    }

    /// A fresh, uninitialized ledger.
    pub fn new() -> (r: LiquidityContract)
        ensures
            r.wf(),
            !r.is_init(),
            r.pools@.len() == 0,
            r.positions@.len() == 0,
            r.user_pools@.len() == 0,
            r.pool_count == 0,
            r.daily_fees@.len() == 0,
            r.global_stats == (GlobalLiquidityStats {
                total_value_locked: 0,
                total_pools: 0,
                total_lp_providers: 0,
                total_fees_collected: 0,
                last_update: 0,
            }),
    {
        LiquidityContract {
            config: None,
            pools: Vec::new(),
            positions: Vec::new(),
            user_pools: Vec::new(),
            pool_count: 0,
            global_stats: GlobalLiquidityStats {
                total_value_locked: 0,
                total_pools: 0,
                total_lp_providers: 0,
                total_fees_collected: 0,
                last_update: 0,
            },
            daily_fees: Vec::new(),
        }
    }

    /// Initialize the ledger once: validate and store the configuration.
    pub fn initialize(
        &mut self,
        admin: u64,
        staking_contract: u64,
        rewards_contract: u64,
        treasury_address: u64,
        min_liquidity: i128,
        default_fee_rate: i128,
        max_pools: u32,
        now: u64,
    ) -> (r: Result<(), LiquidityError>)
        requires
            old(self).wf(),
        ensures
            final(self).wf(),
            r is Err ==> *final(self) == *old(self),
            old(self).is_init() ==> r == Err::<(), LiquidityError>(
                LiquidityError::AlreadyInitialized,
            ),
            !old(self).is_init() && !(0 <= default_fee_rate <= MAX_POOL_FEE_BP) ==> r == Err::<
                (),
                LiquidityError,
            >(LiquidityError::InvalidFeeRate),
            !old(self).is_init() && 0 <= default_fee_rate <= MAX_POOL_FEE_BP && min_liquidity
                <= 0 ==> r == Err::<(), LiquidityError>(LiquidityError::InsufficientLiquidity),
            r is Ok <==> !old(self).is_init() && 0 <= default_fee_rate <= MAX_POOL_FEE_BP
                && min_liquidity > 0,
            r is Ok ==> *final(self) == (LiquidityContract {
                config: Some(
                    LiquidityConfig {
                        admin,
                        staking_contract,
                        rewards_contract,
                        min_liquidity,
                        default_fee_rate,
                        emergency_pause: false,
                        treasury_address,
                        max_pools,
                    },
                ),
                pool_count: 0,
                global_stats: GlobalLiquidityStats {
                    total_value_locked: 0,
                    total_pools: 0,
                    total_lp_providers: 0,
                    total_fees_collected: 0,
                    last_update: now,
                },
                ..*old(self)
            }),
    {
        if self.config.is_some() {
            return Err(LiquidityError::AlreadyInitialized);
        }
        if default_fee_rate > MAX_POOL_FEE_BP || default_fee_rate < 0 {
            return Err(LiquidityError::InvalidFeeRate);
        }
        if min_liquidity <= 0 {
            return Err(LiquidityError::InsufficientLiquidity);
        }
        self.config = Some(
            LiquidityConfig {
                admin,
                staking_contract,
                rewards_contract,
                min_liquidity,
                default_fee_rate,
                emergency_pause: false,
                treasury_address,
                max_pools,
            },
        );
        self.pool_count = 0;
        self.global_stats = GlobalLiquidityStats {
            total_value_locked: 0,
            total_pools: 0,
            total_lp_providers: 0,
            total_fees_collected: 0,
            last_update: now,
        };
        proof {
            assert(*final(self) =~= (LiquidityContract {
                config: final(self).config,
                pool_count: 0,
                global_stats: final(self).global_stats,
                ..*old(self)
            }));
        }
        Ok(())
    }

    /// LP tokens minted for a deposit: the geometric mean on first
    /// liquidity, the smaller side afterwards.
    pub fn calculate_lp_tokens(amount_a: i128, amount_b: i128, existing_liquidity: i128) -> (r:
        i128)
        ensures
            existing_liquidity == 0 ==> r == lp_shares_spec(amount_a, amount_b),
            existing_liquidity != 0 ==> r == (if amount_a < amount_b {
                amount_a
            } else {
                amount_b
            }),
            existing_liquidity == 0 ==> 0 <= r,
    {
        if existing_liquidity == 0 {
            crate::registry::StakingRegistry::calculate_lp_shares(amount_a, amount_b)
        } else {
            if amount_a < amount_b {
                amount_a
            } else {
                amount_b
            }
        }
    }

    /// Register a pool mirrored from the AMM, up to the configured pool
    /// limit; its initial liquidity is the geometric mean of the reserves.
    pub fn register_pool(
        &mut self,
        admin: u64,
        pool_id: u64,
        token_a: u64,
        token_b: u64,
        initial_a: i128,
        initial_b: i128,
        fee_rate: Option<i128>,
        now: u64,
    ) -> (r: Result<(), LiquidityError>)
        requires
            old(self).wf(),
        ensures
            final(self).wf(),
            r is Err ==> *final(self) == *old(self),
            !old(self).is_init() ==> r == Err::<(), LiquidityError>(
                LiquidityError::NotInitialized,
            ),
            old(self).is_init() && admin != old(self).cfg().admin ==> r == Err::<
                (),
                LiquidityError,
            >(LiquidityError::Unauthorized),
            old(self).is_init() && admin == old(self).cfg().admin && old(self).paused() ==> r
                == Err::<(), LiquidityError>(LiquidityError::ContractPaused),
            old(self).is_init() && admin == old(self).cfg().admin && !old(self).paused() && old(
                self,
            ).pool_count >= old(self).cfg().max_pools ==> r == Err::<(), LiquidityError>(
                LiquidityError::PoolLimitReached,
            ),
            old(self).is_init() && admin == old(self).cfg().admin && !old(self).paused() && old(
                self,
            ).pool_count < old(self).cfg().max_pools && token_a == token_b ==> r == Err::<
                (),
                LiquidityError,
            >(LiquidityError::InvalidTokens),
            old(self).is_init() && admin == old(self).cfg().admin && !old(self).paused() && old(
                self,
            ).pool_count < old(self).cfg().max_pools && token_a != token_b && (initial_a < 0
                || initial_b < 0) ==> r == Err::<(), LiquidityError>(
                LiquidityError::InsufficientLiquidity,
            ),
            old(self).is_init() && admin == old(self).cfg().admin && !old(self).paused() && old(
                self,
            ).pool_count < old(self).cfg().max_pools && token_a != token_b && initial_a >= 0
                && initial_b >= 0 && keyed_has(old(self).pools@, pool_id) ==> r == Err::<
                (),
                LiquidityError,
            >(LiquidityError::AlreadyInitialized),
            old(self).is_init() && admin == old(self).cfg().admin && !old(self).paused() && old(
                self,
            ).pool_count < old(self).cfg().max_pools && token_a != token_b && initial_a >= 0
                && initial_b >= 0 && !keyed_has(old(self).pools@, pool_id) && !(0 <= (match
                fee_rate {
                Some(f) => f,
                None => old(self).cfg().default_fee_rate,
            }) <= MAX_POOL_FEE_BP) ==> r == Err::<(), LiquidityError>(
                LiquidityError::InvalidFeeRate,
            ),
            r is Ok <==> old(self).is_init() && admin == old(self).cfg().admin && !old(
                self,
            ).paused() && old(self).pool_count < old(self).cfg().max_pools && token_a != token_b
                && initial_a >= 0 && initial_b >= 0 && !keyed_has(old(self).pools@, pool_id) && 0
                <= (match fee_rate {
                Some(f) => f,
                None => old(self).cfg().default_fee_rate,
            }) <= MAX_POOL_FEE_BP,
            r is Ok ==> ({
                let fee = (match fee_rate {
                    Some(f) => f,
                    None => old(self).cfg().default_fee_rate,
                });
                let pool = LiquidityPool {
                    pool_id,
                    token_a,
                    token_b,
                    total_liquidity: lp_shares_spec(initial_a, initial_b) as i128,
                    reserve_a: initial_a,
                    reserve_b: initial_b,
                    fee_rate: fee,
                    created_at: now,
                    active: true,
                };
                &&& final(self).pools@ == keyed_put(old(self).pools@, pool_id, pool)
                &&& final(self).pool_count == (if old(self).pool_count == u32::MAX {
                    u32::MAX
                } else {
                    (old(self).pool_count + 1) as u32
                })
                &&& final(self).global_stats == stats_after(
                    old(self).global_stats,
                    sat_add_spec(initial_a as int, initial_b as int),
                    1,
                    0,
                    0,
                    now,
                )
                &&& *final(self) == (LiquidityContract {
                    pools: final(self).pools,
                    pool_count: final(self).pool_count,
                    global_stats: final(self).global_stats,
                    ..*old(self)
                })
            }),
    {
        let cfg = match self.config {
            Some(c) => c,
            None => { return Err(LiquidityError::NotInitialized) },
        };
        if admin != cfg.admin {
            return Err(LiquidityError::Unauthorized);
        }
        if cfg.emergency_pause {
            return Err(LiquidityError::ContractPaused);
        }
        if self.pool_count >= cfg.max_pools {
            return Err(LiquidityError::PoolLimitReached);
        }
        if token_a == token_b {
            return Err(LiquidityError::InvalidTokens);
        }
        if initial_a < 0 || initial_b < 0 {
            return Err(LiquidityError::InsufficientLiquidity);
        }
        match keyed_find(&self.pools, pool_id) {
            Some(i) => {
                proof {
                    lemma_keyed_index_is(self.pools@, pool_id, i as int);
                }
                return Err(LiquidityError::AlreadyInitialized);
            },
            None => {},
        }
        let fee = match fee_rate {
            Some(f) => f,
            None => cfg.default_fee_rate,
        };
        if fee > MAX_POOL_FEE_BP || fee < 0 {
            return Err(LiquidityError::InvalidFeeRate);
        }
        let initial_liquidity = Self::calculate_lp_tokens(initial_a, initial_b, 0);
        let pool = LiquidityPool {
            pool_id,
            token_a,
            token_b,
            total_liquidity: initial_liquidity,
            reserve_a: initial_a,
            reserve_b: initial_b,
            fee_rate: fee,
            created_at: now,
            active: true,
        };
        keyed_store(&mut self.pools, pool_id, pool);
        self.pool_count = self.pool_count.saturating_add(1);
        let tvl = sat_add_i128(initial_a, initial_b);
        self.global_stats = GlobalLiquidityStats {
            total_value_locked: sat_add_i128(self.global_stats.total_value_locked, tvl),
            total_pools: self.global_stats.total_pools.saturating_add(1),
            total_lp_providers: self.global_stats.total_lp_providers,
            total_fees_collected: self.global_stats.total_fees_collected,
            last_update: now,
        };
        proof {
            assert(*final(self) == (LiquidityContract {
                pools: final(self).pools,
                pool_count: final(self).pool_count,
                global_stats: final(self).global_stats,
                ..*old(self)
            }));
        }
        Ok(())
    }
}


/// Copy a list of identifiers.
fn copy_ids(v: &Vec<u64>) -> (r: Vec<u64>)
    ensures
        r@ == v@,
{
    let mut out: Vec<u64> = Vec::new();
    let n = v.len();
    let mut j: usize = 0;
    while j < n
        invariant
            0 <= j <= n,
            n == v@.len(),
            out@ == v@.take(j as int),
        decreases n - j,
    {
        out.push(v[j]);
        proof {
            assert(out@ =~= v@.take(j as int + 1));
        }
        j = j + 1;
    }
    proof {
        assert(v@.take(n as int) =~= v@);
    }
    out
}

/// Whether `x` occurs in the list.
fn ids_contain(v: &Vec<u64>, x: u64) -> (r: bool)
    ensures
        r == v@.contains(x),
{
    let n = v.len();
    let mut j: usize = 0;
    while j < n
        invariant
            0 <= j <= n,
            n == v@.len(),
            forall|t: int| 0 <= t < j ==> v@[t] != x,
        decreases n - j,
    {
        if v[j] == x {
            return true;
        }
        j = j + 1;
    }
    false
}

/// The list with every occurrence of `x` removed.
pub open spec fn ids_removed(s: Seq<u64>, x: u64) -> Seq<u64> {
    s.filter(|p: u64| p != x)
}

/// The list with every occurrence of `x` removed.
fn ids_without(v: &Vec<u64>, x: u64) -> (r: Vec<u64>)
    ensures
        r@ == ids_removed(v@, x),
{
    let mut out: Vec<u64> = Vec::new();
    proof {
        reveal(Seq::filter);
        assert(v@.take(0).len() == 0);
    }
    let n = v.len();
    let mut j: usize = 0;
    while j < n
        invariant
            0 <= j <= n,
            n == v@.len(),
            out@ == ids_removed(v@.take(j as int), x),
        decreases n - j,
    {
        proof {
            reveal(Seq::filter);
            assert(v@.take(j as int + 1).drop_last() =~= v@.take(j as int));
            assert(v@.take(j as int + 1).last() == v@[j as int]);
            assert(ids_removed(v@.take(j as int + 1), x) == (if v@[j as int] != x {
                ids_removed(v@.take(j as int), x).push(v@[j as int])
            } else {
                ids_removed(v@.take(j as int), x)
            }));
        }
        if v[j] != x {
            out.push(v[j]);
        }
        j = j + 1;
    }
    proof {
        assert(v@.take(n as int) =~= v@);
    }
    out
}

impl LiquidityContract {
    /// Record a confirmed liquidity addition: grow the pool's reserves and
    /// the account's position, and track the pool under the account.
    pub fn record_liquidity_addition(
        &mut self,
        admin: u64,
        user: u64,
        pool_id: u64,
        amount_a: i128,
        amount_b: i128,
        lp_tokens_minted: i128,
        now: u64,
    ) -> (r: Result<(), LiquidityError>)
        requires
            old(self).wf(),
        ensures
            final(self).wf(),
            r is Err ==> *final(self) == *old(self),
            !old(self).is_init() ==> r == Err::<(), LiquidityError>(
                LiquidityError::NotInitialized,
            ),
            old(self).is_init() && admin != old(self).cfg().admin ==> r == Err::<
                (),
                LiquidityError,
            >(LiquidityError::Unauthorized),
            old(self).is_init() && admin == old(self).cfg().admin && old(self).paused() ==> r
                == Err::<(), LiquidityError>(LiquidityError::ContractPaused),
            old(self).is_init() && admin == old(self).cfg().admin && !old(self).paused() && (
            amount_a <= 0 || amount_b <= 0 || lp_tokens_minted <= 0) ==> r == Err::<
                (),
                LiquidityError,
            >(LiquidityError::InsufficientLiquidity),
            old(self).is_init() && admin == old(self).cfg().admin && !old(self).paused()
                && amount_a > 0 && amount_b > 0 && lp_tokens_minted > 0 && !keyed_has(
                old(self).pools@,
                pool_id,
            ) ==> r == Err::<(), LiquidityError>(LiquidityError::PoolNotFound),
            old(self).is_init() && admin == old(self).cfg().admin && !old(self).paused()
                && amount_a > 0 && amount_b > 0 && lp_tokens_minted > 0 && keyed_has(
                old(self).pools@,
                pool_id,
            ) && !keyed_get(old(self).pools@, pool_id).active ==> r == Err::<
                (),
                LiquidityError,
            >(LiquidityError::ContractPaused),
            r is Ok <==> old(self).is_init() && admin == old(self).cfg().admin && !old(
                self,
            ).paused() && amount_a > 0 && amount_b > 0 && lp_tokens_minted > 0 && keyed_has(
                old(self).pools@,
                pool_id,
            ) && keyed_get(old(self).pools@, pool_id).active,
            r is Ok ==> ({
                let p = keyed_get(old(self).pools@, pool_id);
                let np = LiquidityPool {
                    reserve_a: sat_add_spec(p.reserve_a as int, amount_a as int) as i128,
                    reserve_b: sat_add_spec(p.reserve_b as int, amount_b as int) as i128,
                    total_liquidity: sat_add_spec(
                        p.total_liquidity as int,
                        lp_tokens_minted as int,
                    ) as i128,
                    ..p
                };
                let had = keyed_has(old(self).positions@, (user, pool_id));
                let pos = (if had {
                    keyed_get(old(self).positions@, (user, pool_id))
                } else {
                    LPPosition {
                        user,
                        pool_id,
                        lp_amount: 0,
                        asset_a_deposited: 0,
                        asset_b_deposited: 0,
                        timestamp: now,
                        last_reward_claim: now,
                        total_fees_earned: 0,
                    }
                });
                let new_provider = pos.lp_amount == 0;
                let npos = LPPosition {
                    lp_amount: sat_add_spec(pos.lp_amount as int, lp_tokens_minted as int)
                        as i128,
                    asset_a_deposited: sat_add_spec(
                        pos.asset_a_deposited as int,
                        amount_a as int,
                    ) as i128,
                    asset_b_deposited: sat_add_spec(
                        pos.asset_b_deposited as int,
                        amount_b as int,
                    ) as i128,
                    ..pos
                };
                &&& final(self).pools@ == keyed_put(old(self).pools@, pool_id, np)
                &&& final(self).positions@ == keyed_put(
                    old(self).positions@,
                    (user, pool_id),
                    npos,
                )
                &&& crate::registry::pools_list_of(final(self).user_pools@, user) == (if
                new_provider {
                    crate::registry::pools_list_of(old(self).user_pools@, user).push(pool_id)
                } else {
                    crate::registry::pools_list_of(old(self).user_pools@, user)
                })
                &&& final(self).global_stats == stats_after(
                    old(self).global_stats,
                    sat_add_spec(amount_a as int, amount_b as int),
                    0,
                    if new_provider {
                        1u32
                    } else {
                        0u32
                    },
                    0,
                    now,
                )
                &&& *final(self) == (LiquidityContract {
                    pools: final(self).pools,
                    positions: final(self).positions,
                    user_pools: final(self).user_pools,
                    global_stats: final(self).global_stats,
                    ..*old(self)
                })
            }),
    {
        let cfg = match self.config {
            Some(c) => c,
            None => { return Err(LiquidityError::NotInitialized) },
        };
        if admin != cfg.admin {
            return Err(LiquidityError::Unauthorized);
        }
        if cfg.emergency_pause {
            return Err(LiquidityError::ContractPaused);
        }
        if amount_a <= 0 || amount_b <= 0 || lp_tokens_minted <= 0 {
            return Err(LiquidityError::InsufficientLiquidity);
        }
        let pi = match keyed_find(&self.pools, pool_id) {
            Some(i) => i,
            None => { return Err(LiquidityError::PoolNotFound) },
        };
        proof {
            lemma_keyed_index_is(self.pools@, pool_id, pi as int);
        }
        let p = self.pools[pi].1;
        if !p.active {
            return Err(LiquidityError::ContractPaused);
        }
        let np = LiquidityPool {
            reserve_a: sat_add_i128(p.reserve_a, amount_a),
            reserve_b: sat_add_i128(p.reserve_b, amount_b),
            total_liquidity: sat_add_i128(p.total_liquidity, lp_tokens_minted),
            ..p
        };
        keyed_store(&mut self.pools, pool_id, np);
        let pos: LPPosition = match paired_find(&self.positions, user, pool_id) {
            Some(i) => {
                proof {
                    lemma_keyed_index_is(self.positions@, (user, pool_id), i as int);
                }
                self.positions[i].1
            },
            None => LPPosition {
                user,
                pool_id,
                lp_amount: 0,
                asset_a_deposited: 0,
                asset_b_deposited: 0,
                timestamp: now,
                last_reward_claim: now,
                total_fees_earned: 0,
            },
        };
        let is_new_provider = pos.lp_amount == 0;
        proof {
            crate::arith::lemma_sat_add_nonneg(pos.lp_amount as int, lp_tokens_minted as int);
        }
        let npos = LPPosition {
            lp_amount: sat_add_i128(pos.lp_amount, lp_tokens_minted),
            asset_a_deposited: sat_add_i128(pos.asset_a_deposited, amount_a),
            asset_b_deposited: sat_add_i128(pos.asset_b_deposited, amount_b),
            ..pos
        };
        paired_store(&mut self.positions, user, pool_id, npos);
        proof {
            crate::table::lemma_keyed_put(old(self).positions@, (user, pool_id), npos);
            assert forall|i: int|
                0 <= i < self.positions@.len() implies 0 <= (
            #[trigger] self.positions@[i]).1.lp_amount by {
                if keyed_has(old(self).positions@, (user, pool_id)) {
                    if i != crate::table::keyed_index(old(self).positions@, (user, pool_id)) {
                        assert(self.positions@[i] == old(self).positions@[i]);
                    }
                } else {
                    if i < self.positions@.len() - 1 {
                        assert(self.positions@[i] == old(self).positions@[i]);
                    }
                }
            }
        }
        if is_new_provider {
            match keyed_find(&self.user_pools, user) {
                Some(i) => {
                    proof {
                        lemma_keyed_index_is(self.user_pools@, user, i as int);
                    }
                    let mut list = copy_ids(&self.user_pools[i].1);
                    list.push(pool_id);
                    keyed_store(&mut self.user_pools, user, list);
                },
                None => {
                    let mut list: Vec<u64> = Vec::new();
                    list.push(pool_id);
                    keyed_store(&mut self.user_pools, user, list);
                },
            }
        }
        let tvl = sat_add_i128(amount_a, amount_b);
        self.global_stats = GlobalLiquidityStats {
            total_value_locked: sat_add_i128(self.global_stats.total_value_locked, tvl),
            total_pools: self.global_stats.total_pools,
            total_lp_providers: if is_new_provider {
                self.global_stats.total_lp_providers.saturating_add(1)
            } else {
                self.global_stats.total_lp_providers
            },
            total_fees_collected: self.global_stats.total_fees_collected,
            last_update: now,
        };
        proof {
            assert(*final(self) == (LiquidityContract {
                pools: final(self).pools,
                positions: final(self).positions,
                user_pools: final(self).user_pools,
                global_stats: final(self).global_stats,
                ..*old(self)
            }));
        }
        Ok(())
    }

    /// Record a confirmed liquidity removal: shrink the pool's reserves and
    /// the account's position, removing the position (and the pool from the
    /// account's list) once it is empty.
    pub fn record_liquidity_removal(
        &mut self,
        admin: u64,
        user: u64,
        pool_id: u64,
        lp_tokens_burned: i128,
        amount_a_returned: i128,
        amount_b_returned: i128,
        now: u64,
    ) -> (r: Result<(), LiquidityError>)
        requires
            old(self).wf(),
        ensures
            final(self).wf(),
            r is Err ==> *final(self) == *old(self),
            !old(self).is_init() ==> r == Err::<(), LiquidityError>(
                LiquidityError::NotInitialized,
            ),
            old(self).is_init() && admin != old(self).cfg().admin ==> r == Err::<
                (),
                LiquidityError,
            >(LiquidityError::Unauthorized),
            old(self).is_init() && admin == old(self).cfg().admin && old(self).paused() ==> r
                == Err::<(), LiquidityError>(LiquidityError::ContractPaused),
            old(self).is_init() && admin == old(self).cfg().admin && !old(self).paused() && (
            lp_tokens_burned <= 0 || amount_a_returned < 0 || amount_b_returned < 0) ==> r
                == Err::<(), LiquidityError>(LiquidityError::InsufficientLiquidity),
            old(self).is_init() && admin == old(self).cfg().admin && !old(self).paused()
                && lp_tokens_burned > 0 && amount_a_returned >= 0 && amount_b_returned >= 0
                && !keyed_has(old(self).positions@, (user, pool_id)) ==> r == Err::<
                (),
                LiquidityError,
            >(LiquidityError::PositionNotFound),
            old(self).is_init() && admin == old(self).cfg().admin && !old(self).paused()
                && lp_tokens_burned > 0 && amount_a_returned >= 0 && amount_b_returned >= 0
                && keyed_has(old(self).positions@, (user, pool_id)) && keyed_get(
                old(self).positions@,
                (user, pool_id),
            ).lp_amount < lp_tokens_burned ==> r == Err::<(), LiquidityError>(
                LiquidityError::InsufficientLiquidity,
            ),
            old(self).is_init() && admin == old(self).cfg().admin && !old(self).paused()
                && lp_tokens_burned > 0 && amount_a_returned >= 0 && amount_b_returned >= 0
                && keyed_has(old(self).positions@, (user, pool_id)) && keyed_get(
                old(self).positions@,
                (user, pool_id),
            ).lp_amount >= lp_tokens_burned && !keyed_has(old(self).pools@, pool_id) ==> r
                == Err::<(), LiquidityError>(LiquidityError::PoolNotFound),
            r is Ok <==> old(self).is_init() && admin == old(self).cfg().admin && !old(
                self,
            ).paused() && lp_tokens_burned > 0 && amount_a_returned >= 0 && amount_b_returned
                >= 0 && keyed_has(old(self).positions@, (user, pool_id)) && keyed_get(
                old(self).positions@,
                (user, pool_id),
            ).lp_amount >= lp_tokens_burned && keyed_has(old(self).pools@, pool_id),
            r is Ok ==> ({
                let pos = keyed_get(old(self).positions@, (user, pool_id));
                let p = keyed_get(old(self).pools@, pool_id);
                let np = LiquidityPool {
                    reserve_a: sat_sub_spec(p.reserve_a as int, amount_a_returned as int)
                        as i128,
                    reserve_b: sat_sub_spec(p.reserve_b as int, amount_b_returned as int)
                        as i128,
                    total_liquidity: sat_sub_spec(
                        p.total_liquidity as int,
                        lp_tokens_burned as int,
                    ) as i128,
                    ..p
                };
                let remaining = pos.lp_amount - lp_tokens_burned;
                &&& final(self).pools@ == keyed_put(old(self).pools@, pool_id, np)
                &&& (if remaining == 0 {
                    final(self).positions@ == old(self).positions@.remove(
                        crate::table::keyed_index(old(self).positions@, (user, pool_id)),
                    ) && crate::registry::pools_list_of(final(self).user_pools@, user)
                        == ids_removed(
                        crate::registry::pools_list_of(old(self).user_pools@, user),
                        pool_id,
                    )
                } else {
                    final(self).positions@ == keyed_put(
                        old(self).positions@,
                        (user, pool_id),
                        (LPPosition { lp_amount: remaining as i128, ..pos }),
                    ) && final(self).user_pools@ == old(self).user_pools@
                })
                &&& final(self).global_stats == stats_after(
                    old(self).global_stats,
                    -sat_add_spec(amount_a_returned as int, amount_b_returned as int),
                    0,
                    0,
                    0,
                    now,
                )
                &&& *final(self) == (LiquidityContract {
                    pools: final(self).pools,
                    positions: final(self).positions,
                    user_pools: final(self).user_pools,
                    global_stats: final(self).global_stats,
                    ..*old(self)
                })
            }),
    {
        let cfg = match self.config {
            Some(c) => c,
            None => { return Err(LiquidityError::NotInitialized) },
        };
        if admin != cfg.admin {
            return Err(LiquidityError::Unauthorized);
        }
        if cfg.emergency_pause {
            return Err(LiquidityError::ContractPaused);
        }
        if lp_tokens_burned <= 0 || amount_a_returned < 0 || amount_b_returned < 0 {
            return Err(LiquidityError::InsufficientLiquidity);
        }
        let posi = match paired_find(&self.positions, user, pool_id) {
            Some(i) => i,
            None => { return Err(LiquidityError::PositionNotFound) },
        };
        proof {
            lemma_keyed_index_is(self.positions@, (user, pool_id), posi as int);
        }
        let pos = self.positions[posi].1;
        if pos.lp_amount < lp_tokens_burned {
            return Err(LiquidityError::InsufficientLiquidity);
        }
        let pi = match keyed_find(&self.pools, pool_id) {
            Some(i) => i,
            None => { return Err(LiquidityError::PoolNotFound) },
        };
        proof {
            lemma_keyed_index_is(self.pools@, pool_id, pi as int);
        }
        let p = self.pools[pi].1;
        let np = LiquidityPool {
            reserve_a: sat_sub_i128(p.reserve_a, amount_a_returned),
            reserve_b: sat_sub_i128(p.reserve_b, amount_b_returned),
            total_liquidity: sat_sub_i128(p.total_liquidity, lp_tokens_burned),
            ..p
        };
        keyed_store(&mut self.pools, pool_id, np);
        let remaining = pos.lp_amount - lp_tokens_burned;
        if remaining == 0 {
            paired_remove(&mut self.positions, user, pool_id);
            proof {
                assert forall|i: int|
                    0 <= i < self.positions@.len() implies 0 <= (
                #[trigger] self.positions@[i]).1.lp_amount by {
                    let oi = crate::table::keyed_index(old(self).positions@, (user, pool_id));
                    if i < oi {
                        assert(self.positions@[i] == old(self).positions@[i]);
                    } else {
                        assert(self.positions@[i] == old(self).positions@[i + 1]);
                    }
                }
            }
            match keyed_find(&self.user_pools, user) {
                Some(ui) => {
                    proof {
                        lemma_keyed_index_is(self.user_pools@, user, ui as int);
                    }
                    let list = ids_without(&self.user_pools[ui].1, pool_id);
                    keyed_store(&mut self.user_pools, user, list);
                },
                None => {
                    proof {
                        assert(crate::registry::pools_list_of(self.user_pools@, user)
                            =~= Seq::<u64>::empty());
                        reveal(Seq::filter);
                        assert(ids_removed(Seq::<u64>::empty(), pool_id)
                            =~= Seq::<u64>::empty());
                    }
                },
            }
        } else {
            let npos = LPPosition { lp_amount: remaining, ..pos };
            paired_store(&mut self.positions, user, pool_id, npos);
            proof {
                crate::table::lemma_keyed_put(old(self).positions@, (user, pool_id), npos);
                assert forall|i: int|
                    0 <= i < self.positions@.len() implies 0 <= (
                #[trigger] self.positions@[i]).1.lp_amount by {
                    if i != crate::table::keyed_index(old(self).positions@, (user, pool_id)) {
                        assert(self.positions@[i] == old(self).positions@[i]);
                    }
                }
            }
        }
        let tvl = sat_add_i128(amount_a_returned, amount_b_returned);
        self.global_stats = GlobalLiquidityStats {
            total_value_locked: sat_sub_i128(self.global_stats.total_value_locked, tvl),
            total_pools: self.global_stats.total_pools,
            total_lp_providers: self.global_stats.total_lp_providers,
            total_fees_collected: self.global_stats.total_fees_collected,
            last_update: now,
        };
        proof {
            assert(*final(self) == (LiquidityContract {
                pools: final(self).pools,
                positions: final(self).positions,
                user_pools: final(self).user_pools,
                global_stats: final(self).global_stats,
                ..*old(self)
            }));
        }
        Ok(())
    }
}


impl LiquidityContract {
    /// Record fees collected for a pool on the current day, for reward
    /// calculation and analytics.
    pub fn record_fees_collected(
        &mut self,
        admin: u64,
        pool_id: u64,
        total_fees: i128,
        now: u64,
    ) -> (r: Result<(), LiquidityError>)
        requires
            old(self).wf(),
        ensures
            final(self).wf(),
            r is Err ==> *final(self) == *old(self),
            !old(self).is_init() ==> r == Err::<(), LiquidityError>(
                LiquidityError::NotInitialized,
            ),
            old(self).is_init() && admin != old(self).cfg().admin ==> r == Err::<
                (),
                LiquidityError,
            >(LiquidityError::Unauthorized),
            old(self).is_init() && admin == old(self).cfg().admin && total_fees <= 0 ==> r
                == Err::<(), LiquidityError>(LiquidityError::InsufficientLiquidity),
            old(self).is_init() && admin == old(self).cfg().admin && total_fees > 0
                && !keyed_has(old(self).pools@, pool_id) ==> r == Err::<(), LiquidityError>(
                LiquidityError::PoolNotFound,
            ),
            old(self).is_init() && admin == old(self).cfg().admin && total_fees > 0 && keyed_has(
                old(self).pools@,
                pool_id,
            ) && !keyed_get(old(self).pools@, pool_id).active ==> r == Err::<
                (),
                LiquidityError,
            >(LiquidityError::ContractPaused),
            r is Ok <==> old(self).is_init() && admin == old(self).cfg().admin && total_fees > 0
                && keyed_has(old(self).pools@, pool_id) && keyed_get(
                old(self).pools@,
                pool_id,
            ).active,
            r is Ok ==> ({
                let day = now / SECONDS_PER_DAY;
                let existing = if keyed_has(old(self).daily_fees@, (pool_id, day)) {
                    keyed_get(old(self).daily_fees@, (pool_id, day)) as int
                } else {
                    0
                };
                &&& final(self).daily_fees@ == keyed_put(
                    old(self).daily_fees@,
                    (pool_id, day),
                    sat_add_spec(existing, total_fees as int) as i128,
                )
                &&& final(self).global_stats == stats_after(
                    old(self).global_stats,
                    0,
                    0,
                    0,
                    total_fees as int,
                    now,
                )
                &&& *final(self) == (LiquidityContract {
                    daily_fees: final(self).daily_fees,
                    global_stats: final(self).global_stats,
                    ..*old(self)
                })
            }),
    {
        let cfg = match self.config {
            Some(c) => c,
            None => { return Err(LiquidityError::NotInitialized) },
        };
        if admin != cfg.admin {
            return Err(LiquidityError::Unauthorized);
        }
        if total_fees <= 0 {
            return Err(LiquidityError::InsufficientLiquidity);
        }
        let pi = match keyed_find(&self.pools, pool_id) {
            Some(i) => i,
            None => { return Err(LiquidityError::PoolNotFound) },
        };
        proof {
            lemma_keyed_index_is(self.pools@, pool_id, pi as int);
        }
        if !self.pools[pi].1.active {
            return Err(LiquidityError::ContractPaused);
        }
        let day = now / SECONDS_PER_DAY;
        let existing: i128 = match paired_find(&self.daily_fees, pool_id, day) {
            Some(i) => {
                proof {
                    lemma_keyed_index_is(self.daily_fees@, (pool_id, day), i as int);
                }
                self.daily_fees[i].1
            },
            None => 0,
        };
        let updated = sat_add_i128(existing, total_fees);
        paired_store(&mut self.daily_fees, pool_id, day, updated);
        self.global_stats = GlobalLiquidityStats {
            total_fees_collected: sat_add_i128(
                self.global_stats.total_fees_collected,
                total_fees,
            ),
            last_update: now,
            ..self.global_stats
        };
        proof {
            assert(*final(self) == (LiquidityContract {
                daily_fees: final(self).daily_fees,
                global_stats: final(self).global_stats,
                ..*old(self)
            }));
        }
        Ok(())
    }

    /// The pool stored under `pool_id`, if any.
    pub fn get_pool(&self, pool_id: u64) -> (r: Option<LiquidityPool>)
        requires
            self.wf(),
        ensures
            keyed_has(self.pools@, pool_id) ==> r == Some(keyed_get(self.pools@, pool_id)),
            !keyed_has(self.pools@, pool_id) ==> r is None,
    {
        match keyed_find(&self.pools, pool_id) {
            Some(i) => {
                proof {
                    lemma_keyed_index_is(self.pools@, pool_id, i as int);
                }
                Some(self.pools[i].1)
            },
            None => None,
        }
    }

    /// `user`'s LP position in `pool_id`, if any.
    pub fn get_user_lp_position(&self, user: u64, pool_id: u64) -> (r: Option<LPPosition>)
        requires
            self.wf(),
        ensures
            keyed_has(self.positions@, (user, pool_id)) ==> r == Some(
                keyed_get(self.positions@, (user, pool_id)),
            ),
            !keyed_has(self.positions@, (user, pool_id)) ==> r is None,
    {
        match paired_find(&self.positions, user, pool_id) {
            Some(i) => {
                proof {
                    lemma_keyed_index_is(self.positions@, (user, pool_id), i as int);
                }
                Some(self.positions[i].1)
            },
            None => None,
        }
    }

    /// The pools `user` participates in.
    pub fn get_user_pools(&self, user: u64) -> (r: Vec<u64>)
        requires
            self.wf(),
        ensures
            r@ == crate::registry::pools_list_of(self.user_pools@, user),
    {
        match keyed_find(&self.user_pools, user) {
            Some(i) => {
                proof {
                    lemma_keyed_index_is(self.user_pools@, user, i as int);
                }
                copy_ids(&self.user_pools[i].1)
            },
            None => {
                proof {
                    assert(crate::registry::pools_list_of(self.user_pools@, user)
                        =~= Seq::<u64>::empty());
                }
                Vec::new()
            },
        }
    }

    /// Number of registered pools.
    pub fn get_pool_count(&self) -> (r: u32)
        ensures
            r == self.pool_count,
    {
        self.pool_count
    }

    /// The aggregate statistics, once the ledger is initialized.
    pub fn get_global_stats(&self) -> (r: Option<GlobalLiquidityStats>)
        ensures
            self.is_init() ==> r == Some(self.global_stats),
            !self.is_init() ==> r is None,
    {
        if self.config.is_some() {
            Some(self.global_stats)
        } else {
            None
        }
    }

    /// The fees recorded for a pool on `day`.
    pub fn get_daily_fees(&self, pool_id: u64, day: u64) -> (r: i128)
        requires
            self.wf(),
        ensures
            keyed_has(self.daily_fees@, (pool_id, day)) ==> r == keyed_get(
                self.daily_fees@,
                (pool_id, day),
            ),
            !keyed_has(self.daily_fees@, (pool_id, day)) ==> r == 0,
    {
        match paired_find(&self.daily_fees, pool_id, day) {
            Some(i) => {
                proof {
                    lemma_keyed_index_is(self.daily_fees@, (pool_id, day), i as int);
                }
                self.daily_fees[i].1
            },
            None => 0,
        }
    }

    /// The stored configuration.
    pub fn get_config(&self) -> (r: Result<LiquidityConfig, LiquidityError>)
        ensures
            self.is_init() ==> r == Ok::<LiquidityConfig, LiquidityError>(self.cfg()),
            !self.is_init() ==> r == Err::<LiquidityConfig, LiquidityError>(
                LiquidityError::NotInitialized,
            ),
    {
        match self.config {
            Some(c) => Ok(c),
            None => Err(LiquidityError::NotInitialized),
        }
    }

    /// Pause or resume the ledger's mutating operations.
    pub fn set_emergency_pause(&mut self, admin: u64, paused: bool) -> (r: Result<
        (),
        LiquidityError,
    >)
        requires
            old(self).wf(),
        ensures
            final(self).wf(),
            r is Err ==> *final(self) == *old(self),
            !old(self).is_init() ==> r == Err::<(), LiquidityError>(
                LiquidityError::NotInitialized,
            ),
            old(self).is_init() && admin != old(self).cfg().admin ==> r == Err::<
                (),
                LiquidityError,
            >(LiquidityError::Unauthorized),
            r is Ok <==> old(self).is_init() && admin == old(self).cfg().admin,
            r is Ok ==> *final(self) == (LiquidityContract {
                config: Some(LiquidityConfig { emergency_pause: paused, ..old(self).cfg() }),
                ..*old(self)
            }),
    {
        let cfg = match self.config {
            Some(c) => c,
            None => { return Err(LiquidityError::NotInitialized) },
        };
        if admin != cfg.admin {
            return Err(LiquidityError::Unauthorized);
        }
        self.config = Some(LiquidityConfig { emergency_pause: paused, ..cfg });
        proof {
            assert(*final(self) =~= (LiquidityContract {
                config: Some(LiquidityConfig { emergency_pause: paused, ..old(self).cfg() }),
                ..*old(self)
            }));
        }
        Ok(())
    }

    /// Activate or deactivate a pool.
    pub fn toggle_pool(&mut self, admin: u64, pool_id: u64, active: bool) -> (r: Result<
        (),
        LiquidityError,
    >)
        requires
            old(self).wf(),
        ensures
            final(self).wf(),
            r is Err ==> *final(self) == *old(self),
            !old(self).is_init() ==> r == Err::<(), LiquidityError>(
                LiquidityError::NotInitialized,
            ),
            old(self).is_init() && admin != old(self).cfg().admin ==> r == Err::<
                (),
                LiquidityError,
            >(LiquidityError::Unauthorized),
            old(self).is_init() && admin == old(self).cfg().admin && !keyed_has(
                old(self).pools@,
                pool_id,
            ) ==> r == Err::<(), LiquidityError>(LiquidityError::PoolNotFound),
            r is Ok <==> old(self).is_init() && admin == old(self).cfg().admin && keyed_has(
                old(self).pools@,
                pool_id,
            ),
            r is Ok ==> final(self).pools@ == keyed_put(
                old(self).pools@,
                pool_id,
                (LiquidityPool { active, ..keyed_get(old(self).pools@, pool_id) }),
            ) && *final(self) == (LiquidityContract { pools: final(self).pools, ..*old(self) }),
    {
        let cfg = match self.config {
            Some(c) => c,
            None => { return Err(LiquidityError::NotInitialized) },
        };
        if admin != cfg.admin {
            return Err(LiquidityError::Unauthorized);
        }
        let pi = match keyed_find(&self.pools, pool_id) {
            Some(i) => i,
            None => { return Err(LiquidityError::PoolNotFound) },
        };
        proof {
            lemma_keyed_index_is(self.pools@, pool_id, pi as int);
        }
        let p = self.pools[pi].1;
        keyed_store(&mut self.pools, pool_id, LiquidityPool { active, ..p });
        proof {
            assert(*final(self) == (LiquidityContract { pools: final(self).pools, ..*old(self) }));
        }
        Ok(())
    }

    /// Update a pool's fee rate (basis points, at most 10%).
    pub fn update_pool_fee_rate(&mut self, admin: u64, pool_id: u64, new_fee_rate: i128) -> (r:
        Result<(), LiquidityError>)
        requires
            old(self).wf(),
        ensures
            final(self).wf(),
            r is Err ==> *final(self) == *old(self),
            !old(self).is_init() ==> r == Err::<(), LiquidityError>(
                LiquidityError::NotInitialized,
            ),
            old(self).is_init() && admin != old(self).cfg().admin ==> r == Err::<
                (),
                LiquidityError,
            >(LiquidityError::Unauthorized),
            old(self).is_init() && admin == old(self).cfg().admin && !(0 <= new_fee_rate
                <= MAX_POOL_FEE_BP) ==> r == Err::<(), LiquidityError>(
                LiquidityError::InvalidFeeRate,
            ),
            old(self).is_init() && admin == old(self).cfg().admin && 0 <= new_fee_rate
                <= MAX_POOL_FEE_BP && !keyed_has(old(self).pools@, pool_id) ==> r == Err::<
                (),
                LiquidityError,
            >(LiquidityError::PoolNotFound),
            r is Ok <==> old(self).is_init() && admin == old(self).cfg().admin && 0
                <= new_fee_rate <= MAX_POOL_FEE_BP && keyed_has(old(self).pools@, pool_id),
            r is Ok ==> final(self).pools@ == keyed_put(
                old(self).pools@,
                pool_id,
                (LiquidityPool {
                    fee_rate: new_fee_rate,
                    ..keyed_get(old(self).pools@, pool_id)
                }),
            ) && *final(self) == (LiquidityContract { pools: final(self).pools, ..*old(self) }),
    {
        let cfg = match self.config {
            Some(c) => c,
            None => { return Err(LiquidityError::NotInitialized) },
        };
        if admin != cfg.admin {
            return Err(LiquidityError::Unauthorized);
        }
        if new_fee_rate > MAX_POOL_FEE_BP || new_fee_rate < 0 {
            return Err(LiquidityError::InvalidFeeRate);
        }
        let pi = match keyed_find(&self.pools, pool_id) {
            Some(i) => i,
            None => { return Err(LiquidityError::PoolNotFound) },
        };
        proof {
            lemma_keyed_index_is(self.pools@, pool_id, pi as int);
        }
        let p = self.pools[pi].1;
        keyed_store(&mut self.pools, pool_id, LiquidityPool { fee_rate: new_fee_rate, ..p });
        proof {
            assert(*final(self) == (LiquidityContract { pools: final(self).pools, ..*old(self) }));
        }
        Ok(())
    }

    /// `user`'s share of a pool, in basis points of its total liquidity.
    pub fn calculate_user_fee_share(&self, user: u64, pool_id: u64) -> (r: Result<
        i128,
        LiquidityError,
    >)
        requires
            self.wf(),
        ensures
            !keyed_has(self.positions@, (user, pool_id)) ==> r == Err::<i128, LiquidityError>(
                LiquidityError::PositionNotFound,
            ),
            keyed_has(self.positions@, (user, pool_id)) && !keyed_has(self.pools@, pool_id) ==> r
                == Err::<i128, LiquidityError>(LiquidityError::PoolNotFound),
            keyed_has(self.positions@, (user, pool_id)) && keyed_has(self.pools@, pool_id)
                && keyed_get(self.pools@, pool_id).total_liquidity <= 0 ==> r == Ok::<
                i128,
                LiquidityError,
            >(0),
            keyed_has(self.positions@, (user, pool_id)) && keyed_has(self.pools@, pool_id)
                && keyed_get(self.pools@, pool_id).total_liquidity > 0 && keyed_get(
                self.positions@,
                (user, pool_id),
            ).lp_amount * 10000 > i128::MAX ==> r == Err::<i128, LiquidityError>(
                LiquidityError::NumericOverflow,
            ),
            keyed_has(self.positions@, (user, pool_id)) && keyed_has(self.pools@, pool_id)
                && keyed_get(self.pools@, pool_id).total_liquidity > 0 && keyed_get(
                self.positions@,
                (user, pool_id),
            ).lp_amount * 10000 <= i128::MAX ==> r == Ok::<i128, LiquidityError>(
                (keyed_get(self.positions@, (user, pool_id)).lp_amount * 10000 / (keyed_get(
                    self.pools@,
                    pool_id,
                ).total_liquidity as int)) as i128,
            ),
    {
        let posi = match paired_find(&self.positions, user, pool_id) {
            Some(i) => i,
            None => { return Err(LiquidityError::PositionNotFound) },
        };
        proof {
            lemma_keyed_index_is(self.positions@, (user, pool_id), posi as int);
        }
        let pos = self.positions[posi].1;
        let pi = match keyed_find(&self.pools, pool_id) {
            Some(i) => i,
            None => { return Err(LiquidityError::PoolNotFound) },
        };
        proof {
            lemma_keyed_index_is(self.pools@, pool_id, pi as int);
        }
        let p = self.pools[pi].1;
        if p.total_liquidity <= 0 {
            return Ok(0);
        }
        proof {
            lemma_mul_nonnegative(pos.lp_amount as int, 10000);
        }
        let scaled = match pos.lp_amount.checked_mul(10000) {
            Some(v) => v,
            None => { return Err(LiquidityError::NumericOverflow) },
        };
        Ok(div_nonneg(scaled, p.total_liquidity))
    }
}

} // verus!



//! The governance ledger: voting-power records derived from locked
//! principal.  Locking earns governance tokens proportional to the amount
//! and the lock duration; voting power follows them one to one, and an
//! aggregate per-account record plus global statistics are kept up to date.

use vstd::prelude::*;
use crate::arith::{div_nonneg, sat_add_i128, sat_add_spec, sat_mul_i128, sat_mul_spec, SECONDS_PER_DAY};
use crate::table::{
    indexed_find, indexed_store, keyed_find, keyed_get, keyed_has, keyed_put, keyed_store,
    keyed_unique, lemma_keyed_index_is,
};
use vstd::arithmetic::mul::lemma_mul_nonnegative;

verus! {

/// Errors returned by the governance ledger.
#[derive(Clone, Copy, Debug, PartialEq, Eq, Structural)]
pub enum GovernanceError {
    NotInitialized,
    AlreadyInitialized,
    Unauthorized,
    InvalidInput,
    ContractPaused,
    RecordNotFound,
    NumericOverflow,
}

/// One governance issuance record (or the per-account aggregate).
#[derive(Clone, Copy, Debug, PartialEq, Eq, Structural)]
pub struct GovernanceRecord {
    pub user: u64,
    pub aqua_locked: i128,
    pub ice_amount: i128,
    pub lock_duration_years: u32,
    pub lock_timestamp: u64,
    pub voting_power: i128,
    pub tx_hash: u64,
}

/// Configuration fixed at initialization, with the administrative switches.
#[derive(Clone, Copy, Debug, PartialEq, Eq, Structural)]
pub struct GovernanceConfig {
    pub admin: u64,
    pub staking_contract: u64,
    pub treasury_address: u64,
    /// 10,000 basis points = 1.0x.
    pub base_multiplier: i128,
    /// Cap of the duration multiplier, in basis points.
    pub max_time_multiplier: i128,
    pub emergency_pause: bool,
    pub version: u32,
}

/// Aggregate governance statistics.
#[derive(Clone, Copy, Debug, PartialEq, Eq, Structural)]
pub struct GovernanceStats {
    pub total_ice_supply: i128,
    pub total_voting_power: i128,
    pub total_participants: u32,
    pub last_update: u64,
}

/// An aggregate-statistics update, emitted for observability.
#[derive(Clone, Copy, Debug, PartialEq, Eq, Structural)]
pub struct GovernanceStatsUpdatedEvent {
    pub total_ice_supply: i128,
    pub total_voting_power: i128,
    pub total_participants: u32,
    pub timestamp: u64,
}

/// A recorded round of automated POL voting, emitted for observability.
#[derive(Clone, Copy, Debug, PartialEq, Eq, Structural)]
pub struct PolVotingRecordedEvent {
    pub total_ice_voting_power: i128,
    pub aqua_blub_pair_votes: i128,
    /// Basis points of the total voting power cast on the pair.
    pub voting_percentage: i128,
    pub timestamp: u64,
}

/// A saturating increment.
pub open spec fn bumped(c: u32) -> u32 {
    if c == u32::MAX {
        u32::MAX
    } else {
        (c + 1) as u32
    }
}

/// The count stored for `user`, or zero.
pub open spec fn count_of(s: Seq<(u64, u32)>, user: u64) -> u32 {
    if keyed_has(s, user) {
        keyed_get(s, user)
    } else {
        0u32
    }
}

/// Governance tokens issued for locking `aqua_amount` over
/// `lock_duration_years`: the amount scaled by the base multiplier and a
/// duration multiplier of half a basis-point unit per year, capped by the
/// configured maximum.
pub open spec fn ice_amount_spec(
    config: GovernanceConfig,
    aqua_amount: i128,
    lock_duration_years: u32,
) -> int {
    let time_multiplier = if lock_duration_years * 5000 > config.max_time_multiplier {
        config.max_time_multiplier as int
    } else {
        (lock_duration_years * 5000) as int
    };
    sat_mul_spec(
        sat_mul_spec(aqua_amount as int, config.base_multiplier as int),
        time_multiplier,
    ) / 100_000_000
}

/// Saturating sum of `ice_amount` over the first `n` records of `user`.
pub open spec fn ice_sum(records: Seq<((u64, u32), GovernanceRecord)>, user: u64, n: int) -> int
    decreases n,
{
    if n <= 0 {
        0
    } else {
        let prev = ice_sum(records, user, n - 1);
        if keyed_has(records, (user, (n - 1) as u32)) {
            sat_add_spec(prev, keyed_get(records, (user, (n - 1) as u32)).ice_amount as int)
        } else {
            prev
        }
    }
}

/// Saturating sum of `voting_power` over the first `n` records of `user`.
pub open spec fn power_sum(records: Seq<((u64, u32), GovernanceRecord)>, user: u64, n: int) -> int
    decreases n,
{
    if n <= 0 {
        0
    } else {
        let prev = power_sum(records, user, n - 1);
        if keyed_has(records, (user, (n - 1) as u32)) {
            sat_add_spec(prev, keyed_get(records, (user, (n - 1) as u32)).voting_power as int)
        } else {
            prev
        }
    }
}

/// The governance ledger.
#[verifier::ext_equal]
pub struct GovernanceContract {
    pub config: Option<GovernanceConfig>,
    pub record_counts: Vec<(u64, u32)>,
    pub records: Vec<((u64, u32), GovernanceRecord)>,
    pub user_governance: Vec<(u64, GovernanceRecord)>,
    pub stats: GovernanceStats,
    pub snapshots: Vec<(u64, GovernanceStats)>,
}

impl GovernanceContract {
    /// The ledger invariant: unique keys and validated multipliers.
    pub open spec fn wf(&self) -> bool {
        &&& keyed_unique(self.record_counts@)
        &&& keyed_unique(self.records@)
        &&& keyed_unique(self.user_governance@)
        &&& keyed_unique(self.snapshots@)
        &&& (match self.config {
            Some(c) => 0 < c.base_multiplier && 0 < c.max_time_multiplier,
            None => true,
        })
    }

    pub open spec fn is_init(&self) -> bool {
        self.config is Some
    }

    pub open spec fn cfg(&self) -> GovernanceConfig {
        self.config->0
    }

    pub open spec fn paused(&self) -> bool {
        match self.config {
            Some(c) => c.emergency_pause,
            None => false,
        }
    }

    /// The stored voting power of `user`, from the aggregate record.
    pub open spec fn voting_power_of(&self, user: u64) -> i128 {
        if keyed_has(self.user_governance@, user) {
            keyed_get(self.user_governance@, user).voting_power
        } else {
            0
        }
    }

    /// A fresh, uninitialized ledger.
    pub fn new() -> (r: GovernanceContract)
        ensures
            r.wf(),
            !r.is_init(),
            r.record_counts@.len() == 0,
            r.records@.len() == 0,
            r.user_governance@.len() == 0,
            r.snapshots@.len() == 0,
            r.stats == (GovernanceStats {
                total_ice_supply: 0,
                total_voting_power: 0,
                total_participants: 0,
                last_update: 0,
            }),
    {
        GovernanceContract {
            config: None,
            record_counts: Vec::new(),
            records: Vec::new(),
            user_governance: Vec::new(),
            stats: GovernanceStats {
                total_ice_supply: 0,
                total_voting_power: 0,
                total_participants: 0,
                last_update: 0,
            },
            snapshots: Vec::new(),
        }
    }

    /// Initialize the ledger once with the governance token parameters.
    pub fn initialize(
        &mut self,
        admin: u64,
        staking_contract: u64,
        treasury_address: u64,
        base_multiplier: i128,
        max_time_multiplier: i128,
        now: u64,
    ) -> (r: Result<(), GovernanceError>)
        requires
            old(self).wf(),
        ensures
            final(self).wf(),
            r is Err ==> *final(self) == *old(self),
            old(self).is_init() ==> r == Err::<(), GovernanceError>(
                GovernanceError::AlreadyInitialized,
            ),
            !old(self).is_init() && (base_multiplier <= 0 || max_time_multiplier <= 0) ==> r
                == Err::<(), GovernanceError>(GovernanceError::InvalidInput),
            r is Ok <==> !old(self).is_init() && base_multiplier > 0 && max_time_multiplier > 0,
            r is Ok ==> *final(self) == (GovernanceContract {
                config: Some(
                    GovernanceConfig {
                        admin,
                        staking_contract,
                        treasury_address,
                        base_multiplier,
                        max_time_multiplier,
                        emergency_pause: false,
                        version: 1,
                    },
                ),
                stats: GovernanceStats {
                    total_ice_supply: 0,
                    total_voting_power: 0,
                    total_participants: 0,
                    last_update: now,
                },
                ..*old(self)
            }),
    {
        if self.config.is_some() {
            return Err(GovernanceError::AlreadyInitialized);
        }
        if base_multiplier <= 0 || max_time_multiplier <= 0 {
            return Err(GovernanceError::InvalidInput);
        }
        self.config = Some(
            GovernanceConfig {
                admin,
                staking_contract,
                treasury_address,
                base_multiplier,
                max_time_multiplier,
                emergency_pause: false,
                version: 1,
            },
        );
        self.stats = GovernanceStats {
            total_ice_supply: 0,
            total_voting_power: 0,
            total_participants: 0,
            last_update: now,
        };
        proof {
            assert(*final(self) =~= (GovernanceContract {
                config: final(self).config,
                stats: final(self).stats,
                ..*old(self)
            }));
        }
        Ok(())
    }

    /// Governance tokens issued for a lock, from the configured multipliers.
    pub fn calculate_ice_amount(
        config: &GovernanceConfig,
        aqua_amount: i128,
        lock_duration_years: u32,
    ) -> (r: i128)
        requires
            0 <= aqua_amount,
            0 <= config.base_multiplier,
            0 <= config.max_time_multiplier,
        ensures
            r == ice_amount_spec(*config, aqua_amount, lock_duration_years),
            0 <= r,
    {
        let scaled_years: i128 = (lock_duration_years as i128) * 5000;
        let time_multiplier: i128 = if scaled_years > config.max_time_multiplier {
            config.max_time_multiplier
        } else {
            scaled_years
        };
        proof {
            crate::arith::lemma_sat_mul_nonneg(
                aqua_amount as int,
                config.base_multiplier as int,
            );
            crate::arith::lemma_sat_mul_nonneg(
                sat_mul_spec(aqua_amount as int, config.base_multiplier as int),
                time_multiplier as int,
            );
        }
        let base = sat_mul_i128(sat_mul_i128(aqua_amount, config.base_multiplier), time_multiplier);
        div_nonneg(base, 100_000_000)
    }

    /// Walk `user`'s records and store the aggregate governance record.
    fn update_user_governance_totals(&mut self, user: u64, now: u64)
        requires
            old(self).wf(),
        ensures
            final(self).wf(),
            ({
                let n = count_of(old(self).record_counts@, user) as int;
                let agg = GovernanceRecord {
                    user,
                    aqua_locked: 0,
                    ice_amount: ice_sum(old(self).records@, user, n) as i128,
                    lock_duration_years: 0,
                    lock_timestamp: now,
                    voting_power: power_sum(old(self).records@, user, n) as i128,
                    tx_hash: 0,
                };
                &&& final(self).user_governance@ == keyed_put(
                    old(self).user_governance@,
                    user,
                    agg,
                )
                &&& *final(self) == (GovernanceContract {
                    user_governance: final(self).user_governance,
                    ..*old(self)
                })
            }),
    {
        let count: u32 = match keyed_find(&self.record_counts, user) {
            Some(i) => {
                proof {
                    lemma_keyed_index_is(self.record_counts@, user, i as int);
                }
                self.record_counts[i].1
            },
            None => 0,
        };
        let mut total_ice: i128 = 0;
        let mut total_power: i128 = 0;
        let mut i: u32 = 0;
        while i < count
            invariant
                self.wf(),
                0 <= i <= count,
                total_ice == ice_sum(self.records@, user, i as int),
                total_power == power_sum(self.records@, user, i as int),
            decreases count - i,
        {
            match indexed_find(&self.records, user, i) {
                Some(k) => {
                    proof {
                        lemma_keyed_index_is(self.records@, (user, i), k as int);
                    }
                    let rec = self.records[k].1;
                    total_ice = sat_add_i128(total_ice, rec.ice_amount);
                    total_power = sat_add_i128(total_power, rec.voting_power);
                },
                None => {
                },
            }
            i = i + 1;
        }
        let agg = GovernanceRecord {
            user,
            aqua_locked: 0,
            ice_amount: total_ice,
            lock_duration_years: 0,
            lock_timestamp: now,
            voting_power: total_power,
            tx_hash: 0,
        };
        keyed_store(&mut self.user_governance, user, agg);
        proof {
            assert(*final(self) == (GovernanceContract {
                user_governance: final(self).user_governance,
                ..*old(self)
            }));
        }
    }

    /// Fold deltas into the global statistics and snapshot the day.
    fn update_global_stats(
        &mut self,
        ice_delta: i128,
        voting_power_delta: i128,
        participants_delta: u32,
        now: u64,
    )
        requires
            old(self).wf(),
        ensures
            final(self).wf(),
            ({
                let ns = GovernanceStats {
                    total_ice_supply: sat_add_spec(
                        old(self).stats.total_ice_supply as int,
                        ice_delta as int,
                    ) as i128,
                    total_voting_power: sat_add_spec(
                        old(self).stats.total_voting_power as int,
                        voting_power_delta as int,
                    ) as i128,
                    total_participants: (if old(self).stats.total_participants
                        + participants_delta > u32::MAX {
                        u32::MAX
                    } else {
                        (old(self).stats.total_participants + participants_delta) as u32
                    }),
                    last_update: now,
                };
                &&& final(self).stats == ns
                &&& final(self).snapshots@ == keyed_put(
                    old(self).snapshots@,
                    now / SECONDS_PER_DAY,
                    ns,
                )
                &&& *final(self) == (GovernanceContract {
                    stats: final(self).stats,
                    snapshots: final(self).snapshots,
                    ..*old(self)
                })
            }),
    {
        let ns = GovernanceStats {
            total_ice_supply: sat_add_i128(self.stats.total_ice_supply, ice_delta),
            total_voting_power: sat_add_i128(self.stats.total_voting_power, voting_power_delta),
            total_participants: self.stats.total_participants.saturating_add(participants_delta),
            last_update: now,
        };
        self.stats = ns;
        let day = now / SECONDS_PER_DAY;
        keyed_store(&mut self.snapshots, day, ns);
        proof {
            assert(*final(self) == (GovernanceContract {
                stats: final(self).stats,
                snapshots: final(self).snapshots,
                ..*old(self)
            }));
        }
    }

    /// Record a governance token issuance for a lock of `aqua_locked` over
    /// `lock_duration_years`: append the record, refresh the account's
    /// aggregate, and fold the issued amount into the global statistics.
    /// Returns the record's index in the account's history.
    pub fn record_ice_issuance(
        &mut self,
        admin: u64,
        user: u64,
        aqua_locked: i128,
        lock_duration_years: u32,
        tx_hash: u64,
        now: u64,
    ) -> (r: Result<u32, GovernanceError>)
        requires
            old(self).wf(),
        ensures
            final(self).wf(),
            r is Err ==> *final(self) == *old(self),
            !old(self).is_init() ==> r == Err::<u32, GovernanceError>(
                GovernanceError::NotInitialized,
            ),
            old(self).is_init() && admin != old(self).cfg().admin ==> r == Err::<
                u32,
                GovernanceError,
            >(GovernanceError::Unauthorized),
            old(self).is_init() && admin == old(self).cfg().admin && old(self).paused() ==> r
                == Err::<u32, GovernanceError>(GovernanceError::ContractPaused),
            old(self).is_init() && admin == old(self).cfg().admin && !old(self).paused() && (
            aqua_locked <= 0 || lock_duration_years == 0) ==> r == Err::<u32, GovernanceError>(
                GovernanceError::InvalidInput,
            ),
            r is Ok <==> old(self).is_init() && admin == old(self).cfg().admin && !old(
                self,
            ).paused() && aqua_locked > 0 && lock_duration_years > 0,
            r is Ok ==> ({
                let idx = count_of(old(self).record_counts@, user);
                let ice = ice_amount_spec(old(self).cfg(), aqua_locked, lock_duration_years);
                let rec = GovernanceRecord {
                    user,
                    aqua_locked,
                    ice_amount: ice as i128,
                    lock_duration_years,
                    lock_timestamp: now,
                    voting_power: ice as i128,
                    tx_hash,
                };
                let nrecords = keyed_put(old(self).records@, (user, idx), rec);
                let agg = GovernanceRecord {
                    user,
                    aqua_locked: 0,
                    ice_amount: ice_sum(nrecords, user, bumped(idx) as int) as i128,
                    lock_duration_years: 0,
                    lock_timestamp: now,
                    voting_power: power_sum(nrecords, user, bumped(idx) as int) as i128,
                    tx_hash: 0,
                };
                let ns = GovernanceStats {
                    total_ice_supply: sat_add_spec(
                        old(self).stats.total_ice_supply as int,
                        ice,
                    ) as i128,
                    total_voting_power: sat_add_spec(
                        old(self).stats.total_voting_power as int,
                        ice,
                    ) as i128,
                    total_participants: (if bumped(idx) == 1 {
                        bumped(old(self).stats.total_participants)
                    } else {
                        old(self).stats.total_participants
                    }),
                    last_update: now,
                };
                &&& r == Ok::<u32, GovernanceError>(idx)
                &&& final(self).record_counts@ == keyed_put(
                    old(self).record_counts@,
                    user,
                    bumped(idx),
                )
                &&& final(self).records@ == nrecords
                &&& final(self).user_governance@ == keyed_put(
                    old(self).user_governance@,
                    user,
                    agg,
                )
                &&& final(self).stats == ns
                &&& final(self).snapshots@ == keyed_put(
                    old(self).snapshots@,
                    now / SECONDS_PER_DAY,
                    ns,
                )
                &&& final(self).config == old(self).config
            }),
    {
        let cfg = match self.config {
            Some(c) => c,
            None => { return Err(GovernanceError::NotInitialized) },
        };
        if admin != cfg.admin {
            return Err(GovernanceError::Unauthorized);
        }
        if cfg.emergency_pause {
            return Err(GovernanceError::ContractPaused);
        }
        if aqua_locked <= 0 || lock_duration_years == 0 {
            return Err(GovernanceError::InvalidInput);
        }
        let ice_amount = Self::calculate_ice_amount(&cfg, aqua_locked, lock_duration_years);
        let voting_power = ice_amount;
        let count: u32 = match keyed_find(&self.record_counts, user) {
            Some(i) => {
                proof {
                    lemma_keyed_index_is(self.record_counts@, user, i as int);
                }
                self.record_counts[i].1
            },
            None => 0,
        };
        let index = count;
        let new_count = count.saturating_add(1);
        keyed_store(&mut self.record_counts, user, new_count);
        let rec = GovernanceRecord {
            user,
            aqua_locked,
            ice_amount,
            lock_duration_years,
            lock_timestamp: now,
            voting_power,
            tx_hash,
        };
        indexed_store(&mut self.records, user, index, rec);
        self.update_user_governance_totals(user, now);
        self.update_global_stats(
            ice_amount,
            voting_power,
            if new_count == 1 {
                1
            } else {
                0
            },
            now,
        );
        Ok(index)
    }

    /// Refresh a user's voting power when its stake changes: callable by the
    /// staking contract or the admin; the difference flows into the global
    /// statistics.
    pub fn update_voting_power(
        &mut self,
        caller: u64,
        user: u64,
        new_total_ice: i128,
        now: u64,
    ) -> (r: Result<(), GovernanceError>)
        requires
            old(self).wf(),
        ensures
            final(self).wf(),
            r is Err ==> *final(self) == *old(self),
            !old(self).is_init() ==> r == Err::<(), GovernanceError>(
                GovernanceError::NotInitialized,
            ),
            old(self).is_init() && caller != old(self).cfg().staking_contract && caller != old(
                self,
            ).cfg().admin ==> r == Err::<(), GovernanceError>(GovernanceError::Unauthorized),
            old(self).is_init() && (caller == old(self).cfg().staking_contract || caller == old(
                self,
            ).cfg().admin) && old(self).paused() ==> r == Err::<(), GovernanceError>(
                GovernanceError::ContractPaused,
            ),
            old(self).is_init() && (caller == old(self).cfg().staking_contract || caller == old(
                self,
            ).cfg().admin) && !old(self).paused() && !(i128::MIN <= new_total_ice - old(
                self,
            ).voting_power_of(user) <= i128::MAX) ==> r == Err::<(), GovernanceError>(
                GovernanceError::NumericOverflow,
            ),
            r is Ok <==> old(self).is_init() && (caller == old(self).cfg().staking_contract
                || caller == old(self).cfg().admin) && !old(self).paused() && i128::MIN
                <= new_total_ice - old(self).voting_power_of(user) <= i128::MAX,
            r is Ok ==> ({
                let delta = new_total_ice - old(self).voting_power_of(user);
                if delta != 0 {
                    let ns = GovernanceStats {
                        total_voting_power: sat_add_spec(
                            old(self).stats.total_voting_power as int,
                            delta,
                        ) as i128,
                        last_update: now,
                        ..old(self).stats
                    };
                    final(self).stats == ns && final(self).snapshots@ == keyed_put(
                        old(self).snapshots@,
                        now / SECONDS_PER_DAY,
                        ns,
                    ) && *final(self) == (GovernanceContract {
                        stats: final(self).stats,
                        snapshots: final(self).snapshots,
                        ..*old(self)
                    })
                } else {
                    *final(self) == *old(self)
                }
            }),
    {
        let cfg = match self.config {
            Some(c) => c,
            None => { return Err(GovernanceError::NotInitialized) },
        };
        if caller != cfg.staking_contract && caller != cfg.admin {
            return Err(GovernanceError::Unauthorized);
        }
        if cfg.emergency_pause {
            return Err(GovernanceError::ContractPaused);
        }
        let old_power: i128 = match keyed_find(&self.user_governance, user) {
            Some(i) => {
                proof {
                    lemma_keyed_index_is(self.user_governance@, user, i as int);
                }
                self.user_governance[i].1.voting_power
            },
            None => 0,
        };
        let delta = match new_total_ice.checked_sub(old_power) {
            Some(v) => v,
            None => { return Err(GovernanceError::NumericOverflow) },
        };
        if delta != 0 {
            self.update_global_stats(0, delta, 0, now);
        }
        Ok(())
    }

    /// Record a round of automated POL voting and the share of the total
    /// voting power cast on the pair, in basis points.
    pub fn record_pol_voting(
        &mut self,
        admin: u64,
        total_ice_voting_power: i128,
        aqua_blub_pair_votes: i128,
        now: u64,
    ) -> (r: Result<PolVotingRecordedEvent, GovernanceError>)
        requires
            old(self).wf(),
        ensures
            final(self).wf(),
            r is Err ==> *final(self) == *old(self),
            !old(self).is_init() ==> r == Err::<PolVotingRecordedEvent, GovernanceError>(
                GovernanceError::NotInitialized,
            ),
            old(self).is_init() && admin != old(self).cfg().admin ==> r == Err::<
                PolVotingRecordedEvent,
                GovernanceError,
            >(GovernanceError::Unauthorized),
            old(self).is_init() && admin == old(self).cfg().admin && old(self).paused() ==> r
                == Err::<PolVotingRecordedEvent, GovernanceError>(GovernanceError::ContractPaused),
            old(self).is_init() && admin == old(self).cfg().admin && !old(self).paused() && (
            total_ice_voting_power <= 0 || aqua_blub_pair_votes <= 0) ==> r == Err::<
                PolVotingRecordedEvent,
                GovernanceError,
            >(GovernanceError::InvalidInput),
            old(self).is_init() && admin == old(self).cfg().admin && !old(self).paused()
                && total_ice_voting_power > 0 && aqua_blub_pair_votes > 0 && aqua_blub_pair_votes
                * 10000 > i128::MAX ==> r == Err::<PolVotingRecordedEvent, GovernanceError>(
                GovernanceError::NumericOverflow,
            ),
            r is Ok <==> old(self).is_init() && admin == old(self).cfg().admin && !old(
                self,
            ).paused() && total_ice_voting_power > 0 && aqua_blub_pair_votes > 0
                && aqua_blub_pair_votes * 10000 <= i128::MAX,
            r is Ok ==> ({
                &&& r == Ok::<PolVotingRecordedEvent, GovernanceError>(
                    PolVotingRecordedEvent {
                        total_ice_voting_power,
                        aqua_blub_pair_votes,
                        voting_percentage: (aqua_blub_pair_votes * 10000 / (
                        total_ice_voting_power as int)) as i128,
                        timestamp: now,
                    },
                )
                &&& *final(self) == (GovernanceContract {
                    stats: GovernanceStats { last_update: now, ..old(self).stats },
                    ..*old(self)
                })
            }),
    {
        let cfg = match self.config {
            Some(c) => c,
            None => { return Err(GovernanceError::NotInitialized) },
        };
        if admin != cfg.admin {
            return Err(GovernanceError::Unauthorized);
        }
        if cfg.emergency_pause {
            return Err(GovernanceError::ContractPaused);
        }
        if total_ice_voting_power <= 0 || aqua_blub_pair_votes <= 0 {
            return Err(GovernanceError::InvalidInput);
        }
        proof {
            lemma_mul_nonnegative(aqua_blub_pair_votes as int, 10000);
        }
        let scaled = match aqua_blub_pair_votes.checked_mul(10000) {
            Some(v) => v,
            None => { return Err(GovernanceError::NumericOverflow) },
        };
        let voting_percentage = div_nonneg(scaled, total_ice_voting_power);
        self.stats = GovernanceStats { last_update: now, ..self.stats };
        proof {
            assert(*final(self) =~= (GovernanceContract {
                stats: GovernanceStats { last_update: now, ..old(self).stats },
                ..*old(self)
            }));
        }
        Ok(
            PolVotingRecordedEvent {
                total_ice_voting_power,
                aqua_blub_pair_votes,
                voting_percentage,
                timestamp: now,
            },
        )
    }

    /// The stored configuration.
    pub fn get_config(&self) -> (r: Result<GovernanceConfig, GovernanceError>)
        ensures
            self.is_init() ==> r == Ok::<GovernanceConfig, GovernanceError>(self.cfg()),
            !self.is_init() ==> r == Err::<GovernanceConfig, GovernanceError>(
                GovernanceError::NotInitialized,
            ),
    {
        match self.config {
            Some(c) => Ok(c),
            None => Err(GovernanceError::NotInitialized),
        }
    }

    /// The aggregate governance record of `user`, if any.
    pub fn get_user_governance(&self, user: u64) -> (r: Option<GovernanceRecord>)
        requires
            self.wf(),
        ensures
            keyed_has(self.user_governance@, user) ==> r == Some(
                keyed_get(self.user_governance@, user),
            ),
            !keyed_has(self.user_governance@, user) ==> r is None,
    {
        match keyed_find(&self.user_governance, user) {
            Some(i) => {
                proof {
                    lemma_keyed_index_is(self.user_governance@, user, i as int);
                }
                Some(self.user_governance[i].1)
            },
            None => None,
        }
    }

    /// Number of issuance records for `user`.
    pub fn get_user_record_count(&self, user: u64) -> (r: u32)
        requires
            self.wf(),
        ensures
            r == count_of(self.record_counts@, user),
    {
        match keyed_find(&self.record_counts, user) {
            Some(i) => {
                proof {
                    lemma_keyed_index_is(self.record_counts@, user, i as int);
                }
                self.record_counts[i].1
            },
            None => 0,
        }
    }

    /// The issuance record of `user` at `index`, if any.
    pub fn get_user_record_by_index(&self, user: u64, index: u32) -> (r: Option<GovernanceRecord>)
        requires
            self.wf(),
        ensures
            keyed_has(self.records@, (user, index)) ==> r == Some(
                keyed_get(self.records@, (user, index)),
            ),
            !keyed_has(self.records@, (user, index)) ==> r is None,
    {
        match indexed_find(&self.records, user, index) {
            Some(i) => {
                proof {
                    lemma_keyed_index_is(self.records@, (user, index), i as int);
                }
                Some(self.records[i].1)
            },
            None => None,
        }
    }

    /// The aggregate statistics, once the ledger is initialized.
    pub fn get_global_stats(&self) -> (r: Option<GovernanceStats>)
        ensures
            self.is_init() ==> r == Some(self.stats),
            !self.is_init() ==> r is None,
    {
        if self.config.is_some() {
            Some(self.stats)
        } else {
            None
        }
    }

    /// The statistics snapshot recorded for `day`, if any.
    pub fn get_daily_snapshot(&self, day: u64) -> (r: Option<GovernanceStats>)
        requires
            self.wf(),
        ensures
            keyed_has(self.snapshots@, day) ==> r == Some(keyed_get(self.snapshots@, day)),
            !keyed_has(self.snapshots@, day) ==> r is None,
    {
        match keyed_find(&self.snapshots, day) {
            Some(i) => {
                proof {
                    lemma_keyed_index_is(self.snapshots@, day, i as int);
                }
                Some(self.snapshots[i].1)
            },
            None => None,
        }
    }

    /// The stored voting power of `user`.
    pub fn get_voting_power(&self, user: u64) -> (r: i128)
        requires
            self.wf(),
        ensures
            r == self.voting_power_of(user),
    {
        match keyed_find(&self.user_governance, user) {
            Some(i) => {
                proof {
                    lemma_keyed_index_is(self.user_governance@, user, i as int);
                }
                self.user_governance[i].1.voting_power
            },
            None => 0,
        }
    }

    /// The total voting power across all participants.
    pub fn get_total_voting_power(&self) -> (r: i128)
        ensures
            self.is_init() ==> r == self.stats.total_voting_power,
            !self.is_init() ==> r == 0,
    {
        if self.config.is_some() {
            self.stats.total_voting_power
        } else {
            0
        }
    }

    /// Pause or resume the ledger's mutating operations.
    pub fn set_emergency_pause(&mut self, admin: u64, paused: bool) -> (r: Result<
        (),
        GovernanceError,
    >)
        requires
            old(self).wf(),
        ensures
            final(self).wf(),
            r is Err ==> *final(self) == *old(self),
            !old(self).is_init() ==> r == Err::<(), GovernanceError>(
                GovernanceError::NotInitialized,
            ),
            old(self).is_init() && admin != old(self).cfg().admin ==> r == Err::<
                (),
                GovernanceError,
            >(GovernanceError::Unauthorized),
            r is Ok <==> old(self).is_init() && admin == old(self).cfg().admin,
            r is Ok ==> *final(self) == (GovernanceContract {
                config: Some(GovernanceConfig { emergency_pause: paused, ..old(self).cfg() }),
                ..*old(self)
            }),
    {
        let cfg = match self.config {
            Some(c) => c,
            None => { return Err(GovernanceError::NotInitialized) },
        };
        if admin != cfg.admin {
            return Err(GovernanceError::Unauthorized);
        }
        self.config = Some(GovernanceConfig { emergency_pause: paused, ..cfg });
        proof {
            assert(*final(self) =~= (GovernanceContract {
                config: Some(GovernanceConfig { emergency_pause: paused, ..old(self).cfg() }),
                ..*old(self)
            }));
        }
        Ok(())
    }

    /// Update the issuance multipliers; absent arguments leave the stored
    /// value unchanged.
    pub fn update_multipliers(
        &mut self,
        admin: u64,
        base_multiplier: Option<i128>,
        max_time_multiplier: Option<i128>,
    ) -> (r: Result<(), GovernanceError>)
        requires
            old(self).wf(),
        ensures
            final(self).wf(),
            r is Err ==> *final(self) == *old(self),
            !old(self).is_init() ==> r == Err::<(), GovernanceError>(
                GovernanceError::NotInitialized,
            ),
            old(self).is_init() && admin != old(self).cfg().admin ==> r == Err::<
                (),
                GovernanceError,
            >(GovernanceError::Unauthorized),
            old(self).is_init() && admin == old(self).cfg().admin && ((base_multiplier matches
            Some(b) && b <= 0) || (max_time_multiplier matches Some(m) && m <= 0)) ==> r
                == Err::<(), GovernanceError>(GovernanceError::InvalidInput),
            r is Ok <==> old(self).is_init() && admin == old(self).cfg().admin && (match
            base_multiplier {
                Some(b) => b > 0,
                None => true,
            }) && (match max_time_multiplier {
                Some(m) => m > 0,
                None => true,
            }),
            r is Ok ==> *final(self) == (GovernanceContract {
                config: Some(
                    GovernanceConfig {
                        base_multiplier: (match base_multiplier {
                            Some(b) => b,
                            None => old(self).cfg().base_multiplier,
                        }),
                        max_time_multiplier: (match max_time_multiplier {
                            Some(m) => m,
                            None => old(self).cfg().max_time_multiplier,
                        }),
                        ..old(self).cfg()
                    },
                ),
                ..*old(self)
            }),
    {
        let cfg = match self.config {
            Some(c) => c,
            None => { return Err(GovernanceError::NotInitialized) },
        };
        if admin != cfg.admin {
            return Err(GovernanceError::Unauthorized);
        }
        let base = match base_multiplier {
            Some(b) => {
                if b <= 0 {
                    return Err(GovernanceError::InvalidInput);
                }
                b
            },
            None => cfg.base_multiplier,
        };
        let max_time = match max_time_multiplier {
            Some(m) => {
                if m <= 0 {
                    return Err(GovernanceError::InvalidInput);
                }
                m
            },
            None => cfg.max_time_multiplier,
        };
        self.config = Some(
            GovernanceConfig { base_multiplier: base, max_time_multiplier: max_time, ..cfg },
        );
        proof {
            assert(*final(self) =~= (GovernanceContract {
                config: final(self).config,
                ..*old(self)
            }));
        }
        Ok(())
    }

    /// The voting power currently allocated to POL voting: in this design
    /// the whole supply votes on the pair.
    pub fn get_pol_voting_allocation(&self) -> (r: i128)
        ensures
            self.is_init() ==> r == self.stats.total_voting_power,
            !self.is_init() ==> r == 0,
    {
        self.get_total_voting_power()
    }
}

} // verus!

//! Tiered token staking with time-based rewards.
//!
//! Stakers lock an amount of the reward token into a tier.  Rewards accrue
//! per second at a global rate and are shared in proportion to each
//! position's weight (its amount scaled by the tier's multiplier); the pool
//! keeps a cumulative reward-per-weight index scaled by `PRECISION_FACTOR`.
//! Leaving a position before its lock ends costs the tier's penalty.

use vstd::prelude::*;
use crate::arith::{trunc_div, in_i128, div_pos};
use crate::AccountId;

verus! {

pub const BPS_DENOMINATOR: i128 = 10_000;
pub const PRECISION_FACTOR: i128 = 1_000_000_000_000_000_000;
pub const MAX_TIERS: u32 = 10;
pub const MAX_PENALTY_BPS: u32 = 10_000;

/// Why a staking entry point refused to act.
#[derive(Clone, Copy, Debug, PartialEq, Eq, Structural)]
pub enum StakingError {
    AlreadyInitialized,
    NotInitialized,
    NegativeRewardRate,
    Unauthorized,
    AlreadyPaused,
    NotPaused,
    NonPositiveMinStake,
    ZeroLockDuration,
    ZeroMultiplier,
    PenaltyTooHigh,
    MaxTiersReached,
    InvalidTierId,
    TierNotFound,
    TierNotActive,
    TierAlreadyInactive,
    StakingPaused,
    NonPositiveAmount,
    BelowTierMinimum,
    LockEndOverflow,
    StakeIdOverflow,
    TotalStakedOverflow,
    TotalWeightedOverflow,
    InvalidStakeId,
    StakeNotFound,
    NotStaker,
    StakeNotActive,
    PenaltyOverflow,
    PenaltyExceedsPrincipal,
    TotalReturnedOverflow,
    TotalStakedUnderflow,
    TotalWeightedUnderflow,
    TotalRewardsOverflow,
    ReentrantCall,
    WeightOverflow,
    RewardIncrementOverflow,
    RewardPrecisionOverflow,
    RewardPerTokenOverflow,
    RewardDiffUnderflow,
    PendingRewardsOverflow,
}

/// The message with which each refusal is reported.
pub open spec fn error_message(e: StakingError) -> Seq<char> {
    match e {
        StakingError::AlreadyInitialized => "Already initialized"@,
        StakingError::NotInitialized => "Contract not initialized"@,
        StakingError::NegativeRewardRate => "Reward rate cannot be negative"@,
        StakingError::Unauthorized => "Unauthorized: caller is not admin"@,
        StakingError::AlreadyPaused => "Already paused"@,
        StakingError::NotPaused => "Not paused"@,
        StakingError::NonPositiveMinStake => "Minimum stake amount must be positive"@,
        StakingError::ZeroLockDuration => "Lock duration must be positive"@,
        StakingError::ZeroMultiplier => "Reward multiplier must be positive"@,
        StakingError::PenaltyTooHigh => "Penalty exceeds 100%"@,
        StakingError::MaxTiersReached => "Maximum tiers reached"@,
        StakingError::InvalidTierId => "Invalid tier ID"@,
        StakingError::TierNotFound => "Tier not found"@,
        StakingError::TierNotActive => "Tier is not active"@,
        StakingError::TierAlreadyInactive => "Tier already inactive"@,
        StakingError::StakingPaused => "Staking is paused"@,
        StakingError::NonPositiveAmount => "Stake amount must be positive"@,
        StakingError::BelowTierMinimum => "Amount below tier minimum"@,
        StakingError::LockEndOverflow => "Lock end time overflow"@,
        StakingError::StakeIdOverflow => "Stake ID overflow"@,
        StakingError::TotalStakedOverflow => "Total staked overflow"@,
        StakingError::TotalWeightedOverflow => "Total weighted overflow"@,
        StakingError::InvalidStakeId => "Invalid stake ID"@,
        StakingError::StakeNotFound => "Stake not found"@,
        StakingError::NotStaker => "Only staker can unstake"@,
        StakingError::StakeNotActive => "Stake is not active"@,
        StakingError::PenaltyOverflow => "Penalty multiplication overflow"@,
        StakingError::PenaltyExceedsPrincipal => "Penalty exceeds principal"@,
        StakingError::TotalReturnedOverflow => "Total returned overflow"@,
        StakingError::TotalStakedUnderflow => "Total staked underflow"@,
        StakingError::TotalWeightedUnderflow => "Total weighted underflow"@,
        StakingError::TotalRewardsOverflow => "Total rewards overflow"@,
        StakingError::ReentrantCall => "Reentrant call blocked"@,
        StakingError::WeightOverflow => "Weight overflow"@,
        StakingError::RewardIncrementOverflow => "Reward increment overflow"@,
        StakingError::RewardPrecisionOverflow => "Reward increment precision overflow"@,
        StakingError::RewardPerTokenOverflow => "Reward per token overflow"@,
        StakingError::RewardDiffUnderflow => "RPT diff underflow"@,
        StakingError::PendingRewardsOverflow => "Pending rewards overflow"@,
    }
}

impl StakingError {
    /// The message with which the refusal is reported.
    pub fn message(&self) -> (r: &'static str)
        ensures
            r@ == error_message(*self),
    {
        match self {
            StakingError::AlreadyInitialized => "Already initialized",
            StakingError::NotInitialized => "Contract not initialized",
            StakingError::NegativeRewardRate => "Reward rate cannot be negative",
            StakingError::Unauthorized => "Unauthorized: caller is not admin",
            StakingError::AlreadyPaused => "Already paused",
            StakingError::NotPaused => "Not paused",
            StakingError::NonPositiveMinStake => "Minimum stake amount must be positive",
            StakingError::ZeroLockDuration => "Lock duration must be positive",
            StakingError::ZeroMultiplier => "Reward multiplier must be positive",
            StakingError::PenaltyTooHigh => "Penalty exceeds 100%",
            StakingError::MaxTiersReached => "Maximum tiers reached",
            StakingError::InvalidTierId => "Invalid tier ID",
            StakingError::TierNotFound => "Tier not found",
            StakingError::TierNotActive => "Tier is not active",
            StakingError::TierAlreadyInactive => "Tier already inactive",
            StakingError::StakingPaused => "Staking is paused",
            StakingError::NonPositiveAmount => "Stake amount must be positive",
            StakingError::BelowTierMinimum => "Amount below tier minimum",
            StakingError::LockEndOverflow => "Lock end time overflow",
            StakingError::StakeIdOverflow => "Stake ID overflow",
            StakingError::TotalStakedOverflow => "Total staked overflow",
            StakingError::TotalWeightedOverflow => "Total weighted overflow",
            StakingError::InvalidStakeId => "Invalid stake ID",
            StakingError::StakeNotFound => "Stake not found",
            StakingError::NotStaker => "Only staker can unstake",
            StakingError::StakeNotActive => "Stake is not active",
            StakingError::PenaltyOverflow => "Penalty multiplication overflow",
            StakingError::PenaltyExceedsPrincipal => "Penalty exceeds principal",
            StakingError::TotalReturnedOverflow => "Total returned overflow",
            StakingError::TotalStakedUnderflow => "Total staked underflow",
            StakingError::TotalWeightedUnderflow => "Total weighted underflow",
            StakingError::TotalRewardsOverflow => "Total rewards overflow",
            StakingError::ReentrantCall => "Reentrant call blocked",
            StakingError::WeightOverflow => "Weight overflow",
            StakingError::RewardIncrementOverflow => "Reward increment overflow",
            StakingError::RewardPrecisionOverflow => "Reward increment precision overflow",
            StakingError::RewardPerTokenOverflow => "Reward per token overflow",
            StakingError::RewardDiffUnderflow => "RPT diff underflow",
            StakingError::PendingRewardsOverflow => "Pending rewards overflow",
        }
    }
}


/// A staker's position; stake ids start at 1.
#[derive(Clone, Copy, Debug, PartialEq, Eq, Structural)]
pub struct StakePosition {
    pub stake_id: u64,
    pub user: AccountId,
    pub amount: i128,
    pub tier_id: u32,
    pub stake_time: u64,
    pub lock_end_time: u64,
    pub reward_per_token_paid: i128,
    pub active: bool,
}

/// A staking tier; tier ids start at 1.
#[derive(Clone, Debug)]
pub struct StakingTier {
    pub tier_id: u32,
    pub name: String,
    pub min_stake_amount: i128,
    pub lock_duration_seconds: u64,
    pub reward_multiplier_bps: u32,
    pub penalty_bps: u32,
    pub active: bool,
    pub created_at: u64,
}

/// Summary of the contract's configuration and totals.
#[derive(Clone, Copy, Debug, PartialEq, Eq, Structural)]
pub struct StakingInfo {
    pub admin: AccountId,
    pub reward_token: AccountId,
    pub total_staked: i128,
    pub total_rewards_distributed: i128,
    pub reward_rate_per_second: i128,
    pub last_reward_time: u64,
    pub paused: bool,
    pub tier_count: u32,
}

/// What `stake` reports.
#[derive(Clone, Copy, Debug, PartialEq, Eq, Structural)]
pub struct StakeResult {
    pub stake_id: u64,
    pub amount: i128,
    pub tier_id: u32,
    pub lock_end_time: u64,
}

/// What `unstake` reports.
#[derive(Clone, Copy, Debug, PartialEq, Eq, Structural)]
pub struct UnstakeResult {
    pub stake_id: u64,
    pub principal_returned: i128,
    pub rewards_claimed: i128,
    pub penalty_amount: i128,
    pub total_returned: i128,
}

/// A movement of the reward token that the host must carry out.
#[derive(Clone, Copy, Debug, PartialEq, Eq, Structural)]
pub struct TokenTransfer {
    pub token: AccountId,
    pub from: AccountId,
    pub to: AccountId,
    pub amount: i128,
}

/// A position's weight: its amount scaled by a multiplier in basis points.
pub open spec fn weight_of(amount: int, multiplier_bps: int) -> int {
    trunc_div(amount * multiplier_bps, 10000)
}

/// The early-exit penalty on an amount.
pub open spec fn penalty_of(amount: int, penalty_bps: int) -> int {
    if penalty_bps == 0 {
        0
    } else {
        trunc_div(amount * penalty_bps, 10000)
    }
}

/// The total amount held by the active positions of a sequence.
pub open spec fn sum_active(s: Seq<StakePosition>) -> int
    decreases s.len(),
{
    if s.len() == 0 {
        0
    } else {
        sum_active(s.drop_last()) + if s.last().active {
            s.last().amount as int
        } else {
            0
        }
    }
}

impl Staking {
    /// The weight (amount times multiplier) of a position, as `calculate_weight`
    /// computes it.  The product must fit in an `i128`.
    pub fn calculate_weight(amount: i128, multiplier_bps: u32) -> (r: i128)
        requires
            in_i128(amount * multiplier_bps),
        ensures
            r == weight_of(amount as int, multiplier_bps as int),
    {
        div_pos(amount * (multiplier_bps as i128), BPS_DENOMINATOR)
    }

    /// The penalty for leaving a position early.  The product must fit in an
    /// `i128` unless the rate is zero.
    pub fn calculate_penalty(amount: i128, penalty_bps: u32) -> (r: i128)
        requires
            penalty_bps == 0 || in_i128(amount * penalty_bps),
        ensures
            r == penalty_of(amount as int, penalty_bps as int),
    {
        if penalty_bps == 0 {
            return 0;
        }
        div_pos(amount * (penalty_bps as i128), BPS_DENOMINATOR)
    }
}

/// The contract's state.  Position `i` of `stakes` holds stake id `i + 1` and
/// position `i` of `tiers` holds tier id `i + 1`, so the stake counter is
/// `stakes.len()`, the tier counter and the tier id list follow from
/// `tiers.len()`, and a user's stake ids are those of their positions.
pub struct Staking {
    pub admin: Option<AccountId>,
    pub reward_token: Option<AccountId>,
    pub paused: bool,
    pub reward_rate_per_second: i128,
    pub last_reward_time: u64,
    pub reward_per_token_stored: i128,
    pub total_weighted_stake: i128,
    pub total_staked: i128,
    pub total_rewards_distributed: i128,
    pub stakes: Vec<StakePosition>,
    pub tiers: Vec<StakingTier>,
    pub reentrancy_lock: bool,
}

impl Staking {
    /// The invariant that every entry point keeps.
    pub open spec fn wf(&self) -> bool {
        &&& self.admin.is_some() == self.reward_token.is_some()
        &&& self.admin.is_none() ==> self.stakes@.len() == 0 && self.tiers@.len() == 0
        &&& self.tiers@.len() <= MAX_TIERS
        &&& self.reward_rate_per_second >= 0
        &&& self.reward_per_token_stored >= 0
        &&& self.total_staked == sum_active(self.stakes@)
        &&& forall|i: int| 0 <= i < self.tiers@.len() ==> #[trigger] self.tiers@[i].tier_id == i + 1
        &&& forall|i: int|
            0 <= i < self.tiers@.len() ==> #[trigger] self.tiers@[i].reward_multiplier_bps > 0
                && self.tiers@[i].penalty_bps <= MAX_PENALTY_BPS
        &&& forall|i: int|
            0 <= i < self.stakes@.len() ==> {
                let p = #[trigger] self.stakes@[i];
                &&& p.stake_id == i + 1
                &&& p.amount > 0
                &&& 1 <= p.tier_id <= self.tiers@.len()
                &&& 0 <= p.reward_per_token_paid <= self.reward_per_token_stored
            }
    }

    /// Whether the reward index has anything to accrue at `now`.
    pub open spec fn pool_accrues(&self, now: u64) -> bool {
        now > self.last_reward_time && self.total_weighted_stake > 0
    }

    /// Reward rate times elapsed seconds.
    pub open spec fn pool_emitted(&self, now: u64) -> int {
        self.reward_rate_per_second * (now - self.last_reward_time)
    }

    /// The growth of the reward index from the last update to `now`.
    pub open spec fn pool_increment(&self, now: u64) -> int {
        self.pool_emitted(now) * PRECISION_FACTOR / (self.total_weighted_stake as int)
    }

    /// The first arithmetic failure that bringing the index up to `now` meets.
    pub open spec fn pool_check(&self, now: u64) -> Result<(), StakingError> {
        if !self.pool_accrues(now) {
            Ok(())
        } else if !in_i128(self.pool_emitted(now)) {
            Err(StakingError::RewardIncrementOverflow)
        } else if !in_i128(self.pool_emitted(now) * PRECISION_FACTOR) {
            Err(StakingError::RewardPrecisionOverflow)
        } else if !in_i128(self.reward_per_token_stored + self.pool_increment(now)) {
            Err(StakingError::RewardPerTokenOverflow)
        } else {
            Ok(())
        }
    }

    /// The reward index brought up to `now`.
    pub open spec fn accrued_rpt(&self, now: u64) -> int {
        if self.pool_accrues(now) {
            self.reward_per_token_stored + self.pool_increment(now)
        } else {
            self.reward_per_token_stored as int
        }
    }

    /// The state after the pool has been brought up to `now`.
    pub open spec fn pool_updated(self, now: u64) -> Staking {
        if now <= self.last_reward_time {
            self
        } else {
            Staking {
                reward_per_token_stored: self.accrued_rpt(now) as i128,
                last_reward_time: now,
                ..self
            }
        }
    }

    /// The rewards a position has earned by `now`, or the first arithmetic
    /// failure met while computing them.
    pub open spec fn pending_check(&self, p: StakePosition, multiplier_bps: u32, now: u64) -> Result<
        int,
        StakingError,
    > {
        if !p.active || self.total_weighted_stake <= 0 {
            Ok(0)
        } else {
            match self.pool_check(now) {
                Err(e) => Err(e),
                Ok(_) => {
                    let diff = self.accrued_rpt(now) - p.reward_per_token_paid;
                    let w = weight_of(p.amount as int, multiplier_bps as int);
                    if !in_i128(p.amount * multiplier_bps) {
                        Err(StakingError::WeightOverflow)
                    } else if !in_i128(diff) {
                        Err(StakingError::RewardDiffUnderflow)
                    } else if !in_i128(diff * w) {
                        Err(StakingError::PendingRewardsOverflow)
                    } else {
                        Ok(trunc_div(diff * w, PRECISION_FACTOR as int))
                    }
                },
            }
        }
    }
}


/// An executable outcome agrees with a mathematical one.
pub open spec fn same_outcome(r: Result<i128, StakingError>, s: Result<int, StakingError>) -> bool {
    match (r, s) {
        (Ok(v), Ok(w)) => v == w,
        (Err(e), Err(f)) => e == f,
        _ => false,
    }
}

proof fn lemma_sum_active_push(s: Seq<StakePosition>, p: StakePosition)
    ensures
        sum_active(s.push(p)) == sum_active(s) + if p.active { p.amount as int } else { 0 },
{
    assert(s.push(p).drop_last() =~= s);
}

proof fn lemma_sum_active_deactivate(s: Seq<StakePosition>, i: int, q: StakePosition)
    requires
        0 <= i < s.len(),
        s[i].active,
        q == (StakePosition { active: false, ..s[i] }),
    ensures
        sum_active(s.update(i, q)) == sum_active(s) - s[i].amount,
    decreases s.len(),
{
    if i == s.len() - 1 {
        assert(s.update(i, q).drop_last() =~= s.drop_last());
    } else {
        lemma_sum_active_deactivate(s.drop_last(), i, q);
        assert(s.update(i, q).drop_last() =~= s.drop_last().update(i, q));
    }
}

/// The summed weight of the active positions, each weighed by its tier's
/// current multiplier.
pub open spec fn weight_sum(s: Seq<StakePosition>, tiers: Seq<StakingTier>) -> int
    decreases s.len(),
{
    if s.len() == 0 {
        0
    } else {
        weight_sum(s.drop_last(), tiers) + if s.last().active {
            weight_of(s.last().amount as int, tiers[s.last().tier_id - 1].reward_multiplier_bps as int)
        } else {
            0
        }
    }
}

proof fn lemma_weight_sum_deactivate(s: Seq<StakePosition>, tiers: Seq<StakingTier>, i: int, q: StakePosition)
    requires
        0 <= i < s.len(),
        s[i].active,
        q == (StakePosition { active: false, ..s[i] }),
    ensures
        weight_sum(s.update(i, q), tiers) == weight_sum(s, tiers) - weight_of(
            s[i].amount as int,
            tiers[s[i].tier_id - 1].reward_multiplier_bps as int,
        ),
    decreases s.len(),
{
    if i == s.len() - 1 {
        assert(s.update(i, q).drop_last() =~= s.drop_last());
    } else {
        lemma_weight_sum_deactivate(s.drop_last(), tiers, i, q);
        assert(s.update(i, q).drop_last() =~= s.drop_last().update(i, q));
    }
}

proof fn lemma_weight_sum_same_multipliers(s: Seq<StakePosition>, t1: Seq<StakingTier>, t2: Seq<StakingTier>)
    requires
        forall|i: int|
            0 <= i < s.len() && (#[trigger] s[i]).active ==> t1[s[i].tier_id - 1].reward_multiplier_bps
                == t2[s[i].tier_id - 1].reward_multiplier_bps,
    ensures
        weight_sum(s, t1) == weight_sum(s, t2),
    decreases s.len(),
{
    if s.len() > 0 {
        let r = s.drop_last();
        assert forall|i: int|
            0 <= i < r.len() && (#[trigger] r[i]).active implies t1[r[i].tier_id - 1].reward_multiplier_bps
                == t2[r[i].tier_id - 1].reward_multiplier_bps by {
            assert(r[i] == s[i]);
        }
        lemma_weight_sum_same_multipliers(r, t1, t2);
        if s.last().active {
            assert(s[s.len() - 1] == s.last());
        }
    }
}

proof fn lemma_div_nonneg(x: int, d: int)
    requires
        x >= 0,
        d > 0,
    ensures
        0 <= x / d <= x,
{
    vstd::arithmetic::div_mod::lemma_div_pos_is_pos(x, d);
    vstd::arithmetic::div_mod::lemma_div_is_ordered_by_denominator(x, 1, d);
}

impl Staking {
    /// An empty, uninitialised contract.
    pub fn new() -> (s: Staking)
        ensures
            s.wf(),
            s.admin.is_none(),
            s.reward_token.is_none(),
            s.stakes@.len() == 0,
            s.tiers@.len() == 0,
            s.total_staked == 0,
            s.total_weighted_stake == 0,
            s.total_rewards_distributed == 0,
            s.reward_rate_per_second == 0,
            s.reward_per_token_stored == 0,
            s.last_reward_time == 0,
            !s.paused,
            !s.reentrancy_lock,
    {
        Staking {
            admin: None,
            reward_token: None,
            paused: false,
            reward_rate_per_second: 0,
            last_reward_time: 0,
            reward_per_token_stored: 0,
            total_weighted_stake: 0,
            total_staked: 0,
            total_rewards_distributed: 0,
            stakes: Vec::new(),
            tiers: Vec::new(),
            reentrancy_lock: false,
        }
    }

    /// Brings the reward index up to `now`.
    pub fn update_pool(&mut self, now: u64) -> (r: Result<(), StakingError>)
        requires
            old(self).wf(),
        ensures
            r == old(self).pool_check(now),
            r is Ok ==> *final(self) == old(self).pool_updated(now),
            r is Err ==> *final(self) == *old(self),
            final(self).wf(),
            final(self).reward_per_token_stored >= old(self).reward_per_token_stored,
    {
        if now <= self.last_reward_time {
            return Ok(());
        }
        if self.total_weighted_stake <= 0 {
            self.last_reward_time = now;
            return Ok(());
        }
        let elapsed = now - self.last_reward_time;
        let emitted = match self.reward_rate_per_second.checked_mul(elapsed as i128) {
            Some(v) => v,
            None => return Err(StakingError::RewardIncrementOverflow),
        };
        let scaled = match emitted.checked_mul(PRECISION_FACTOR) {
            Some(v) => v,
            None => return Err(StakingError::RewardPrecisionOverflow),
        };
        proof {
            assert(emitted >= 0) by (nonlinear_arith)
                requires
                    emitted == self.reward_rate_per_second * elapsed,
                    self.reward_rate_per_second >= 0,
                    elapsed > 0,
            ;
            lemma_div_nonneg(scaled as int, self.total_weighted_stake as int);
        }
        let increment = div_pos(scaled, self.total_weighted_stake);
        let new_rpt = match self.reward_per_token_stored.checked_add(increment) {
            Some(v) => v,
            None => return Err(StakingError::RewardPerTokenOverflow),
        };
        self.reward_per_token_stored = new_rpt;
        self.last_reward_time = now;
        Ok(())
    }

    /// The rewards a position has earned by `now`, without touching state.
    pub fn calculate_pending_rewards_static(&self, position: &StakePosition, multiplier_bps: u32, now: u64) -> (r:
        Result<i128, StakingError>)
        requires
            self.wf(),
        ensures
            same_outcome(r, self.pending_check(*position, multiplier_bps, now)),
    {
        if !position.active {
            return Ok(0);
        }
        let total_weighted = self.total_weighted_stake;
        if total_weighted <= 0 {
            return Ok(0);
        }
        let current_rpt = self.reward_per_token_stored;
        let future_rpt = if now > self.last_reward_time {
            let elapsed = now - self.last_reward_time;
            let emitted = match self.reward_rate_per_second.checked_mul(elapsed as i128) {
                Some(v) => v,
                None => return Err(StakingError::RewardIncrementOverflow),
            };
            let scaled = match emitted.checked_mul(PRECISION_FACTOR) {
                Some(v) => v,
                None => return Err(StakingError::RewardPrecisionOverflow),
            };
            proof {
                assert(emitted >= 0) by (nonlinear_arith)
                    requires
                        emitted == self.reward_rate_per_second * elapsed,
                        self.reward_rate_per_second >= 0,
                        elapsed > 0,
                ;
            }
            let increment = div_pos(scaled, total_weighted);
            match current_rpt.checked_add(increment) {
                Some(v) => v,
                None => return Err(StakingError::RewardPerTokenOverflow),
            }
        } else {
            current_rpt
        };
        let product = match position.amount.checked_mul(multiplier_bps as i128) {
            Some(v) => v,
            None => return Err(StakingError::WeightOverflow),
        };
        let user_weight = div_pos(product, BPS_DENOMINATOR);
        let rpt_diff = match future_rpt.checked_sub(position.reward_per_token_paid) {
            Some(v) => v,
            None => return Err(StakingError::RewardDiffUnderflow),
        };
        let gross = match rpt_diff.checked_mul(user_weight) {
            Some(v) => v,
            None => return Err(StakingError::PendingRewardsOverflow),
        };
        Ok(div_pos(gross, PRECISION_FACTOR))
    }
}


impl StakingTier {
    /// A field-for-field copy of the tier.
    pub fn duplicate(&self) -> (r: StakingTier)
        ensures
            r == *self,
    {
        StakingTier {
            tier_id: self.tier_id,
            name: self.name.clone(),
            min_stake_amount: self.min_stake_amount,
            lock_duration_seconds: self.lock_duration_seconds,
            reward_multiplier_bps: self.reward_multiplier_bps,
            penalty_bps: self.penalty_bps,
            active: self.active,
            created_at: self.created_at,
        }
    }
}

impl Staking {
    /// Why `caller` may not act as the admin, if it may not.
    pub open spec fn admin_error(&self, caller: AccountId) -> Option<StakingError> {
        match self.admin {
            None => Some(StakingError::NotInitialized),
            Some(a) => if a != caller {
                Some(StakingError::Unauthorized)
            } else {
                None
            },
        }
    }

    /// Why `tier_id` names no tier, if it names none.
    pub open spec fn tier_error(&self, tier_id: u32) -> Option<StakingError> {
        if tier_id == 0 {
            Some(StakingError::InvalidTierId)
        } else if tier_id > self.tiers@.len() {
            Some(StakingError::TierNotFound)
        } else {
            None
        }
    }

    /// The tier that `tier_id` names.
    pub open spec fn tier_at(&self, tier_id: u32) -> StakingTier {
        self.tiers@[tier_id - 1]
    }

    /// Why `stake_id` names no position, if it names none.
    pub open spec fn stake_error(&self, stake_id: u64) -> Option<StakingError> {
        if stake_id == 0 {
            Some(StakingError::InvalidStakeId)
        } else if stake_id > self.stakes@.len() {
            Some(StakingError::StakeNotFound)
        } else {
            None
        }
    }

    /// The position that `stake_id` names.
    pub open spec fn stake_at(&self, stake_id: u64) -> StakePosition {
        self.stakes@[stake_id - 1]
    }

    fn assert_admin(&self, caller: AccountId) -> (r: Result<(), StakingError>)
        ensures
            r is Ok <==> self.admin_error(caller) is None,
            r matches Err(e) ==> self.admin_error(caller) == Some(e),
    {
        match self.admin {
            None => Err(StakingError::NotInitialized),
            Some(a) => if a != caller {
                Err(StakingError::Unauthorized)
            } else {
                Ok(())
            },
        }
    }

    fn load_tier(&self, tier_id: u32) -> (r: Result<StakingTier, StakingError>)
        ensures
            r is Ok <==> self.tier_error(tier_id) is None,
            r matches Err(e) ==> self.tier_error(tier_id) == Some(e),
            r matches Ok(t) ==> t == self.tier_at(tier_id),
    {
        if tier_id == 0 {
            return Err(StakingError::InvalidTierId);
        }
        let idx = (tier_id - 1) as usize;
        if idx >= self.tiers.len() {
            return Err(StakingError::TierNotFound);
        }
        Ok(self.tiers[idx].duplicate())
    }

    fn load_stake(&self, stake_id: u64) -> (r: Result<StakePosition, StakingError>)
        ensures
            r is Ok <==> self.stake_error(stake_id) is None,
            r matches Err(e) ==> self.stake_error(stake_id) == Some(e),
            r matches Ok(p) ==> p == self.stake_at(stake_id),
    {
        if stake_id == 0 {
            return Err(StakingError::InvalidStakeId);
        }
        if stake_id - 1 >= self.stakes.len() as u64 {
            return Err(StakingError::StakeNotFound);
        }
        Ok(self.stakes[(stake_id - 1) as usize])
    }

    /// Sets up the contract: admin, reward token and reward rate, with the
    /// reward clock starting at `now`.
    pub fn initialize(
        &mut self,
        admin: AccountId,
        reward_token: AccountId,
        reward_rate_per_second: i128,
        now: u64,
    ) -> (r: Result<(), StakingError>)
        requires
            old(self).wf(),
        ensures
            final(self).wf(),
            old(self).admin.is_some() ==> r == Err::<(), StakingError>(StakingError::AlreadyInitialized),
            old(self).admin.is_none() && reward_rate_per_second < 0 ==> r == Err::<(), StakingError>(
                StakingError::NegativeRewardRate,
            ),
            r is Ok <==> old(self).admin.is_none() && reward_rate_per_second >= 0,
            r is Err ==> *final(self) == *old(self),
            r is Ok ==> *final(self) == (Staking {
                admin: Some(admin),
                reward_token: Some(reward_token),
                paused: false,
                reward_rate_per_second,
                last_reward_time: now,
                reward_per_token_stored: 0,
                total_weighted_stake: 0,
                total_staked: 0,
                total_rewards_distributed: 0,
                reentrancy_lock: false,
                ..*old(self)
            }),
    {
        if self.admin.is_some() {
            return Err(StakingError::AlreadyInitialized);
        }
        if reward_rate_per_second < 0 {
            return Err(StakingError::NegativeRewardRate);
        }
        self.admin = Some(admin);
        self.reward_token = Some(reward_token);
        self.paused = false;
        self.reward_rate_per_second = reward_rate_per_second;
        self.last_reward_time = now;
        self.reward_per_token_stored = 0;
        self.total_weighted_stake = 0;
        self.total_staked = 0;
        self.total_rewards_distributed = 0;
        self.reentrancy_lock = false;
        Ok(())
    }

    /// Stops new stakes (admin only).
    pub fn pause(&mut self, caller: AccountId) -> (r: Result<(), StakingError>)
        requires
            old(self).wf(),
        ensures
            final(self).wf(),
            r == (match old(self).admin_error(caller) {
                Some(e) => Err(e),
                None => if old(self).paused {
                    Err(StakingError::AlreadyPaused)
                } else {
                    Ok(())
                },
            }),
            r is Err ==> *final(self) == *old(self),
            r is Ok ==> *final(self) == (Staking { paused: true, ..*old(self) }),
    {
        self.assert_admin(caller)?;
        if self.paused {
            return Err(StakingError::AlreadyPaused);
        }
        self.paused = true;
        Ok(())
    }

    /// Lets stakes in again (admin only).
    pub fn unpause(&mut self, caller: AccountId) -> (r: Result<(), StakingError>)
        requires
            old(self).wf(),
        ensures
            final(self).wf(),
            r == (match old(self).admin_error(caller) {
                Some(e) => Err(e),
                None => if !old(self).paused {
                    Err(StakingError::NotPaused)
                } else {
                    Ok(())
                },
            }),
            r is Err ==> *final(self) == *old(self),
            r is Ok ==> *final(self) == (Staking { paused: false, ..*old(self) }),
    {
        self.assert_admin(caller)?;
        if !self.paused {
            return Err(StakingError::NotPaused);
        }
        self.paused = false;
        Ok(())
    }

    /// Changes the reward rate (admin only), settling the pool at the old
    /// rate up to `now` first.
    pub fn set_reward_rate(&mut self, caller: AccountId, new_rate: i128, now: u64) -> (r: Result<(), StakingError>)
        requires
            old(self).wf(),
        ensures
            final(self).wf(),
            r == (match old(self).admin_error(caller) {
                Some(e) => Err(e),
                None => if new_rate < 0 {
                    Err(StakingError::NegativeRewardRate)
                } else {
                    old(self).pool_check(now)
                },
            }),
            r is Err ==> *final(self) == *old(self),
            r is Ok ==> *final(self) == (Staking {
                reward_rate_per_second: new_rate,
                ..old(self).pool_updated(now)
            }),
    {
        self.assert_admin(caller)?;
        if new_rate < 0 {
            return Err(StakingError::NegativeRewardRate);
        }
        self.update_pool(now)?;
        self.reward_rate_per_second = new_rate;
        Ok(())
    }
}


impl Staking {
    /// Why `add_tier` refuses, if it does.
    pub open spec fn add_tier_error(
        &self,
        caller: AccountId,
        min_stake_amount: i128,
        lock_duration_seconds: u64,
        reward_multiplier_bps: u32,
        penalty_bps: u32,
    ) -> Option<StakingError> {
        if self.admin_error(caller) is Some {
            self.admin_error(caller)
        } else if min_stake_amount <= 0 {
            Some(StakingError::NonPositiveMinStake)
        } else if lock_duration_seconds == 0 {
            Some(StakingError::ZeroLockDuration)
        } else if reward_multiplier_bps == 0 {
            Some(StakingError::ZeroMultiplier)
        } else if penalty_bps > MAX_PENALTY_BPS {
            Some(StakingError::PenaltyTooHigh)
        } else if self.tiers@.len() >= MAX_TIERS {
            Some(StakingError::MaxTiersReached)
        } else {
            None
        }
    }

    /// Adds an active tier (admin only) and returns its id, the next after
    /// the last tier.
    pub fn add_tier(
        &mut self,
        caller: AccountId,
        name: String,
        min_stake_amount: i128,
        lock_duration_seconds: u64,
        reward_multiplier_bps: u32,
        penalty_bps: u32,
        now: u64,
    ) -> (r: Result<u32, StakingError>)
        requires
            old(self).wf(),
        ensures
            final(self).wf(),
            r is Ok <==> old(self).add_tier_error(
                caller,
                min_stake_amount,
                lock_duration_seconds,
                reward_multiplier_bps,
                penalty_bps,
            ) is None,
            r matches Err(e) ==> old(self).add_tier_error(
                caller,
                min_stake_amount,
                lock_duration_seconds,
                reward_multiplier_bps,
                penalty_bps,
            ) == Some(e),
            r is Ok && old(self).weights_consistent() ==> final(self).weights_consistent(),
            r is Err ==> *final(self) == *old(self),
            r matches Ok(id) ==> {
                &&& id == old(self).tiers@.len() + 1
                &&& final(self).tiers@ == old(self).tiers@.push(
                    StakingTier {
                        tier_id: id,
                        name,
                        min_stake_amount,
                        lock_duration_seconds,
                        reward_multiplier_bps,
                        penalty_bps,
                        active: true,
                        created_at: now,
                    },
                )
                &&& *final(self) == (Staking { tiers: final(self).tiers, ..*old(self) })
            },
    {
        self.assert_admin(caller)?;
        if min_stake_amount <= 0 {
            return Err(StakingError::NonPositiveMinStake);
        }
        if lock_duration_seconds == 0 {
            return Err(StakingError::ZeroLockDuration);
        }
        if reward_multiplier_bps == 0 {
            return Err(StakingError::ZeroMultiplier);
        }
        if penalty_bps > MAX_PENALTY_BPS {
            return Err(StakingError::PenaltyTooHigh);
        }
        if self.tiers.len() >= MAX_TIERS as usize {
            return Err(StakingError::MaxTiersReached);
        }
        let tier_id = (self.tiers.len() + 1) as u32;
        let tier = StakingTier {
            tier_id,
            name,
            min_stake_amount,
            lock_duration_seconds,
            reward_multiplier_bps,
            penalty_bps,
            active: true,
            created_at: now,
        };
        self.tiers.push(tier);
        proof {
            if old(self).weights_consistent() {
                assert forall|i: int|
                    0 <= i < old(self).stakes@.len() && (#[trigger] old(self).stakes@[i]).active
                        implies self.tiers@[old(self).stakes@[i].tier_id - 1].reward_multiplier_bps
                        == old(self).tiers@[old(self).stakes@[i].tier_id - 1].reward_multiplier_bps by {
                    assert(1 <= old(self).stakes@[i].tier_id <= old(self).tiers@.len());
                }
                lemma_tier_change_keeps_weights(*old(self), *self);
            }
        }
        Ok(tier_id)
    }

    /// Why `update_tier` refuses, if it does.
    pub open spec fn update_tier_error(
        &self,
        caller: AccountId,
        tier_id: u32,
        new_min_stake_amount: Option<i128>,
        new_lock_duration_seconds: Option<u64>,
        new_reward_multiplier_bps: Option<u32>,
        new_penalty_bps: Option<u32>,
    ) -> Option<StakingError> {
        if self.admin_error(caller) is Some {
            self.admin_error(caller)
        } else if self.tier_error(tier_id) is Some {
            self.tier_error(tier_id)
        } else if !self.tier_at(tier_id).active {
            Some(StakingError::TierNotActive)
        } else if new_min_stake_amount matches Some(a) && a <= 0 {
            Some(StakingError::NonPositiveMinStake)
        } else if new_lock_duration_seconds matches Some(d) && d == 0 {
            Some(StakingError::ZeroLockDuration)
        } else if new_reward_multiplier_bps matches Some(m) && m == 0 {
            Some(StakingError::ZeroMultiplier)
        } else if new_penalty_bps matches Some(p) && p > MAX_PENALTY_BPS {
            Some(StakingError::PenaltyTooHigh)
        } else {
            None
        }
    }

    /// Changes the given fields of an active tier (admin only) and returns
    /// the tier as it now stands.
    pub fn update_tier(
        &mut self,
        caller: AccountId,
        tier_id: u32,
        new_name: Option<String>,
        new_min_stake_amount: Option<i128>,
        new_lock_duration_seconds: Option<u64>,
        new_reward_multiplier_bps: Option<u32>,
        new_penalty_bps: Option<u32>,
    ) -> (r: Result<StakingTier, StakingError>)
        requires
            old(self).wf(),
        ensures
            final(self).wf(),
            r is Ok <==> old(self).update_tier_error(
                caller,
                tier_id,
                new_min_stake_amount,
                new_lock_duration_seconds,
                new_reward_multiplier_bps,
                new_penalty_bps,
            ) is None,
            r matches Err(e) ==> old(self).update_tier_error(
                caller,
                tier_id,
                new_min_stake_amount,
                new_lock_duration_seconds,
                new_reward_multiplier_bps,
                new_penalty_bps,
            ) == Some(e),
            r is Err ==> *final(self) == *old(self),
            r is Ok && old(self).weights_consistent() && (new_reward_multiplier_bps is None
                || new_reward_multiplier_bps == Some(old(self).tier_at(tier_id).reward_multiplier_bps))
                ==> final(self).weights_consistent(),
            r matches Ok(t) ==> {
                let old_t = old(self).tier_at(tier_id);
                &&& t == (StakingTier {
                    name: match new_name {
                        Some(n) => n,
                        None => old_t.name,
                    },
                    min_stake_amount: match new_min_stake_amount {
                        Some(a) => a,
                        None => old_t.min_stake_amount,
                    },
                    lock_duration_seconds: match new_lock_duration_seconds {
                        Some(d) => d,
                        None => old_t.lock_duration_seconds,
                    },
                    reward_multiplier_bps: match new_reward_multiplier_bps {
                        Some(m) => m,
                        None => old_t.reward_multiplier_bps,
                    },
                    penalty_bps: match new_penalty_bps {
                        Some(p) => p,
                        None => old_t.penalty_bps,
                    },
                    ..old_t
                })
                &&& final(self).tiers@ == old(self).tiers@.update(tier_id - 1, t)
                &&& *final(self) == (Staking { tiers: final(self).tiers, ..*old(self) })
            },
    {
        self.assert_admin(caller)?;
        let mut tier = self.load_tier(tier_id)?;
        if !tier.active {
            return Err(StakingError::TierNotActive);
        }
        if let Some(amount) = new_min_stake_amount {
            if amount <= 0 {
                return Err(StakingError::NonPositiveMinStake);
            }
        }
        if let Some(duration) = new_lock_duration_seconds {
            if duration == 0 {
                return Err(StakingError::ZeroLockDuration);
            }
        }
        if let Some(multiplier) = new_reward_multiplier_bps {
            if multiplier == 0 {
                return Err(StakingError::ZeroMultiplier);
            }
        }
        if let Some(penalty) = new_penalty_bps {
            if penalty > MAX_PENALTY_BPS {
                return Err(StakingError::PenaltyTooHigh);
            }
        }
        if let Some(name) = new_name {
            tier.name = name;
        }
        if let Some(amount) = new_min_stake_amount {
            tier.min_stake_amount = amount;
        }
        if let Some(duration) = new_lock_duration_seconds {
            tier.lock_duration_seconds = duration;
        }
        if let Some(multiplier) = new_reward_multiplier_bps {
            tier.reward_multiplier_bps = multiplier;
        }
        if let Some(penalty) = new_penalty_bps {
            tier.penalty_bps = penalty;
        }
        let result = tier.duplicate();
        self.tiers.set((tier_id - 1) as usize, tier);
        proof {
            if old(self).weights_consistent() && (new_reward_multiplier_bps is None || new_reward_multiplier_bps == Some(
                old(self).tier_at(tier_id).reward_multiplier_bps,
            )) {
                assert forall|i: int|
                    0 <= i < old(self).stakes@.len() && (#[trigger] old(self).stakes@[i]).active
                        implies self.tiers@[old(self).stakes@[i].tier_id - 1].reward_multiplier_bps
                        == old(self).tiers@[old(self).stakes@[i].tier_id - 1].reward_multiplier_bps by {
                    assert(1 <= old(self).stakes@[i].tier_id <= old(self).tiers@.len());
                }
                lemma_tier_change_keeps_weights(*old(self), *self);
            }
        }
        Ok(result)
    }

    /// Why `deactivate_tier` refuses, if it does.
    pub open spec fn deactivate_tier_error(&self, caller: AccountId, tier_id: u32) -> Option<StakingError> {
        if self.admin_error(caller) is Some {
            self.admin_error(caller)
        } else if self.tier_error(tier_id) is Some {
            self.tier_error(tier_id)
        } else if !self.tier_at(tier_id).active {
            Some(StakingError::TierAlreadyInactive)
        } else {
            None
        }
    }

    /// Closes an active tier to new stakes (admin only).
    pub fn deactivate_tier(&mut self, caller: AccountId, tier_id: u32) -> (r: Result<(), StakingError>)
        requires
            old(self).wf(),
        ensures
            final(self).wf(),
            r is Ok <==> old(self).deactivate_tier_error(caller, tier_id) is None,
            r matches Err(e) ==> old(self).deactivate_tier_error(caller, tier_id) == Some(e),
            r is Err ==> *final(self) == *old(self),
            r is Ok && old(self).weights_consistent() ==> final(self).weights_consistent(),
            r is Ok ==> {
                &&& final(self).tiers@ == old(self).tiers@.update(
                    tier_id - 1,
                    StakingTier { active: false, ..old(self).tier_at(tier_id) },
                )
                &&& *final(self) == (Staking { tiers: final(self).tiers, ..*old(self) })
            },
    {
        self.assert_admin(caller)?;
        let mut tier = self.load_tier(tier_id)?;
        if !tier.active {
            return Err(StakingError::TierAlreadyInactive);
        }
        tier.active = false;
        self.tiers.set((tier_id - 1) as usize, tier);
        assert(forall|i: int| 0 <= i < self.tiers@.len() && i != tier_id - 1 ==> self.tiers@[i] == old(self).tiers@[i]);
        proof {
            if old(self).weights_consistent() {
                assert forall|i: int|
                    0 <= i < old(self).stakes@.len() && (#[trigger] old(self).stakes@[i]).active
                        implies self.tiers@[old(self).stakes@[i].tier_id - 1].reward_multiplier_bps
                        == old(self).tiers@[old(self).stakes@[i].tier_id - 1].reward_multiplier_bps by {
                    assert(1 <= old(self).stakes@[i].tier_id <= old(self).tiers@.len());
                }
                lemma_tier_change_keeps_weights(*old(self), *self);
            }
        }
        Ok(())
    }
}



impl Staking {
    /// The failure, if any, of bringing the reward index up to `now`.
    pub open spec fn pool_error(&self, now: u64) -> Option<StakingError> {
        match self.pool_check(now) {
            Err(e) => Some(e),
            Ok(_) => None,
        }
    }

    /// The reward index as it would stand at `now`, computed without
    /// touching state.
    fn settled_rpt(&self, now: u64) -> (r: Result<i128, StakingError>)
        requires
            self.wf(),
        ensures
            r is Ok <==> self.pool_check(now) is Ok,
            r matches Err(e) ==> self.pool_check(now) == Err::<(), StakingError>(e),
            r matches Ok(v) ==> v == self.accrued_rpt(now) && v >= self.reward_per_token_stored,
    {
        if now <= self.last_reward_time || self.total_weighted_stake <= 0 {
            return Ok(self.reward_per_token_stored);
        }
        let elapsed = now - self.last_reward_time;
        let emitted = match self.reward_rate_per_second.checked_mul(elapsed as i128) {
            Some(v) => v,
            None => return Err(StakingError::RewardIncrementOverflow),
        };
        let scaled = match emitted.checked_mul(PRECISION_FACTOR) {
            Some(v) => v,
            None => return Err(StakingError::RewardPrecisionOverflow),
        };
        proof {
            assert(emitted >= 0) by (nonlinear_arith)
                requires
                    emitted == self.reward_rate_per_second * elapsed,
                    self.reward_rate_per_second >= 0,
                    elapsed > 0,
            ;
            lemma_div_nonneg(scaled as int, self.total_weighted_stake as int);
        }
        let increment = div_pos(scaled, self.total_weighted_stake);
        match self.reward_per_token_stored.checked_add(increment) {
            Some(v) => Ok(v),
            None => Err(StakingError::RewardPerTokenOverflow),
        }
    }

    /// Records a settled reward index at `now`.
    fn commit_pool(&mut self, now: u64, rpt: i128)
        requires
            old(self).wf(),
            old(self).pool_check(now) is Ok,
            rpt == old(self).accrued_rpt(now),
            rpt >= old(self).reward_per_token_stored,
        ensures
            *final(self) == old(self).pool_updated(now),
            final(self).wf(),
    {
        if now > self.last_reward_time {
            self.reward_per_token_stored = rpt;
            self.last_reward_time = now;
        }
    }

    /// Why `stake` refuses, if it does.
    pub open spec fn new_stake_error(&self, amount: i128, tier_id: u32, now: u64) -> Option<StakingError> {
        let t = self.tier_at(tier_id);
        let w = weight_of(amount as int, t.reward_multiplier_bps as int);
        if self.paused {
            Some(StakingError::StakingPaused)
        } else if amount <= 0 {
            Some(StakingError::NonPositiveAmount)
        } else if self.tier_error(tier_id) is Some {
            self.tier_error(tier_id)
        } else if !t.active {
            Some(StakingError::TierNotActive)
        } else if amount < t.min_stake_amount {
            Some(StakingError::BelowTierMinimum)
        } else if self.pool_error(now) is Some {
            self.pool_error(now)
        } else if now + t.lock_duration_seconds > u64::MAX {
            Some(StakingError::LockEndOverflow)
        } else if self.stakes@.len() + 1 > u64::MAX {
            Some(StakingError::StakeIdOverflow)
        } else if !in_i128(self.total_staked + amount) {
            Some(StakingError::TotalStakedOverflow)
        } else if !in_i128(amount * t.reward_multiplier_bps) {
            Some(StakingError::WeightOverflow)
        } else if !in_i128(self.total_weighted_stake + w) {
            Some(StakingError::TotalWeightedOverflow)
        } else if self.reward_token is None {
            Some(StakingError::NotInitialized)
        } else if self.reentrancy_lock {
            Some(StakingError::ReentrantCall)
        } else {
            None
        }
    }

    /// Opens a position of `amount` in tier `tier_id` at time `now`.  The
    /// pool is settled first; the position starts at the settled reward
    /// index.  On success the re-entrancy lock is held until the returned
    /// transfer (from the user to `contract_address`) has been carried out
    /// and `exit_non_reentrant` called.
    pub fn stake(&mut self, user: AccountId, amount: i128, tier_id: u32, now: u64, contract_address: AccountId) -> (r:
        Result<(StakeResult, TokenTransfer), StakingError>)
        requires
            old(self).wf(),
        ensures
            final(self).wf(),
            r is Ok <==> old(self).new_stake_error(amount, tier_id, now) is None,
            r matches Err(e) ==> old(self).new_stake_error(amount, tier_id, now) == Some(e),
            r is Err ==> *final(self) == *old(self),
            r is Ok && old(self).weights_consistent() ==> final(self).weights_consistent(),
            r matches Ok((res, transfer)) ==> final(self).unstake_rewards(res.stake_id, now) == 0,
            r matches Ok((res, transfer)) ==> {
                let t = old(self).tier_at(tier_id);
                let s1 = old(self).pool_updated(now);
                let pos = StakePosition {
                    stake_id: (old(self).stakes@.len() + 1) as u64,
                    user,
                    amount,
                    tier_id,
                    stake_time: now,
                    lock_end_time: (now + t.lock_duration_seconds) as u64,
                    reward_per_token_paid: s1.reward_per_token_stored,
                    active: true,
                };
                &&& res == (StakeResult {
                    stake_id: pos.stake_id,
                    amount,
                    tier_id,
                    lock_end_time: pos.lock_end_time,
                })
                &&& transfer == (TokenTransfer {
                    token: old(self).reward_token.unwrap(),
                    from: user,
                    to: contract_address,
                    amount,
                })
                &&& final(self).stakes@ == old(self).stakes@.push(pos)
                &&& *final(self) == (Staking {
                    stakes: final(self).stakes,
                    total_staked: (old(self).total_staked + amount) as i128,
                    total_weighted_stake: (old(self).total_weighted_stake + weight_of(
                        amount as int,
                        t.reward_multiplier_bps as int,
                    )) as i128,
                    reentrancy_lock: true,
                    ..s1
                })
            },
    {
        if self.paused {
            return Err(StakingError::StakingPaused);
        }
        if amount <= 0 {
            return Err(StakingError::NonPositiveAmount);
        }
        let tier = self.load_tier(tier_id)?;
        if !tier.active {
            return Err(StakingError::TierNotActive);
        }
        if amount < tier.min_stake_amount {
            return Err(StakingError::BelowTierMinimum);
        }
        let rpt = self.settled_rpt(now)?;
        let lock_end_time = match now.checked_add(tier.lock_duration_seconds) {
            Some(v) => v,
            None => return Err(StakingError::LockEndOverflow),
        };
        let count = self.stakes.len() as u64;
        let stake_id = match count.checked_add(1) {
            Some(v) => v,
            None => return Err(StakingError::StakeIdOverflow),
        };
        let new_total = match self.total_staked.checked_add(amount) {
            Some(v) => v,
            None => return Err(StakingError::TotalStakedOverflow),
        };
        let product = match amount.checked_mul(tier.reward_multiplier_bps as i128) {
            Some(v) => v,
            None => return Err(StakingError::WeightOverflow),
        };
        let user_weight = div_pos(product, BPS_DENOMINATOR);
        let new_weighted = match self.total_weighted_stake.checked_add(user_weight) {
            Some(v) => v,
            None => return Err(StakingError::TotalWeightedOverflow),
        };
        let token = match self.reward_token {
            Some(t) => t,
            None => return Err(StakingError::NotInitialized),
        };
        if self.reentrancy_lock {
            return Err(StakingError::ReentrantCall);
        }
        self.commit_pool(now, rpt);
        let position = StakePosition {
            stake_id,
            user,
            amount,
            tier_id,
            stake_time: now,
            lock_end_time,
            reward_per_token_paid: rpt,
            active: true,
        };
        proof {
            lemma_sum_active_push(self.stakes@, position);
        }
        self.stakes.push(position);
        self.total_staked = new_total;
        self.total_weighted_stake = new_weighted;
        self.reentrancy_lock = true;
        proof {
            if old(self).weights_consistent() {
                lemma_stake_keeps_weights(*old(self), *self, position);
            }
            assert(self.stake_at(stake_id) == position);
            assert(self.tier_at(tier_id) == old(self).tier_at(tier_id));
            lemma_fresh_position_earns_nothing(*self, position, tier.reward_multiplier_bps, now);
        }
        let transfer = TokenTransfer { token, from: user, to: contract_address, amount };
        Ok((StakeResult { stake_id, amount, tier_id, lock_end_time }, transfer))
    }

    /// Takes the re-entrancy lock; refused while it is held.
    pub fn enter_non_reentrant(&mut self) -> (r: Result<(), StakingError>)
        requires
            old(self).wf(),
        ensures
            final(self).wf(),
            r is Ok <==> !old(self).reentrancy_lock,
            r matches Err(e) ==> e == StakingError::ReentrantCall,
            r is Err ==> *final(self) == *old(self),
            r is Ok ==> *final(self) == (Staking { reentrancy_lock: true, ..*old(self) }),
    {
        if self.reentrancy_lock {
            return Err(StakingError::ReentrantCall);
        }
        self.reentrancy_lock = true;
        Ok(())
    }

    /// Releases the re-entrancy lock once the host has carried out the
    /// transfers of a `stake` or `unstake`.
    pub fn exit_non_reentrant(&mut self)
        requires
            old(self).wf(),
        ensures
            final(self).wf(),
            *final(self) == (Staking { reentrancy_lock: false, ..*old(self) }),
    {
        self.reentrancy_lock = false;
    }
}


/// The transfers that return principal and rewards to a user.
pub open spec fn payout_transfers(
    token: AccountId,
    contract_address: AccountId,
    user: AccountId,
    principal: int,
    rewards: int,
) -> Seq<TokenTransfer> {
    let first = if principal > 0 {
        seq![TokenTransfer { token, from: contract_address, to: user, amount: principal as i128 }]
    } else {
        Seq::<TokenTransfer>::empty()
    };
    if rewards > 0 {
        first.push(TokenTransfer { token, from: contract_address, to: user, amount: rewards as i128 })
    } else {
        first
    }
}

impl Staking {
    /// The rewards `unstake` pays out for stake `stake_id` at `now`.
    pub open spec fn unstake_rewards(&self, stake_id: u64, now: u64) -> int {
        let p = self.stake_at(stake_id);
        match self.pending_check(p, self.tier_at(p.tier_id).reward_multiplier_bps, now) {
            Ok(v) => v,
            Err(_) => 0,
        }
    }

    /// The penalty `unstake` charges for stake `stake_id` at `now`.
    pub open spec fn unstake_penalty(&self, stake_id: u64, now: u64) -> int {
        let p = self.stake_at(stake_id);
        if now < p.lock_end_time {
            penalty_of(p.amount as int, self.tier_at(p.tier_id).penalty_bps as int)
        } else {
            0
        }
    }

    /// Why `unstake` refuses, if it does.
    pub open spec fn unstake_error(&self, user: AccountId, stake_id: u64, now: u64) -> Option<StakingError> {
        let p = self.stake_at(stake_id);
        let t = self.tier_at(p.tier_id);
        let pending = self.unstake_rewards(stake_id, now);
        let penalty = self.unstake_penalty(stake_id, now);
        let principal = p.amount - penalty;
        let w = weight_of(p.amount as int, t.reward_multiplier_bps as int);
        if self.stake_error(stake_id) is Some {
            self.stake_error(stake_id)
        } else if p.user != user {
            Some(StakingError::NotStaker)
        } else if !p.active {
            Some(StakingError::StakeNotActive)
        } else if self.tier_error(p.tier_id) is Some {
            self.tier_error(p.tier_id)
        } else if self.pending_check(p, t.reward_multiplier_bps, now) matches Err(e) {
            self.pending_error(p, t.reward_multiplier_bps, now)
        } else if self.pool_error(now) is Some {
            self.pool_error(now)
        } else if now < p.lock_end_time && t.penalty_bps != 0 && !in_i128(p.amount * t.penalty_bps) {
            Some(StakingError::PenaltyOverflow)
        } else if !in_i128(principal) {
            Some(StakingError::PenaltyExceedsPrincipal)
        } else if !in_i128(principal + pending) {
            Some(StakingError::TotalReturnedOverflow)
        } else if !in_i128(self.total_staked - p.amount) {
            Some(StakingError::TotalStakedUnderflow)
        } else if !in_i128(p.amount * t.reward_multiplier_bps) {
            Some(StakingError::WeightOverflow)
        } else if !in_i128(self.total_weighted_stake - w) {
            Some(StakingError::TotalWeightedUnderflow)
        } else if pending > 0 && !in_i128(self.total_rewards_distributed + pending) {
            Some(StakingError::TotalRewardsOverflow)
        } else if self.reward_token is None {
            Some(StakingError::NotInitialized)
        } else if self.reentrancy_lock {
            Some(StakingError::ReentrantCall)
        } else {
            None
        }
    }

    /// The failure, if any, of computing a position's rewards.
    pub open spec fn pending_error(&self, p: StakePosition, multiplier_bps: u32, now: u64) -> Option<StakingError> {
        match self.pending_check(p, multiplier_bps, now) {
            Err(e) => Some(e),
            Ok(_) => None,
        }
    }

    /// Closes position `stake_id` of `user` at `now`: pays back the amount,
    /// less the tier's penalty while the lock still runs, together with the
    /// rewards earned so far.  On success the re-entrancy lock is held until
    /// the returned transfers (from `contract_address` to the user) have
    /// been carried out and `exit_non_reentrant` called.
    pub fn unstake(&mut self, user: AccountId, stake_id: u64, now: u64, contract_address: AccountId) -> (r: Result<
        (UnstakeResult, Vec<TokenTransfer>),
        StakingError,
    >)
        requires
            old(self).wf(),
        ensures
            final(self).wf(),
            r is Ok <==> old(self).unstake_error(user, stake_id, now) is None,
            r matches Err(e) ==> old(self).unstake_error(user, stake_id, now) == Some(e),
            r is Err ==> *final(self) == *old(self),
            r is Ok && old(self).weights_consistent() ==> final(self).weights_consistent(),
            r matches Ok((res, transfers)) ==> {
                let p = old(self).stake_at(stake_id);
                let t = old(self).tier_at(p.tier_id);
                let pending = old(self).unstake_rewards(stake_id, now);
                let penalty = old(self).unstake_penalty(stake_id, now);
                let principal = p.amount - penalty;
                let s1 = old(self).pool_updated(now);
                &&& res == (UnstakeResult {
                    stake_id,
                    principal_returned: principal as i128,
                    rewards_claimed: pending as i128,
                    penalty_amount: penalty as i128,
                    total_returned: (principal + pending) as i128,
                })
                &&& transfers@ == payout_transfers(
                    old(self).reward_token.unwrap(),
                    contract_address,
                    user,
                    principal,
                    pending,
                )
                &&& final(self).stakes@ == old(self).stakes@.update(
                    stake_id - 1,
                    StakePosition { active: false, ..p },
                )
                &&& *final(self) == (Staking {
                    stakes: final(self).stakes,
                    total_staked: (old(self).total_staked - p.amount) as i128,
                    total_weighted_stake: (old(self).total_weighted_stake - weight_of(
                        p.amount as int,
                        t.reward_multiplier_bps as int,
                    )) as i128,
                    total_rewards_distributed: if pending > 0 {
                        (old(self).total_rewards_distributed + pending) as i128
                    } else {
                        old(self).total_rewards_distributed
                    },
                    reentrancy_lock: true,
                    ..s1
                })
            },
    {
        let position = self.load_stake(stake_id)?;
        assert(1 <= stake_id <= self.stakes@.len());
        assert(position == self.stakes@[stake_id - 1]);
        assert(self.stakes@.len() == self.stakes.len());
        let idx: usize = (stake_id - 1) as usize;
        assert(idx == stake_id - 1);
        if position.user != user {
            return Err(StakingError::NotStaker);
        }
        if !position.active {
            return Err(StakingError::StakeNotActive);
        }
        let tier = self.load_tier(position.tier_id)?;
        let pending_rewards = self.calculate_pending_rewards_static(&position, tier.reward_multiplier_bps, now)?;
        let rpt = self.settled_rpt(now)?;
        let (penalty_amount, principal_returned) = if now < position.lock_end_time {
            let penalty = if tier.penalty_bps == 0 {
                0
            } else {
                match position.amount.checked_mul(tier.penalty_bps as i128) {
                    Some(v) => div_pos(v, BPS_DENOMINATOR),
                    None => return Err(StakingError::PenaltyOverflow),
                }
            };
            let net = match position.amount.checked_sub(penalty) {
                Some(v) => v,
                None => return Err(StakingError::PenaltyExceedsPrincipal),
            };
            (penalty, net)
        } else {
            (0, position.amount)
        };
        let total_returned = match principal_returned.checked_add(pending_rewards) {
            Some(v) => v,
            None => return Err(StakingError::TotalReturnedOverflow),
        };
        let new_total = match self.total_staked.checked_sub(position.amount) {
            Some(v) => v,
            None => return Err(StakingError::TotalStakedUnderflow),
        };
        let product = match position.amount.checked_mul(tier.reward_multiplier_bps as i128) {
            Some(v) => v,
            None => return Err(StakingError::WeightOverflow),
        };
        let user_weight = div_pos(product, BPS_DENOMINATOR);
        let new_weighted = match self.total_weighted_stake.checked_sub(user_weight) {
            Some(v) => v,
            None => return Err(StakingError::TotalWeightedUnderflow),
        };
        let new_rewards = if pending_rewards > 0 {
            match self.total_rewards_distributed.checked_add(pending_rewards) {
                Some(v) => v,
                None => return Err(StakingError::TotalRewardsOverflow),
            }
        } else {
            self.total_rewards_distributed
        };
        let token = match self.reward_token {
            Some(t) => t,
            None => return Err(StakingError::NotInitialized),
        };
        if self.reentrancy_lock {
            return Err(StakingError::ReentrantCall);
        }
        let ghost pre = *self;
        self.commit_pool(now, rpt);
        assert(self.stakes@ == pre.stakes@);
        let closed = StakePosition { active: false, ..position };
        proof {
            lemma_sum_active_deactivate(self.stakes@, stake_id - 1, closed);
        }
        self.stakes.set(idx, closed);
        self.total_staked = new_total;
        self.total_weighted_stake = new_weighted;
        self.total_rewards_distributed = new_rewards;
        self.reentrancy_lock = true;
        proof {
            if old(self).weights_consistent() {
                lemma_unstake_keeps_weights(*old(self), *self, stake_id);
            }
        }
        let mut transfers: Vec<TokenTransfer> = Vec::new();
        if principal_returned > 0 {
            transfers.push(TokenTransfer { token, from: contract_address, to: user, amount: principal_returned });
        }
        if pending_rewards > 0 {
            transfers.push(TokenTransfer { token, from: contract_address, to: user, amount: pending_rewards });
        }
        let result = UnstakeResult {
            stake_id,
            principal_returned,
            rewards_claimed: pending_rewards,
            penalty_amount,
            total_returned,
        };
        Ok((result, transfers))
    }
}


/// The positions of a sequence that belong to `user`, in order.
pub open spec fn positions_of(s: Seq<StakePosition>, user: AccountId) -> Seq<StakePosition> {
    s.filter(|p: StakePosition| p.user == user)
}

impl Staking {
    /// The admin account.
    pub fn get_admin(&self) -> (r: Result<AccountId, StakingError>)
        ensures
            r == (match self.admin {
                Some(a) => Ok(a),
                None => Err(StakingError::NotInitialized),
            }),
    {
        match self.admin {
            Some(a) => Ok(a),
            None => Err(StakingError::NotInitialized),
        }
    }

    /// The token that is staked and paid out.
    pub fn get_reward_token(&self) -> (r: Result<AccountId, StakingError>)
        ensures
            r == (match self.reward_token {
                Some(a) => Ok(a),
                None => Err(StakingError::NotInitialized),
            }),
    {
        match self.reward_token {
            Some(a) => Ok(a),
            None => Err(StakingError::NotInitialized),
        }
    }

    pub fn is_paused(&self) -> (r: bool)
        ensures
            r == self.paused,
    {
        self.paused
    }

    pub fn get_reward_rate(&self) -> (r: i128)
        ensures
            r == self.reward_rate_per_second,
    {
        self.reward_rate_per_second
    }

    pub fn get_total_staked(&self) -> (r: i128)
        ensures
            r == self.total_staked,
    {
        self.total_staked
    }

    pub fn get_total_rewards_distributed(&self) -> (r: i128)
        ensures
            r == self.total_rewards_distributed,
    {
        self.total_rewards_distributed
    }

    pub fn get_last_reward_time(&self) -> (r: u64)
        ensures
            r == self.last_reward_time,
    {
        self.last_reward_time
    }

    /// The tier that `tier_id` names.
    pub fn get_tier(&self, tier_id: u32) -> (r: Result<StakingTier, StakingError>)
        ensures
            r is Ok <==> self.tier_error(tier_id) is None,
            r matches Err(e) ==> self.tier_error(tier_id) == Some(e),
            r matches Ok(t) ==> t == self.tier_at(tier_id),
    {
        self.load_tier(tier_id)
    }

    /// The ids of all tiers ever added, in order: `1, 2, ..`.
    pub fn get_tier_ids(&self) -> (r: Vec<u32>)
        requires
            self.wf(),
        ensures
            r@.len() == self.tiers@.len(),
            forall|i: int| 0 <= i < r@.len() ==> #[trigger] r@[i] == i + 1,
    {
        let mut ids: Vec<u32> = Vec::new();
        let n = self.tiers.len();
        let mut i: usize = 0;
        while i < n
            invariant
                n == self.tiers@.len(),
                n <= MAX_TIERS,
                i <= n,
                ids@.len() == i,
                forall|k: int| 0 <= k < i ==> #[trigger] ids@[k] == k + 1,
            decreases n - i,
        {
            ids.push((i + 1) as u32);
            i = i + 1;
        }
        ids
    }

    /// The position that `stake_id` names.
    pub fn get_stake(&self, stake_id: u64) -> (r: Result<StakePosition, StakingError>)
        ensures
            r is Ok <==> self.stake_error(stake_id) is None,
            r matches Err(e) ==> self.stake_error(stake_id) == Some(e),
            r matches Ok(p) ==> p == self.stake_at(stake_id),
    {
        self.load_stake(stake_id)
    }

    /// All positions `user` ever opened, in the order of their ids.
    pub fn get_user_stakes(&self, user: AccountId) -> (r: Vec<StakePosition>)
        ensures
            r@ == positions_of(self.stakes@, user),
    {
        let mut out: Vec<StakePosition> = Vec::new();
        let mut i: usize = 0;
        while i < self.stakes.len()
            invariant
                i <= self.stakes@.len(),
                out@ == positions_of(self.stakes@.take(i as int), user),
            decreases self.stakes@.len() - i,
        {
            let p = self.stakes[i];
            proof {
                reveal_with_fuel(Seq::filter, 1);
                assert(self.stakes@.take(i + 1).drop_last() =~= self.stakes@.take(i as int));
            }
            if p.user == user {
                out.push(p);
            }
            i = i + 1;
        }
        assert(self.stakes@.take(self.stakes@.len() as int) =~= self.stakes@);
        out
    }

    /// Why `get_pending_rewards` refuses, if it does.
    pub open spec fn pending_query_error(&self, stake_id: u64, now: u64) -> Option<StakingError> {
        let p = self.stake_at(stake_id);
        if self.stake_error(stake_id) is Some {
            self.stake_error(stake_id)
        } else if !p.active {
            None
        } else if self.tier_error(p.tier_id) is Some {
            self.tier_error(p.tier_id)
        } else {
            self.pending_error(p, self.tier_at(p.tier_id).reward_multiplier_bps, now)
        }
    }

    /// The rewards stake `stake_id` would collect at `now`; zero once it
    /// is closed.
    pub fn get_pending_rewards(&self, stake_id: u64, now: u64) -> (r: Result<i128, StakingError>)
        requires
            self.wf(),
        ensures
            r is Ok <==> self.pending_query_error(stake_id, now) is None,
            r matches Err(e) ==> self.pending_query_error(stake_id, now) == Some(e),
            r matches Ok(v) ==> v == (if self.stake_at(stake_id).active {
                self.unstake_rewards(stake_id, now)
            } else {
                0
            }),
    {
        let position = self.load_stake(stake_id)?;
        if !position.active {
            return Ok(0);
        }
        let tier = self.load_tier(position.tier_id)?;
        self.calculate_pending_rewards_static(&position, tier.reward_multiplier_bps, now)
    }

    /// The number of positions ever opened.
    pub fn get_stake_counter(&self) -> (r: u64)
        requires
            self.stakes@.len() <= u64::MAX,
        ensures
            r == self.stakes@.len(),
    {
        self.stakes.len() as u64
    }
}

/// The reward index never goes down: settling the pool at any time leaves
/// it at least where it was.
pub proof fn lemma_reward_index_monotone(s: Staking, now: u64)
    requires
        s.wf(),
        s.pool_check(now) is Ok,
    ensures
        s.pool_updated(now).reward_per_token_stored >= s.reward_per_token_stored,
        s.pool_updated(now).last_reward_time >= s.last_reward_time,
{
    if s.pool_accrues(now) {
        assert(s.pool_emitted(now) >= 0) by (nonlinear_arith)
            requires
                s.reward_rate_per_second >= 0,
                now > s.last_reward_time,
                s.pool_emitted(now) == s.reward_rate_per_second * (now - s.last_reward_time),
        ;
        lemma_div_nonneg(s.pool_emitted(now) * PRECISION_FACTOR, s.total_weighted_stake as int);
    }
}

/// A penalty of at most 100% never exceeds the principal and is never
/// negative, so an early exit always returns a non-negative principal.
pub proof fn lemma_penalty_within_principal(amount: int, penalty_bps: int)
    requires
        amount >= 0,
        0 <= penalty_bps <= MAX_PENALTY_BPS,
    ensures
        0 <= penalty_of(amount, penalty_bps) <= amount,
{
    if penalty_bps != 0 {
        assert(0 <= amount * penalty_bps <= amount * 10000) by (nonlinear_arith)
            requires
                amount >= 0,
                0 <= penalty_bps <= 10000,
        ;
        lemma_div_nonneg(amount * penalty_bps, 10000);
        vstd::arithmetic::div_mod::lemma_div_is_ordered(amount * penalty_bps, amount * 10000, 10000);
        vstd::arithmetic::div_mod::lemma_div_by_multiple(amount, 10000);
    }
}

/// Once its lock has ended a position is closed without penalty.
pub proof fn lemma_no_penalty_after_lock(s: Staking, stake_id: u64, now: u64)
    requires
        now >= s.stake_at(stake_id).lock_end_time,
    ensures
        s.unstake_penalty(stake_id, now) == 0,
{
}

/// The rewards a position has earned are never negative.
pub proof fn lemma_pending_rewards_nonneg(s: Staking, stake_id: u64, now: u64)
    requires
        s.wf(),
        s.stake_error(stake_id) is None,
        s.pending_check(s.stake_at(stake_id), s.tier_at(s.stake_at(stake_id).tier_id).reward_multiplier_bps, now) is Ok,
    ensures
        s.unstake_rewards(stake_id, now) >= 0,
{
    let p = s.stake_at(stake_id);
    let m = s.tier_at(p.tier_id).reward_multiplier_bps;
    if p.active && s.total_weighted_stake > 0 {
        lemma_reward_index_monotone(s, now);
        if s.pool_accrues(now) {
            assert(s.accrued_rpt(now) >= s.reward_per_token_stored);
        }
        let w = weight_of(p.amount as int, m as int);
        assert(p.amount * m >= 0) by (nonlinear_arith)
            requires
                p.amount > 0,
                m > 0,
        ;
        lemma_div_nonneg(p.amount * m, 10000);
        let diff = s.accrued_rpt(now) - p.reward_per_token_paid;
        assert(diff * w >= 0) by (nonlinear_arith)
            requires
                diff >= 0,
                w >= 0,
        ;
        lemma_div_nonneg(diff * w, PRECISION_FACTOR as int);
    }
}

/// The total staked is the sum of the active positions, and so never
/// negative.
pub proof fn lemma_total_staked_nonneg(s: Staking)
    requires
        s.wf(),
    ensures
        s.total_staked >= 0,
{
    lemma_sum_active_nonneg(s.stakes@);
}

proof fn lemma_sum_active_nonneg(s: Seq<StakePosition>)
    requires
        forall|i: int| 0 <= i < s.len() ==> (#[trigger] s[i]).amount > 0,
    ensures
        sum_active(s) >= 0,
    decreases s.len(),
{
    if s.len() > 0 {
        lemma_sum_active_nonneg(s.drop_last());
    }
}

impl Staking {
    /// Whether the pool's total weight is the summed weight of the active
    /// positions under the tiers' current multipliers.
    pub open spec fn weights_consistent(&self) -> bool {
        self.total_weighted_stake == weight_sum(self.stakes@, self.tiers@)
    }
}

/// Opening a position keeps the pool's total weight equal to the summed
/// weight of the active positions: `after` is `before` with the position
/// added, as `stake` states it.
pub proof fn lemma_stake_keeps_weights(before: Staking, after: Staking, p: StakePosition)
    requires
        before.weights_consistent(),
        p.active,
        after.tiers@ == before.tiers@,
        after.stakes@ == before.stakes@.push(p),
        after.total_weighted_stake == before.total_weighted_stake + weight_of(
            p.amount as int,
            before.tiers@[p.tier_id - 1].reward_multiplier_bps as int,
        ),
    ensures
        after.weights_consistent(),
{
    assert(after.stakes@.drop_last() =~= before.stakes@);
}

/// Closing a position keeps the pool's total weight equal to the summed
/// weight of the active positions: `after` is `before` with position
/// `stake_id` made inactive and its weight taken off, as `unstake` states
/// it.
pub proof fn lemma_unstake_keeps_weights(before: Staking, after: Staking, stake_id: u64)
    requires
        before.weights_consistent(),
        1 <= stake_id <= before.stakes@.len(),
        before.stakes@[stake_id - 1].active,
        after.tiers@ == before.tiers@,
        after.stakes@ == before.stakes@.update(
            stake_id - 1,
            StakePosition { active: false, ..before.stakes@[stake_id - 1] },
        ),
        after.total_weighted_stake == before.total_weighted_stake - weight_of(
            before.stakes@[stake_id - 1].amount as int,
            before.tiers@[before.stakes@[stake_id - 1].tier_id - 1].reward_multiplier_bps as int,
        ),
    ensures
        after.weights_consistent(),
{
    lemma_weight_sum_deactivate(
        before.stakes@,
        before.tiers@,
        stake_id - 1,
        StakePosition { active: false, ..before.stakes@[stake_id - 1] },
    );
}

/// Changing the tiers keeps the pool's total weight consistent as long as
/// no active position's tier changes its multiplier: so adding a tier,
/// deactivating one, or updating one without touching its multiplier (or
/// one no active position is in) keeps it.
pub proof fn lemma_tier_change_keeps_weights(before: Staking, after: Staking)
    requires
        before.weights_consistent(),
        after.stakes@ == before.stakes@,
        after.total_weighted_stake == before.total_weighted_stake,
        forall|i: int|
            0 <= i < before.stakes@.len() && (#[trigger] before.stakes@[i]).active
                ==> after.tiers@[before.stakes@[i].tier_id - 1].reward_multiplier_bps
                == before.tiers@[before.stakes@[i].tier_id - 1].reward_multiplier_bps,
    ensures
        after.weights_consistent(),
{
    lemma_weight_sum_same_multipliers(before.stakes@, after.tiers@, before.tiers@);
}

/// A position opened at the current reward index has earned nothing until
/// the index moves: where the pool is settled up to `now` (its clock is at
/// `now` or later) and the position's recorded index is the pool's, its
/// pending reward at `now` is zero.
pub proof fn lemma_fresh_position_earns_nothing(s: Staking, p: StakePosition, multiplier_bps: u32, now: u64)
    requires
        s.last_reward_time >= now,
        p.reward_per_token_paid == s.reward_per_token_stored,
        in_i128(p.amount * multiplier_bps),
    ensures
        s.pending_check(p, multiplier_bps, now) == Ok::<int, StakingError>(0),
{
    let w = weight_of(p.amount as int, multiplier_bps as int);
    assert(0 * w == 0) by (nonlinear_arith);
}

/// Pending rewards grow with the index only from where the position
/// joined: with the pool settled at `now`, a position whose recorded index
/// is `d` below the pool's earns `d` times its weight, scaled down by
/// `PRECISION_FACTOR` and rounded toward zero.
pub proof fn lemma_pending_counts_from_entry(s: Staking, p: StakePosition, multiplier_bps: u32, now: u64, d: int)
    requires
        p.active,
        s.total_weighted_stake > 0,
        s.last_reward_time >= now,
        p.reward_per_token_paid == s.reward_per_token_stored - d,
        in_i128(p.amount * multiplier_bps),
        in_i128(d),
        in_i128(d * weight_of(p.amount as int, multiplier_bps as int)),
    ensures
        s.pending_check(p, multiplier_bps, now) == Ok::<int, StakingError>(
            trunc_div(d * weight_of(p.amount as int, multiplier_bps as int), PRECISION_FACTOR as int),
        ),
{
}

} // verus!

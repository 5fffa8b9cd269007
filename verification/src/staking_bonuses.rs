//! NFT staking with duration-tiered rewards in several reward tokens.
//!
//! Stakers lock NFTs of whitelisted collections.  Rewards accrue per day at
//! the collection's base rate, scaled by the best tier the stake's age
//! reaches, and are split evenly over the registered reward tokens.
//! Unstaking goes through a cooldown; an emergency withdrawal skips it and
//! forfeits the rewards.
//!
//! The base reward of a period (rate times elapsed days) is computed by the
//! host in floating point and passed in as `base_rewards`.

use vstd::prelude::*;
use crate::arith::{trunc_div, in_i128, div_pos};
use crate::kv::KeyedStore;
use crate::AccountId;

verus! {

/// Seconds in a day.
pub const SECONDS_PER_DAY: u64 = 86400;

/// The cooldown before unstaking completes when none has been set: 7 days.
pub const DEFAULT_COOLDOWN_PERIOD: u64 = 604800;

/// Why a staking-bonuses entry point refused to act.
#[derive(Clone, Copy, Debug, PartialEq, Eq, Structural)]
pub enum ContractError {
    AlreadyInitialized,
    Unauthorized,
    InvalidAmount,
    StakeNotFound,
    StakeLocked,
    OverflowError,
    CollectionNotWhitelisted,
    NftAlreadyStaked,
    CooldownNotElapsed,
    InsufficientRewardBalance,
    InvalidTierConfig,
    RewardTokenNotSupported,
    EmergencyWithdrawalAlreadyUsed,
    InvalidNftStandard,
    NftTransferFailed,
    RewardCalculationFailed,
}

/// The NFT standards a collection may follow.
#[derive(Clone, Copy, Debug, PartialEq, Eq, Structural)]
pub enum NftStandard {
    /// One token per id.
    ERC721,
    /// Several copies per id.
    ERC1155,
}

/// A duration-based reward tier.
#[derive(Clone, Copy, Debug, PartialEq, Eq, Structural)]
pub struct RewardTier {
    /// Seconds a stake must have lasted to qualify.
    pub min_duration: u64,
    /// Multiplier in basis points of 100 (100 = 1x, 125 = 1.25x).
    pub reward_multiplier: u32,
}

/// A collection's staking configuration.
pub struct CollectionConfig {
    pub standard: NftStandard,
    /// Reward per day, in the smallest token unit.
    pub base_reward_rate: i128,
    pub is_whitelisted: bool,
    pub tiers: Vec<RewardTier>,
}

/// A reward token's allocation.
#[derive(Clone, Copy, Debug, PartialEq, Eq, Structural)]
pub struct RewardTokenConfig {
    pub is_enabled: bool,
    pub total_allocated: i128,
    pub total_distributed: i128,
}

/// A staked NFT.
pub struct NftStakeInfo {
    pub collection: AccountId,
    pub token_id: u64,
    /// Copies staked: always 1 for ERC721.
    pub amount: i128,
    pub staker: AccountId,
    pub start_timestamp: u64,
    pub last_claim_timestamp: u64,
    /// Accrued, unclaimed rewards per reward token.
    pub unclaimed_rewards: KeyedStore<u64, i128>,
    pub in_cooldown: bool,
    pub cooldown_start: u64,
    pub emergency_withdrawn: bool,
}

/// Global statistics.
pub struct StakingStats {
    pub total_nfts_staked: u64,
    pub total_stakers: u64,
    pub total_rewards_distributed: KeyedStore<u64, i128>,
    pub collections_staked: Vec<AccountId>,
}

/// A token movement that the host must carry out.
#[derive(Clone, Copy, Debug, PartialEq, Eq, Structural)]
pub struct TokenTransfer {
    pub token: AccountId,
    pub from: AccountId,
    pub to: AccountId,
    pub amount: i128,
}

/// Whether tiers are listed with strictly increasing positive durations and
/// multipliers of at least 1x.
pub open spec fn tiers_valid(tiers: Seq<RewardTier>) -> bool {
    &&& forall|i: int| 0 <= i < tiers.len() ==> (#[trigger] tiers[i]).reward_multiplier >= 100
    &&& tiers.len() > 0 ==> tiers[0].min_duration > 0
    &&& forall|i: int| 1 <= i < tiers.len() ==> (#[trigger] tiers[i]).min_duration > tiers[i - 1].min_duration
}

/// The best multiplier among the tiers a stake of `duration` seconds
/// reaches, never below 1x (100).
pub open spec fn tier_multiplier(tiers: Seq<RewardTier>, duration: u64) -> u32
    decreases tiers.len(),
{
    if tiers.len() == 0 {
        100
    } else {
        let rest = tier_multiplier(tiers.drop_last(), duration);
        let t = tiers.last();
        if duration >= t.min_duration && t.reward_multiplier > rest {
            t.reward_multiplier
        } else {
            rest
        }
    }
}

/// A stake never earns less than 1x, and staying longer never lowers its
/// multiplier: for every list of tiers, the multiplier reached after `d1`
/// seconds is at most the one reached after `d2 >= d1` seconds.
pub proof fn lemma_tier_multiplier_monotone(tiers: Seq<RewardTier>, d1: u64, d2: u64)
    requires
        d1 <= d2,
    ensures
        100 <= tier_multiplier(tiers, d1) <= tier_multiplier(tiers, d2),
    decreases tiers.len(),
{
    if tiers.len() > 0 {
        lemma_tier_multiplier_monotone(tiers.drop_last(), d1, d2);
    }
}

/// The amount passed to the NFT contract's `transfer`: the token id times
/// the number of copies, saturating at the bounds of `i128`.
pub open spec fn nft_transfer_amount(token_id: u64, amount: i128) -> i128 {
    let p = token_id * amount;
    if p > i128::MAX {
        i128::MAX
    } else if p < i128::MIN {
        i128::MIN
    } else {
        p as i128
    }
}

fn saturating_nft_amount(token_id: u64, amount: i128) -> (r: i128)
    ensures
        r == nft_transfer_amount(token_id, amount),
{
    match (token_id as i128).checked_mul(amount) {
        Some(v) => v,
        None => {
            proof {
                assert(token_id * amount > i128::MAX || token_id * amount < i128::MIN);
                if amount > 0 {
                    assert(token_id * amount >= 0) by (nonlinear_arith)
                        requires
                            amount > 0,
                    ;
                } else {
                    assert(token_id * amount <= 0) by (nonlinear_arith)
                        requires
                            amount <= 0,
                    ;
                }
            }
            if amount > 0 {
                i128::MAX
            } else {
                i128::MIN
            }
        },
    }
}

/// The best multiplier among the tiers a stake of `total_duration` seconds
/// reaches, never below 1x (100).
pub fn calculate_tier_multiplier(tiers: &Vec<RewardTier>, total_duration: u64) -> (r: u32)
    ensures
        r == tier_multiplier(tiers@, total_duration),
{
    let mut max_multiplier: u32 = 100;
    let mut i: usize = 0;
    while i < tiers.len()
        invariant
            i <= tiers@.len(),
            max_multiplier == tier_multiplier(tiers@.take(i as int), total_duration),
        decreases tiers@.len() - i,
    {
        let t = tiers[i];
        assert(tiers@.take(i + 1).drop_last() =~= tiers@.take(i as int));
        if total_duration >= t.min_duration && t.reward_multiplier > max_multiplier {
            max_multiplier = t.reward_multiplier;
        }
        i = i + 1;
    }
    assert(tiers@.take(tiers@.len() as int) =~= tiers@);
    max_multiplier
}

/// Whether the tiers are well formed.
pub fn validate_tiers(tiers: &Vec<RewardTier>) -> (r: bool)
    ensures
        r == tiers_valid(tiers@),
{
    let mut prev_min: u64 = 0;
    let mut i: usize = 0;
    while i < tiers.len()
        invariant
            i <= tiers@.len(),
            forall|k: int| 0 <= k < i ==> (#[trigger] tiers@[k]).reward_multiplier >= 100,
            i > 0 ==> tiers@[0].min_duration > 0,
            forall|k: int| 1 <= k < i ==> (#[trigger] tiers@[k]).min_duration > tiers@[k - 1].min_duration,
            prev_min == if i == 0 {
                0
            } else {
                tiers@[i - 1].min_duration
            },
        decreases tiers@.len() - i,
    {
        let t = tiers[i];
        if t.min_duration <= prev_min || t.reward_multiplier < 100 {
            assert(!tiers_valid(tiers@)) by {
                if t.reward_multiplier < 100 {
                    assert(tiers@[i as int].reward_multiplier < 100);
                } else if i > 0 {
                    assert(tiers@[i as int].min_duration <= tiers@[i - 1].min_duration);
                }
            }
            return false;
        }
        prev_min = t.min_duration;
        i = i + 1;
    }
    true
}


impl CollectionConfig {
    pub fn duplicate(&self) -> (r: CollectionConfig)
        ensures
            r.standard == self.standard,
            r.base_reward_rate == self.base_reward_rate,
            r.is_whitelisted == self.is_whitelisted,
            r.tiers@ == self.tiers@,
    {
        CollectionConfig {
            standard: self.standard,
            base_reward_rate: self.base_reward_rate,
            is_whitelisted: self.is_whitelisted,
            tiers: self.tiers.clone(),
        }
    }
}

/// A copy of a store of amounts.
pub fn copy_amounts(m: &KeyedStore<u64, i128>) -> (r: KeyedStore<u64, i128>)
    ensures
        r.entries@ == m.entries@,
{
    let mut entries: Vec<(u64, i128)> = Vec::new();
    let mut i: usize = 0;
    while i < m.entries.len()
        invariant
            i <= m.entries@.len(),
            entries@ == m.entries@.take(i as int),
        decreases m.entries@.len() - i,
    {
        let (k, v) = m.entries[i];
        entries.push((k, v));
        assert(m.entries@.take(i + 1) =~= m.entries@.take(i as int).push(m.entries@[i as int]));
        i = i + 1;
    }
    assert(m.entries@.take(m.entries@.len() as int) =~= m.entries@);
    KeyedStore { entries }
}

impl NftStakeInfo {
    pub fn duplicate(&self) -> (r: NftStakeInfo)
        ensures
            r == (NftStakeInfo { unclaimed_rewards: r.unclaimed_rewards, ..*self }),
            r.unclaimed_rewards.entries@ == self.unclaimed_rewards.entries@,
    {
        NftStakeInfo {
            collection: self.collection,
            token_id: self.token_id,
            amount: self.amount,
            staker: self.staker,
            start_timestamp: self.start_timestamp,
            last_claim_timestamp: self.last_claim_timestamp,
            unclaimed_rewards: copy_amounts(&self.unclaimed_rewards),
            in_cooldown: self.in_cooldown,
            cooldown_start: self.cooldown_start,
            emergency_withdrawn: self.emergency_withdrawn,
        }
    }
}

/// The contract's state.
pub struct StakingBonuses {
    pub admin: Option<AccountId>,
    pub stats: StakingStats,
    pub collections: KeyedStore<u64, CollectionConfig>,
    /// The registered reward tokens, in the order they were first added.
    pub reward_tokens: KeyedStore<u64, RewardTokenConfig>,
    /// Stakes keyed by (staker, collection, token id).
    pub stakes: KeyedStore<(u64, u64, u64), NftStakeInfo>,
    /// Each staker's (collection, token id) pairs, in staking order.
    pub user_stakes: KeyedStore<u64, Vec<(u64, u64)>>,
    pub cooldown_period: Option<u64>,
    /// The last time each user's cached queries were invalidated.
    pub cache_invalidation: KeyedStore<u64, u64>,
}

impl StakingBonuses {
    pub open spec fn wf(&self) -> bool {
        &&& self.stats.total_rewards_distributed.wf()
        &&& self.collections.wf()
        &&& self.reward_tokens.wf()
        &&& self.stakes.wf()
        &&& self.user_stakes.wf()
        &&& self.cache_invalidation.wf()
        &&& self.admin.is_none() ==> self.collections.entries@.len() == 0 && self.reward_tokens.entries@.len() == 0
        &&& forall|k: (u64, u64, u64)| #[trigger] self.stakes.view().contains_key(k) ==> self.stakes.view()[k].unclaimed_rewards.wf()
        &&& forall|k: (u64, u64, u64), t: u64|
            #[trigger] self.stakes.view().contains_key(k) && #[trigger] self.stakes.view()[k].unclaimed_rewards.view().contains_key(t)
                ==> self.reward_tokens.view().contains_key(t)
        &&& self.stakes_counted()
        &&& self.lists_match_stakes()
    }

    /// Nothing is staked before initialisation, and the statistics count
    /// every stake.
    pub open spec fn stakes_counted(&self) -> bool {
        &&& self.admin.is_none() ==> self.stakes.entries@.len() == 0
        &&& self.stats.total_nfts_staked == self.stakes.entries@.len()
    }

    /// The two bookkeeping invariants carry over to a state with the same
    /// stakers' lists, the same stake keys and the same count.
    proof fn lemma_bookkeeping_frame(&self, b: StakingBonuses)
        requires
            self.stakes_counted(),
            self.lists_match_stakes(),
            b.user_stakes == self.user_stakes,
            b.stakes.view().dom() == self.stakes.view().dom(),
            b.stakes.entries@.len() == self.stakes.entries@.len(),
            b.stats.total_nfts_staked == self.stats.total_nfts_staked,
            b.admin.is_none() ==> self.admin.is_none(),
        ensures
            b.stakes_counted(),
            b.lists_match_stakes(),
    {
        assert forall|u: AccountId, c: u64, t: u64|
            #![trigger b.stakes_of(u).contains((c, t))]
            #![trigger b.stakes.view().contains_key((u, c, t))]
            b.stakes_of(u).contains((c, t)) <==> b.stakes.view().contains_key((u, c, t)) by {
            assert(b.stakes_of(u) == self.stakes_of(u));
            assert(b.stakes.view().contains_key((u, c, t)) == self.stakes.view().dom().contains((u, c, t)));
            assert(self.stakes_of(u).contains((c, t)) <==> self.stakes.view().contains_key((u, c, t)));
        }
        assert forall|u: AccountId| (#[trigger] b.stakes_of(u)).no_duplicates() by {
            assert(b.stakes_of(u) == self.stakes_of(u));
            assert(self.stakes_of(u).no_duplicates());
        }
    }

    /// The bookkeeping invariants carry over when a new stake is added and
    /// appended to its staker's list.
    proof fn lemma_bookkeeping_after_stake(&self, b: StakingBonuses, staker: AccountId, collection: u64, token_id: u64)
        requires
            self.stakes_counted(),
            self.lists_match_stakes(),
            !self.stakes.view().contains_key((staker, collection, token_id)),
            b.admin.is_some(),
            b.stakes.view().dom() == self.stakes.view().dom().insert((staker, collection, token_id)),
            b.stakes.entries@.len() == self.stakes.entries@.len() + 1,
            b.stats.total_nfts_staked == self.stats.total_nfts_staked + 1,
            b.stakes_of(staker) == self.stakes_of(staker).push((collection, token_id)),
            forall|u: AccountId| u != staker ==> #[trigger] b.stakes_of(u) == self.stakes_of(u),
        ensures
            b.stakes_counted(),
            b.lists_match_stakes(),
    {
        let old_list = self.stakes_of(staker);
        assert(!old_list.contains((collection, token_id)));
        assert forall|u: AccountId, c: u64, t: u64|
            #![trigger b.stakes_of(u).contains((c, t))]
            #![trigger b.stakes.view().contains_key((u, c, t))]
            b.stakes_of(u).contains((c, t)) <==> b.stakes.view().contains_key((u, c, t)) by {
            assert(b.stakes.view().contains_key((u, c, t)) == (self.stakes.view().dom().contains((u, c, t)) || (u, c, t)
                == (staker, collection, token_id)));
            assert(self.stakes_of(u).contains((c, t)) <==> self.stakes.view().contains_key((u, c, t)));
            if u == staker {
                let l = b.stakes_of(u);
                if (c, t) == (collection, token_id) {
                    assert(l[old_list.len() as int] == (c, t));
                } else {
                    if l.contains((c, t)) {
                        let i = choose|i: int| 0 <= i < l.len() && l[i] == (c, t);
                        assert(i < old_list.len());
                        assert(old_list[i] == (c, t));
                    }
                    if old_list.contains((c, t)) {
                        let i = choose|i: int| 0 <= i < old_list.len() && old_list[i] == (c, t);
                        assert(l[i] == (c, t));
                    }
                }
            }
        }
        assert forall|u: AccountId| (#[trigger] b.stakes_of(u)).no_duplicates() by {
            assert(self.stakes_of(u).no_duplicates());
            if u == staker {
                let l = b.stakes_of(u);
                assert forall|i: int, j: int| 0 <= i < l.len() && 0 <= j < l.len() && i != j implies l[i] != l[j] by {
                    if i == old_list.len() {
                        assert(old_list[j] == l[j]);
                    } else if j == old_list.len() {
                        assert(old_list[i] == l[i]);
                    } else {
                        assert(old_list[i] == l[i] && old_list[j] == l[j]);
                    }
                }
            }
        }
    }

    /// The bookkeeping invariants carry over when a stake is removed and
    /// its pair taken off its staker's list, which then no longer holds it.
    proof fn lemma_bookkeeping_after_unstake(&self, b: StakingBonuses, staker: AccountId, collection: u64, token_id: u64)
        requires
            self.stakes_counted(),
            self.lists_match_stakes(),
            self.stakes.view().contains_key((staker, collection, token_id)),
            self.stakes.has((staker, collection, token_id)),
            b.admin == self.admin,
            b.stakes.view().dom() == self.stakes.view().dom().remove((staker, collection, token_id)),
            b.stakes.entries@.len() == self.stakes.entries@.len() - 1,
            b.stats.total_nfts_staked == if self.stats.total_nfts_staked > 0 {
                (self.stats.total_nfts_staked - 1) as u64
            } else {
                0
            },
            b.stakes_of(staker) == remove_first(self.stakes_of(staker), (collection, token_id)),
            forall|u: AccountId| u != staker ==> #[trigger] b.stakes_of(u) == self.stakes_of(u),
        ensures
            b.stakes_counted(),
            b.lists_match_stakes(),
            !b.stakes_of(staker).contains((collection, token_id)),
    {
        let i = choose|i: int| 0 <= i < self.stakes.entries@.len() && (#[trigger] self.stakes.entries@[i]).0 == (
        staker, collection, token_id);
        assert(self.stakes.entries@.len() > 0);
        let old_list = self.stakes_of(staker);
        assert(old_list.no_duplicates());
        lemma_remove_first_unique(old_list, (collection, token_id));
        assert forall|u: AccountId, c: u64, t: u64|
            #![trigger b.stakes_of(u).contains((c, t))]
            #![trigger b.stakes.view().contains_key((u, c, t))]
            b.stakes_of(u).contains((c, t)) <==> b.stakes.view().contains_key((u, c, t)) by {
            assert(b.stakes.view().contains_key((u, c, t)) == (self.stakes.view().dom().contains((u, c, t)) && (u, c, t)
                != (staker, collection, token_id)));
            assert(self.stakes_of(u).contains((c, t)) <==> self.stakes.view().contains_key((u, c, t)));
        }
        assert forall|u: AccountId| (#[trigger] b.stakes_of(u)).no_duplicates() by {
            assert(self.stakes_of(u).no_duplicates());
        }
    }

    /// Each staker's list holds exactly the (collection, token id) pairs
    /// they have staked, each once.
    pub open spec fn lists_match_stakes(&self) -> bool {
        &&& forall|u: AccountId, c: u64, t: u64|
            #![trigger self.stakes_of(u).contains((c, t))]
            #![trigger self.stakes.view().contains_key((u, c, t))]
            self.stakes_of(u).contains((c, t)) <==> self.stakes.view().contains_key((u, c, t))
        &&& forall|u: AccountId| (#[trigger] self.stakes_of(u)).no_duplicates()
    }

    /// Whether paying out the positive amounts of `m` overflows a
    /// distribution total.
    pub open spec fn claim_overflows(&self, m: Map<u64, i128>) -> bool {
        exists|t: u64|
            #[trigger] m.contains_key(t) && m[t] > 0 && (!in_i128(self.reward_tokens.view()[t].total_distributed + m[t])
                || !in_i128(amount_or_zero(self.stats.total_rewards_distributed.view(), t) + m[t]))
    }

    proof fn lemma_claim_error_seq(&self, s: Seq<(u64, i128)>)
        requires
            forall|j: int| 0 <= j < s.len() ==> self.reward_tokens.view().contains_key((#[trigger] s[j]).0),
        ensures
            self.claim_error(s) == if exists|j: int|
                0 <= j < s.len() && (#[trigger] s[j]).1 > 0 && (!in_i128(
                    self.reward_tokens.view()[s[j].0].total_distributed + s[j].1,
                ) || !in_i128(amount_or_zero(self.stats.total_rewards_distributed.view(), s[j].0) + s[j].1)) {
                Some(ContractError::OverflowError)
            } else {
                None
            },
        decreases s.len(),
    {
        if s.len() > 0 {
            let t = s.drop_last();
            assert forall|j: int| 0 <= j < t.len() implies self.reward_tokens.view().contains_key((#[trigger] t[j]).0) by {
                assert(t[j] == s[j]);
            }
            self.lemma_claim_error_seq(t);
            assert(self.reward_tokens.view().contains_key(s[s.len() - 1].0));
            if exists|j: int|
                0 <= j < t.len() && (#[trigger] t[j]).1 > 0 && (!in_i128(
                    self.reward_tokens.view()[t[j].0].total_distributed + t[j].1,
                ) || !in_i128(amount_or_zero(self.stats.total_rewards_distributed.view(), t[j].0) + t[j].1)) {
                let j = choose|j: int|
                    0 <= j < t.len() && (#[trigger] t[j]).1 > 0 && (!in_i128(
                        self.reward_tokens.view()[t[j].0].total_distributed + t[j].1,
                    ) || !in_i128(amount_or_zero(self.stats.total_rewards_distributed.view(), t[j].0) + t[j].1));
                assert(s[j] == t[j]);
            } else {
                if exists|j: int|
                    0 <= j < s.len() && (#[trigger] s[j]).1 > 0 && (!in_i128(
                        self.reward_tokens.view()[s[j].0].total_distributed + s[j].1,
                    ) || !in_i128(amount_or_zero(self.stats.total_rewards_distributed.view(), s[j].0) + s[j].1)) {
                    let j = choose|j: int|
                        0 <= j < s.len() && (#[trigger] s[j]).1 > 0 && (!in_i128(
                            self.reward_tokens.view()[s[j].0].total_distributed + s[j].1,
                        ) || !in_i128(amount_or_zero(self.stats.total_rewards_distributed.view(), s[j].0) + s[j].1));
                    if j < t.len() {
                        assert(t[j] == s[j]);
                    }
                }
            }
        }
    }

    /// Under the invariant, paying out a stake's rewards fails exactly when
    /// a distribution total would overflow.
    pub proof fn lemma_claim_error_registered(&self, store: KeyedStore<u64, i128>)
        requires
            store.wf(),
            forall|t: u64| #[trigger] store.view().contains_key(t) ==> self.reward_tokens.view().contains_key(t),
        ensures
            self.claim_error(store.entries@) == if self.claim_overflows(store.view()) {
                Some(ContractError::OverflowError)
            } else {
                None
            },
    {
        let s = store.entries@;
        assert forall|j: int| 0 <= j < s.len() implies self.reward_tokens.view().contains_key((#[trigger] s[j]).0) by {
            store.lemma_entry_in_view(j);
        }
        self.lemma_claim_error_seq(s);
        let m = store.view();
        if self.claim_overflows(m) {
            let t = choose|t: u64|
                #[trigger] m.contains_key(t) && m[t] > 0 && (!in_i128(self.reward_tokens.view()[t].total_distributed + m[t])
                    || !in_i128(amount_or_zero(self.stats.total_rewards_distributed.view(), t) + m[t]));
            store.lemma_view_has_entry(t);
            let j = store.pos(t);
            store.lemma_entry_in_view(j);
            assert(s[j].1 > 0);
        }
        if exists|j: int|
            0 <= j < s.len() && (#[trigger] s[j]).1 > 0 && (!in_i128(
                self.reward_tokens.view()[s[j].0].total_distributed + s[j].1,
            ) || !in_i128(amount_or_zero(self.stats.total_rewards_distributed.view(), s[j].0) + s[j].1)) {
            let j = choose|j: int|
                0 <= j < s.len() && (#[trigger] s[j]).1 > 0 && (!in_i128(
                    self.reward_tokens.view()[s[j].0].total_distributed + s[j].1,
                ) || !in_i128(amount_or_zero(self.stats.total_rewards_distributed.view(), s[j].0) + s[j].1));
            store.lemma_entry_in_view(j);
            assert(m.contains_key(s[j].0));
        }
    }

    /// The cooldown in force.
    pub open spec fn cooldown(&self) -> u64 {
        match self.cooldown_period {
            Some(c) => c,
            None => DEFAULT_COOLDOWN_PERIOD,
        }
    }

    /// Why `caller` may not act as the admin, if it may not.
    pub open spec fn admin_error(&self, caller: AccountId) -> Option<ContractError> {
        match self.admin {
            None => Some(ContractError::Unauthorized),
            Some(a) => if a != caller {
                Some(ContractError::Unauthorized)
            } else {
                None
            },
        }
    }

    /// An empty, uninitialised contract.
    pub fn new() -> (s: StakingBonuses)
        ensures
            s.wf(),
            s.admin.is_none(),
            s.stats.total_nfts_staked == 0,
            s.stats.total_stakers == 0,
            s.stats.collections_staked@.len() == 0,
            s.stats.total_rewards_distributed.view() == Map::<u64, i128>::empty(),
            s.collections.view() == Map::<u64, CollectionConfig>::empty(),
            s.reward_tokens.view() == Map::<u64, RewardTokenConfig>::empty(),
            s.reward_tokens.keys().len() == 0,
            s.stakes.view() == Map::<(u64, u64, u64), NftStakeInfo>::empty(),
            s.user_stakes.view() == Map::<u64, Vec<(u64, u64)>>::empty(),
            s.cooldown_period.is_none(),
            s.cache_invalidation.view() == Map::<u64, u64>::empty(),
    {
        StakingBonuses {
            admin: None,
            stats: StakingStats {
                total_nfts_staked: 0,
                total_stakers: 0,
                total_rewards_distributed: KeyedStore::new(),
                collections_staked: Vec::new(),
            },
            collections: KeyedStore::new(),
            reward_tokens: KeyedStore::new(),
            stakes: KeyedStore::new(),
            user_stakes: KeyedStore::new(),
            cooldown_period: None,
            cache_invalidation: KeyedStore::new(),
        }
    }

    fn check_admin(&self, caller: AccountId) -> (r: Result<(), ContractError>)
        ensures
            r is Ok <==> self.admin_error(caller) is None,
            r matches Err(e) ==> self.admin_error(caller) == Some(e),
    {
        match self.admin {
            None => Err(ContractError::Unauthorized),
            Some(a) => if a != caller {
                Err(ContractError::Unauthorized)
            } else {
                Ok(())
            },
        }
    }

    /// Sets the admin and empty statistics.
    pub fn init_contract(&mut self, admin_addr: AccountId) -> (r: Result<(), ContractError>)
        requires
            old(self).wf(),
        ensures
            final(self).wf(),
            r is Ok <==> old(self).admin.is_none(),
            r matches Err(e) ==> e == ContractError::AlreadyInitialized,
            r is Err ==> *final(self) == *old(self),
            r is Ok ==> {
                &&& final(self).admin == Some(admin_addr)
                &&& final(self).stats.total_nfts_staked == 0
                &&& final(self).stats.total_stakers == 0
                &&& final(self).stats.total_rewards_distributed.view() == Map::<u64, i128>::empty()
                &&& final(self).stats.collections_staked@.len() == 0
                &&& *final(self) == (StakingBonuses {
                    admin: final(self).admin,
                    stats: final(self).stats,
                    ..*old(self)
                })
            },
    {
        if self.admin.is_some() {
            return Err(ContractError::AlreadyInitialized);
        }
        self.admin = Some(admin_addr);
        self.stats = StakingStats {
            total_nfts_staked: 0,
            total_stakers: 0,
            total_rewards_distributed: KeyedStore::new(),
            collections_staked: Vec::new(),
        };
        proof {
            old(self).lemma_bookkeeping_frame(*self);
        }
        Ok(())
    }

    /// Stores a collection's configuration (admin only) after checking its
    /// tiers, and lists the collection in the statistics the first time.
    pub fn add_whitelisted_collection(&mut self, caller: AccountId, collection_address: AccountId, config: CollectionConfig) -> (r:
        Result<(), ContractError>)
        requires
            old(self).wf(),
        ensures
            final(self).wf(),
            r is Ok <==> old(self).admin_error(caller) is None && tiers_valid(config.tiers@),
            r matches Err(e) ==> e == (if old(self).admin_error(caller) is Some {
                ContractError::Unauthorized
            } else {
                ContractError::InvalidTierConfig
            }),
            r is Err ==> *final(self) == *old(self),
            r is Ok ==> {
                &&& final(self).collections.view() == old(self).collections.view().insert(collection_address, config)
                &&& final(self).stats.collections_staked@ == if old(self).stats.collections_staked@.contains(
                    collection_address,
                ) {
                    old(self).stats.collections_staked@
                } else {
                    old(self).stats.collections_staked@.push(collection_address)
                }
                &&& final(self).stats.total_nfts_staked == old(self).stats.total_nfts_staked
                &&& final(self).stats.total_stakers == old(self).stats.total_stakers
                &&& final(self).stats.total_rewards_distributed == old(self).stats.total_rewards_distributed
                &&& *final(self) == (StakingBonuses {
                    collections: final(self).collections,
                    stats: final(self).stats,
                    ..*old(self)
                })
            },
    {
        self.check_admin(caller)?;
        if !validate_tiers(&config.tiers) {
            return Err(ContractError::InvalidTierConfig);
        }
        self.collections.set(collection_address, config);
        let mut listed = false;
        let mut i: usize = 0;
        while i < self.stats.collections_staked.len()
            invariant
                i <= self.stats.collections_staked@.len(),
                listed <==> exists|k: int| 0 <= k < i && self.stats.collections_staked@[k] == collection_address,
            decreases self.stats.collections_staked@.len() - i,
        {
            if self.stats.collections_staked[i] == collection_address {
                listed = true;
            }
            i = i + 1;
        }
        if !listed {
            self.stats.collections_staked.push(collection_address);
        }
        proof {
            old(self).lemma_bookkeeping_frame(*self);
        }
        Ok(())
    }

    /// Registers a reward token or adds to its allocation (admin only);
    /// the allocation moves from the admin to `contract_address`.
    pub fn add_reward_token(&mut self, caller: AccountId, token_address: AccountId, allocation: i128, contract_address: AccountId) -> (r:
        Result<TokenTransfer, ContractError>)
        requires
            old(self).wf(),
        ensures
            final(self).wf(),
            ({
                let prev = if old(self).reward_tokens.view().contains_key(token_address) {
                    old(self).reward_tokens.view()[token_address]
                } else {
                    RewardTokenConfig { is_enabled: true, total_allocated: 0, total_distributed: 0 }
                };
                &&& r is Ok <==> old(self).admin_error(caller) is None && allocation > 0 && in_i128(
                    prev.total_allocated + allocation,
                )
                &&& r matches Err(e) ==> e == (if old(self).admin_error(caller) is Some {
                    ContractError::Unauthorized
                } else if allocation <= 0 {
                    ContractError::InvalidAmount
                } else {
                    ContractError::OverflowError
                })
                &&& r is Err ==> *final(self) == *old(self)
                &&& r matches Ok(t) ==> {
                    &&& t == (TokenTransfer { token: token_address, from: caller, to: contract_address, amount: allocation })
                    &&& final(self).reward_tokens.view() == old(self).reward_tokens.view().insert(
                        token_address,
                        RewardTokenConfig { total_allocated: (prev.total_allocated + allocation) as i128, ..prev },
                    )
                    &&& final(self).reward_tokens.keys() == if old(self).reward_tokens.view().contains_key(token_address) {
                        old(self).reward_tokens.keys()
                    } else {
                        old(self).reward_tokens.keys().push(token_address)
                    }
                    &&& *final(self) == (StakingBonuses { reward_tokens: final(self).reward_tokens, ..*old(self) })
                }
            }),
    {
        self.check_admin(caller)?;
        if allocation <= 0 {
            return Err(ContractError::InvalidAmount);
        }
        let prev = match self.reward_tokens.get(&token_address) {
            Some(c) => *c,
            None => RewardTokenConfig { is_enabled: true, total_allocated: 0, total_distributed: 0 },
        };
        let total = match prev.total_allocated.checked_add(allocation) {
            Some(v) => v,
            None => return Err(ContractError::OverflowError),
        };
        proof {
            assert(self.reward_tokens.view().contains_key(token_address) == self.reward_tokens.has(token_address));
        }
        self.reward_tokens.set(token_address, RewardTokenConfig { total_allocated: total, ..prev });
        proof {
            old(self).lemma_bookkeeping_frame(*self);
        }
        Ok(TokenTransfer { token: token_address, from: caller, to: contract_address, amount: allocation })
    }

    /// Sets the unstaking cooldown (admin only).
    pub fn set_cooldown_period(&mut self, caller: AccountId, new_cooldown: u64) -> (r: Result<(), ContractError>)
        requires
            old(self).wf(),
        ensures
            final(self).wf(),
            r is Ok <==> old(self).admin_error(caller) is None,
            r matches Err(e) ==> e == ContractError::Unauthorized,
            r is Err ==> *final(self) == *old(self),
            r is Ok ==> *final(self) == (StakingBonuses { cooldown_period: Some(new_cooldown), ..*old(self) }),
    {
        self.check_admin(caller)?;
        self.cooldown_period = Some(new_cooldown);
        proof {
            old(self).lemma_bookkeeping_frame(*self);
        }
        Ok(())
    }
}


/// How accruing rewards can fail: with one of the contract's errors, or
/// by an unchecked addition leaving `i128` (where the contract aborts).
#[derive(Clone, Copy, Debug, PartialEq, Eq, Structural)]
pub enum AccrualFailure {
    Rejected(ContractError),
    Overflow,
}

/// `a - b`, or zero when `b` exceeds `a`.
pub open spec fn saturating_diff(a: u64, b: u64) -> u64 {
    if a >= b {
        (a - b) as u64
    } else {
        0
    }
}

/// The tokens of `tokens` that `m` does not hold yet, in order.
pub open spec fn new_tokens(tokens: Seq<u64>, m: Map<u64, i128>) -> Seq<u64> {
    tokens.filter(|t: u64| !m.contains_key(t))
}

/// An amount held in a store, or zero.
pub open spec fn amount_or_zero(m: Map<u64, i128>, k: u64) -> int {
    if m.contains_key(k) {
        m[k] as int
    } else {
        0
    }
}

impl StakingBonuses {
    /// The reward a stake earns at `now` for each reward token, from the
    /// host's base reward for the elapsed period: the base reward scaled by
    /// the tier multiplier (in hundredths), split evenly over the reward
    /// tokens, each step rounded toward zero.
    pub open spec fn reward_per_token(&self, info: NftStakeInfo, now: u64, base_rewards: i128) -> int {
        let cfg = self.collections.view()[info.collection];
        let mult = tier_multiplier(cfg.tiers@, saturating_diff(now, info.start_timestamp));
        trunc_div(trunc_div(base_rewards * mult, 100), self.reward_tokens.entries@.len() as int)
    }

    /// What accruing does to a stake at `now`.
    pub open spec fn accrue_outcome(&self, info: NftStakeInfo, now: u64, base_rewards: i128) -> Result<
        Map<u64, i128>,
        AccrualFailure,
    > {
        let cfg = self.collections.view()[info.collection];
        let mult = tier_multiplier(cfg.tiers@, saturating_diff(now, info.start_timestamp));
        let per = self.reward_per_token(info, now, base_rewards);
        let old_m = info.unclaimed_rewards.view();
        if saturating_diff(now, info.last_claim_timestamp) == 0 {
            Ok(old_m)
        } else if !self.collections.view().contains_key(info.collection) {
            Err(AccrualFailure::Rejected(ContractError::CollectionNotWhitelisted))
        } else if !in_i128(base_rewards * mult) {
            Err(AccrualFailure::Rejected(ContractError::OverflowError))
        } else if self.reward_tokens.entries@.len() == 0 {
            Ok(old_m)
        } else if exists|k: u64| #[trigger] self.reward_tokens.view().contains_key(k) && !in_i128(amount_or_zero(old_m, k) + per) {
            Err(AccrualFailure::Overflow)
        } else {
            Ok(
                Map::new(
                    |k: u64| old_m.contains_key(k) || self.reward_tokens.view().contains_key(k),
                    |k: u64| if self.reward_tokens.view().contains_key(k) {
                        (amount_or_zero(old_m, k) + per) as i128
                    } else {
                        old_m[k]
                    },
                ),
            )
        }
    }

    /// Whether accruing moves the stake's last claim time to `now`.
    pub open spec fn accrual_advances(&self, info: NftStakeInfo, now: u64) -> bool {
        saturating_diff(now, info.last_claim_timestamp) != 0 && self.reward_tokens.entries@.len() != 0
    }

    /// Adds the rewards earned since the last claim to a stake, for every
    /// reward token; `base_rewards` is the collection's daily rate times
    /// the days elapsed since the last claim.  With no reward tokens the
    /// stake is left as it is.
    pub fn accrue_all_rewards(&self, stake_info: &mut NftStakeInfo, now: u64, base_rewards: i128) -> (r: Result<
        (),
        AccrualFailure,
    >)
        requires
            self.wf(),
            old(stake_info).unclaimed_rewards.wf(),
        ensures
            final(stake_info).unclaimed_rewards.wf(),
            match (r, self.accrue_outcome(*old(stake_info), now, base_rewards)) {
                (Ok(_), Ok(m)) => final(stake_info).unclaimed_rewards.view() == m,
                (Err(e), Err(f)) => e == f,
                _ => false,
            },
            r is Err ==> *final(stake_info) == *old(stake_info),
            r is Ok ==> final(stake_info).unclaimed_rewards.keys() == if self.accrual_advances(*old(stake_info), now) {
                old(stake_info).unclaimed_rewards.keys() + new_tokens(
                    self.reward_tokens.keys(),
                    old(stake_info).unclaimed_rewards.view(),
                )
            } else {
                old(stake_info).unclaimed_rewards.keys()
            },
            r is Ok ==> *final(stake_info) == (NftStakeInfo {
                unclaimed_rewards: final(stake_info).unclaimed_rewards,
                last_claim_timestamp: if self.accrual_advances(*old(stake_info), now) {
                    now
                } else {
                    old(stake_info).last_claim_timestamp
                },
                ..*old(stake_info)
            }),
    {
        let elapsed = if now >= stake_info.last_claim_timestamp {
            now - stake_info.last_claim_timestamp
        } else {
            0
        };
        if elapsed == 0 {
            return Ok(());
        }
        let cfg = match self.collections.get(&stake_info.collection) {
            Some(c) => c,
            None => return Err(AccrualFailure::Rejected(ContractError::CollectionNotWhitelisted)),
        };
        let total_duration = if now >= stake_info.start_timestamp {
            now - stake_info.start_timestamp
        } else {
            0
        };
        let mult = calculate_tier_multiplier(&cfg.tiers, total_duration);
        let scaled = match base_rewards.checked_mul(mult as i128) {
            Some(v) => v,
            None => return Err(AccrualFailure::Rejected(ContractError::OverflowError)),
        };
        let final_rewards = div_pos(scaled, 100);
        let n = self.reward_tokens.len();
        if n == 0 {
            return Ok(());
        }
        let per = div_pos(final_rewards, n as i128);
        assert(per == self.reward_per_token(*old(stake_info), now, base_rewards));
        let ghost old_m = stake_info.unclaimed_rewards.view();
        assert(saturating_diff(now, old(stake_info).last_claim_timestamp) != 0);
        assert(self.collections.view().contains_key(old(stake_info).collection));
        assert(in_i128(base_rewards * tier_multiplier(
            self.collections.view()[old(stake_info).collection].tiers@,
            saturating_diff(now, old(stake_info).start_timestamp),
        )));
        let mut i: usize = 0;
        while i < n
            invariant
                self.wf(),
                *stake_info == *old(stake_info),
                saturating_diff(now, old(stake_info).last_claim_timestamp) != 0,
                self.collections.view().contains_key(old(stake_info).collection),
                in_i128(base_rewards * tier_multiplier(
                    self.collections.view()[old(stake_info).collection].tiers@,
                    saturating_diff(now, old(stake_info).start_timestamp),
                )),
                n > 0,
                per == self.reward_per_token(*old(stake_info), now, base_rewards),
                stake_info.unclaimed_rewards.wf(),
                stake_info.unclaimed_rewards.view() == old_m,
                n == self.reward_tokens.entries@.len(),
                i <= n,
                forall|j: int| 0 <= j < i ==> in_i128(
                    amount_or_zero(old_m, (#[trigger] self.reward_tokens.entries@[j]).0) + per,
                ),
            decreases n - i,
        {
            let token = self.reward_tokens.entries[i].0;
            let current = match stake_info.unclaimed_rewards.get(&token) {
                Some(v) => *v,
                None => 0,
            };
            if current.checked_add(per).is_none() {
                proof {
                    self.reward_tokens.lemma_entry_in_view(i as int);
                    assert(self.reward_tokens.view().contains_key(token));
                }
                return Err(AccrualFailure::Overflow);
            }
            i = i + 1;
        }
        proof {
            assert forall|k: u64| #[trigger] self.reward_tokens.view().contains_key(k) implies in_i128(
                amount_or_zero(old_m, k) + per,
            ) by {
                self.reward_tokens.lemma_view_has_entry(k);
            }
        }
        let ghost old_keys = stake_info.unclaimed_rewards.keys();
        let ghost rkeys = self.reward_tokens.keys();
        let mut i: usize = 0;
        while i < n
            invariant
                self.wf(),
                stake_info.unclaimed_rewards.wf(),
                *stake_info == (NftStakeInfo { unclaimed_rewards: stake_info.unclaimed_rewards, ..*old(stake_info) }),
                old_keys == old(stake_info).unclaimed_rewards.keys(),
                old_m == old(stake_info).unclaimed_rewards.view(),
                rkeys == self.reward_tokens.keys(),
                stake_info.unclaimed_rewards.keys() == old_keys + new_tokens(rkeys.take(i as int), old_m),
                n == self.reward_tokens.entries@.len(),
                i <= n,
                forall|k: u64| #[trigger] self.reward_tokens.view().contains_key(k) ==> in_i128(
                    amount_or_zero(old_m, k) + per,
                ),
                forall|k: u64|
                    #[trigger] stake_info.unclaimed_rewards.view().contains_key(k) <==> (old_m.contains_key(k)
                        || exists|j: int| 0 <= j < i && self.reward_tokens.entries@[j].0 == k),
                forall|k: u64|
                    #[trigger] stake_info.unclaimed_rewards.view().contains_key(k) ==> stake_info.unclaimed_rewards.view()[k]
                        == if exists|j: int| 0 <= j < i && self.reward_tokens.entries@[j].0 == k {
                        (amount_or_zero(old_m, k) + per) as i128
                    } else {
                        old_m[k]
                    },
            decreases n - i,
        {
            let token = self.reward_tokens.entries[i].0;
            proof {
                self.reward_tokens.lemma_entry_in_view(i as int);
            }
            let current = match stake_info.unclaimed_rewards.get(&token) {
                Some(v) => *v,
                None => 0,
            };
            proof {
                assert(!(exists|j: int| 0 <= j < i && self.reward_tokens.entries@[j].0 == token)) by {
                    if exists|j: int| 0 <= j < i && self.reward_tokens.entries@[j].0 == token {
                        let j = choose|j: int| 0 <= j < i && self.reward_tokens.entries@[j].0 == token;
                        assert(self.reward_tokens.entries@[j].0 != self.reward_tokens.entries@[i as int].0);
                    }
                }
                assert(current == amount_or_zero(old_m, token));
            }
            proof {
                assert(stake_info.unclaimed_rewards.has(token) == old_m.contains_key(token)) by {
                    assert(stake_info.unclaimed_rewards.view().contains_key(token) == stake_info.unclaimed_rewards.has(
                        token,
                    ));
                }
                assert(rkeys[i as int] == token);
                assert(rkeys.take(i + 1) =~= rkeys.take(i as int).push(token));
                reveal_with_fuel(Seq::filter, 1);
                assert(rkeys.take(i + 1).drop_last() =~= rkeys.take(i as int));
            }
            stake_info.unclaimed_rewards.set(token, current + per);
            proof {
                assert forall|k: u64|
                    #[trigger] stake_info.unclaimed_rewards.view().contains_key(k) <==> (old_m.contains_key(k)
                        || exists|j: int| 0 <= j < i + 1 && self.reward_tokens.entries@[j].0 == k) by {
                    if k == token {
                        assert(self.reward_tokens.entries@[i as int].0 == k);
                    }
                    if exists|j: int| 0 <= j < i + 1 && self.reward_tokens.entries@[j].0 == k {
                        let j = choose|j: int| 0 <= j < i + 1 && self.reward_tokens.entries@[j].0 == k;
                        if j < i {
                            assert(exists|j2: int| 0 <= j2 < i && self.reward_tokens.entries@[j2].0 == k);
                        }
                    }
                }
                assert forall|k: u64|
                    #[trigger] stake_info.unclaimed_rewards.view().contains_key(k) implies stake_info.unclaimed_rewards.view()[k]
                        == if exists|j: int| 0 <= j < i + 1 && self.reward_tokens.entries@[j].0 == k {
                        (amount_or_zero(old_m, k) + per) as i128
                    } else {
                        old_m[k]
                    } by {
                    if k == token {
                        assert(self.reward_tokens.entries@[i as int].0 == k);
                    } else {
                        if exists|j: int| 0 <= j < i + 1 && self.reward_tokens.entries@[j].0 == k {
                            let j = choose|j: int| 0 <= j < i + 1 && self.reward_tokens.entries@[j].0 == k;
                            assert(j < i);
                            assert(exists|j2: int| 0 <= j2 < i && self.reward_tokens.entries@[j2].0 == k);
                        } else {
                            assert(!(exists|j2: int| 0 <= j2 < i && self.reward_tokens.entries@[j2].0 == k)) by {
                                if exists|j2: int| 0 <= j2 < i && self.reward_tokens.entries@[j2].0 == k {
                                    let j2 = choose|j2: int| 0 <= j2 < i && self.reward_tokens.entries@[j2].0 == k;
                                    assert(0 <= j2 < i + 1);
                                }
                            }
                        }
                    }
                }
            }
            i = i + 1;
        }
        stake_info.last_claim_timestamp = now;
        proof {
            assert(rkeys.take(n as int) =~= rkeys);
            let target = self.accrue_outcome(*old(stake_info), now, base_rewards);
            assert forall|k: u64| #[trigger] self.reward_tokens.view().contains_key(k) <==> exists|j: int|
                0 <= j < n && self.reward_tokens.entries@[j].0 == k by {
                if self.reward_tokens.view().contains_key(k) {
                    self.reward_tokens.lemma_view_has_entry(k);
                    let j = self.reward_tokens.pos(k);
                    assert(self.reward_tokens.entries@[j].0 == k);
                }
                if exists|j: int| 0 <= j < n && self.reward_tokens.entries@[j].0 == k {
                    let j = choose|j: int| 0 <= j < n && self.reward_tokens.entries@[j].0 == k;
                    self.reward_tokens.lemma_entry_in_view(j);
                }
            }
            assert(stake_info.unclaimed_rewards.view() =~= Map::new(
                |k: u64| old_m.contains_key(k) || self.reward_tokens.view().contains_key(k),
                |k: u64| if self.reward_tokens.view().contains_key(k) {
                    (amount_or_zero(old_m, k) + per) as i128
                } else {
                    old_m[k]
                },
            ));
        }
        Ok(())
    }
}


/// Whether `info` is a freshly created stake.
pub open spec fn is_new_stake(
    info: NftStakeInfo,
    staker: AccountId,
    collection: AccountId,
    token_id: u64,
    amount: i128,
    now: u64,
) -> bool {
    &&& info.collection == collection
    &&& info.token_id == token_id
    &&& info.amount == amount
    &&& info.staker == staker
    &&& info.start_timestamp == now
    &&& info.last_claim_timestamp == now
    &&& info.unclaimed_rewards.wf()
    &&& info.unclaimed_rewards.view() == Map::<u64, i128>::empty()
    &&& !info.in_cooldown
    &&& info.cooldown_start == 0
    &&& !info.emergency_withdrawn
}

impl StakingBonuses {
    /// A user's staked (collection, token id) pairs.
    pub open spec fn stakes_of(&self, user: AccountId) -> Seq<(u64, u64)> {
        if self.user_stakes.view().contains_key(user) {
            self.user_stakes.view()[user]@
        } else {
            Seq::empty()
        }
    }

    /// Why `stake_nft` refuses, if it does.
    pub open spec fn stake_nft_error(&self, staker: AccountId, collection: AccountId, token_id: u64, amount: i128) -> Option<
        ContractError,
    > {
        let cfg = self.collections.view()[collection];
        if amount <= 0 {
            Some(ContractError::InvalidAmount)
        } else if !self.collections.view().contains_key(collection) || !cfg.is_whitelisted {
            Some(ContractError::CollectionNotWhitelisted)
        } else if cfg.standard == NftStandard::ERC721 && amount != 1 {
            Some(ContractError::InvalidNftStandard)
        } else if self.stakes.view().contains_key((staker, collection, token_id)) {
            Some(ContractError::NftAlreadyStaked)
        } else if self.stats.total_nfts_staked + 1 > u64::MAX {
            Some(ContractError::OverflowError)
        } else {
            None
        }
    }

    fn read_user_stakes(&self, user: AccountId) -> (r: Vec<(u64, u64)>)
        requires
            self.wf(),
        ensures
            r@ == self.stakes_of(user),
    {
        match self.user_stakes.get(&user) {
            Some(v) => {
                let mut out: Vec<(u64, u64)> = Vec::new();
                let mut i: usize = 0;
                while i < v.len()
                    invariant
                        i <= v@.len(),
                        out@ == v@.take(i as int),
                    decreases v@.len() - i,
                {
                    let (a, b) = v[i];
                    out.push((a, b));
                    assert(v@.take(i + 1) =~= v@.take(i as int).push(v@[i as int]));
                    i = i + 1;
                }
                assert(v@.take(v@.len() as int) =~= v@);
                out
            },
            None => Vec::new(),
        }
    }

    /// Records that `user`'s cached queries are stale as of `now`.
    pub fn invalidate_query_cache(&mut self, user: AccountId, now: u64)
        requires
            old(self).wf(),
        ensures
            final(self).wf(),
            final(self).cache_invalidation.view() == old(self).cache_invalidation.view().insert(user, now),
            *final(self) == (StakingBonuses { cache_invalidation: final(self).cache_invalidation, ..*old(self) }),
    {
        self.cache_invalidation.set(user, now);
        proof {
            old(self).lemma_bookkeeping_frame(*self);
        }
    }

    /// Stakes `amount` copies of NFT `token_id` of `collection` at `now`.
    /// The returned transfer moves the NFT from the staker to
    /// `contract_address`.
    pub fn stake_nft(
        &mut self,
        staker: AccountId,
        collection: AccountId,
        token_id: u64,
        amount: i128,
        now: u64,
        contract_address: AccountId,
    ) -> (r: Result<TokenTransfer, ContractError>)
        requires
            old(self).wf(),
        ensures
            final(self).wf(),
            r is Ok <==> old(self).stake_nft_error(staker, collection, token_id, amount) is None,
            r matches Err(e) ==> old(self).stake_nft_error(staker, collection, token_id, amount) == Some(e),
            r is Err ==> *final(self) == *old(self),
            r matches Ok(t) ==> {
                let key = (staker, collection, token_id);
                &&& t == (TokenTransfer {
                    token: collection,
                    from: staker,
                    to: contract_address,
                    amount: nft_transfer_amount(token_id, amount),
                })
                &&& final(self).stakes.view().dom() == old(self).stakes.view().dom().insert(key)
                &&& forall|k: (u64, u64, u64)| #[trigger] old(self).stakes.view().contains_key(k) ==> final(self).stakes.view()[k]
                    == old(self).stakes.view()[k]
                &&& is_new_stake(final(self).stakes.view()[key], staker, collection, token_id, amount, now)
                &&& final(self).stakes_of(staker) == old(self).stakes_of(staker).push((collection, token_id))
                &&& forall|u: AccountId| u != staker ==> #[trigger] final(self).stakes_of(u) == old(self).stakes_of(u)
                &&& final(self).stats.total_nfts_staked == old(self).stats.total_nfts_staked + 1
                &&& final(self).stats.total_stakers == if old(self).stats.total_stakers == 0 {
                    1
                } else {
                    old(self).stats.total_stakers
                }
                &&& final(self).stats.total_rewards_distributed == old(self).stats.total_rewards_distributed
                &&& final(self).stats.collections_staked == old(self).stats.collections_staked
                &&& final(self).cache_invalidation.view() == old(self).cache_invalidation.view().insert(staker, now)
                &&& final(self).admin == old(self).admin
                &&& final(self).collections == old(self).collections
                &&& final(self).reward_tokens == old(self).reward_tokens
                &&& final(self).cooldown_period == old(self).cooldown_period
            },
    {
        if amount <= 0 {
            return Err(ContractError::InvalidAmount);
        }
        let (whitelisted, standard) = match self.collections.get(&collection) {
            Some(c) => (c.is_whitelisted, c.standard),
            None => return Err(ContractError::CollectionNotWhitelisted),
        };
        if !whitelisted {
            return Err(ContractError::CollectionNotWhitelisted);
        }
        if standard == NftStandard::ERC721 && amount != 1 {
            return Err(ContractError::InvalidNftStandard);
        }
        let key = (staker, collection, token_id);
        if self.stakes.get(&key).is_some() {
            return Err(ContractError::NftAlreadyStaked);
        }
        let staked = match self.stats.total_nfts_staked.checked_add(1) {
            Some(v) => v,
            None => return Err(ContractError::OverflowError),
        };
        let transfer_amount = saturating_nft_amount(token_id, amount);
        let info = NftStakeInfo {
            collection,
            token_id,
            amount,
            staker,
            start_timestamp: now,
            last_claim_timestamp: now,
            unclaimed_rewards: KeyedStore::new(),
            in_cooldown: false,
            cooldown_start: 0,
            emergency_withdrawn: false,
        };
        let mut list = self.read_user_stakes(staker);
        list.push((collection, token_id));
        proof {
            assert(self.collections.has(collection));
            let i = choose|i: int| 0 <= i < self.collections.entries@.len() && (#[trigger] self.collections.entries@[i]).0
                == collection;
            assert(self.collections.entries@.len() > 0);
        }
        self.stakes.set(key, info);
        self.user_stakes.set(staker, list);
        self.stats.total_nfts_staked = staked;
        if self.stats.total_stakers == 0 {
            self.stats.total_stakers = 1;
        }
        proof {
            assert(self.stakes.view().dom() =~= old(self).stakes.view().dom().insert(key));
            assert(self.stakes.keys().len() == self.stakes.entries@.len());
            assert(old(self).stakes.keys().len() == old(self).stakes.entries@.len());
            assert(!old(self).stakes.has(key));
            assert forall|u: AccountId| u != staker implies #[trigger] self.stakes_of(u) == old(self).stakes_of(u) by {}
            old(self).lemma_bookkeeping_after_stake(*self, staker, collection, token_id);
        }
        self.invalidate_query_cache(staker, now);
        Ok(TokenTransfer { token: collection, from: staker, to: contract_address, amount: transfer_amount })
    }
}


/// The payouts, from the contract to the staker, of the positive amounts
/// of `m`, taken in the order of `keys`.
pub open spec fn payouts(keys: Seq<u64>, m: Map<u64, i128>, contract_address: AccountId, staker: AccountId) -> Seq<
    TokenTransfer,
>
    decreases keys.len(),
{
    if keys.len() == 0 {
        Seq::empty()
    } else {
        let rest = payouts(keys.drop_last(), m, contract_address, staker);
        let k = keys.last();
        if m[k] > 0 {
            rest.push(TokenTransfer { token: k, from: contract_address, to: staker, amount: m[k] })
        } else {
            rest
        }
    }
}

/// Whether key `k` occurs among the first `i` entries.
pub open spec fn seen(s: Seq<(u64, i128)>, i: int, k: u64) -> bool {
    exists|j: int| 0 <= j < i && s[j].0 == k
}

impl StakingBonuses {
    /// Why paying out one unclaimed entry fails, if it does.
    pub open spec fn claim_entry_error(&self, e: (u64, i128)) -> Option<ContractError> {
        if e.1 <= 0 {
            None
        } else if !self.reward_tokens.view().contains_key(e.0) {
            Some(ContractError::RewardTokenNotSupported)
        } else if !in_i128(self.reward_tokens.view()[e.0].total_distributed + e.1) || !in_i128(
            amount_or_zero(self.stats.total_rewards_distributed.view(), e.0) + e.1,
        ) {
            Some(ContractError::OverflowError)
        } else {
            None
        }
    }

    /// The failure of the first entry that cannot be paid out, if any.
    pub open spec fn claim_error(&self, s: Seq<(u64, i128)>) -> Option<ContractError>
        decreases s.len(),
    {
        if s.len() == 0 {
            None
        } else {
            match self.claim_error(s.drop_last()) {
                Some(e) => Some(e),
                None => self.claim_entry_error(s.last()),
            }
        }
    }

    proof fn lemma_claim_error_prefix(&self, s: Seq<(u64, i128)>, k: int)
        requires
            0 <= k <= s.len(),
            self.claim_error(s.take(k)) is Some,
        ensures
            self.claim_error(s) == self.claim_error(s.take(k)),
        decreases s.len() - k,
    {
        if k < s.len() {
            assert(s.take(k + 1).drop_last() =~= s.take(k));
            self.lemma_claim_error_prefix(s, k + 1);
        } else {
            assert(s.take(k) =~= s);
        }
    }

    /// Pays out every positive unclaimed reward of a stake to `staker`:
    /// each is returned in the claimed map and as a transfer from
    /// `contract_address`, counted as distributed for its token and in the
    /// statistics, and reset to zero in the stake.
    pub fn claim_all_rewards_internal(
        &mut self,
        stake_info: &mut NftStakeInfo,
        staker: AccountId,
        contract_address: AccountId,
    ) -> (r: Result<(KeyedStore<u64, i128>, Vec<TokenTransfer>), ContractError>)
        requires
            old(self).wf(),
            old(stake_info).unclaimed_rewards.wf(),
        ensures
            final(self).wf(),
            final(stake_info).unclaimed_rewards.wf(),
            r is Ok <==> old(self).claim_error(old(stake_info).unclaimed_rewards.entries@) is None,
            r matches Err(e) ==> old(self).claim_error(old(stake_info).unclaimed_rewards.entries@) == Some(e),
            r is Err ==> *final(self) == *old(self) && *final(stake_info) == *old(stake_info),
            r matches Ok((claimed, transfers)) ==> {
                let old_m = old(stake_info).unclaimed_rewards.view();
                let old_rt = old(self).reward_tokens.view();
                let old_trd = old(self).stats.total_rewards_distributed.view();
                &&& claimed.wf()
                &&& claimed.view() == Map::new(|k: u64| old_m.contains_key(k) && old_m[k] > 0, |k: u64| old_m[k])
                &&& transfers@ == payouts(old(stake_info).unclaimed_rewards.keys(), old_m, contract_address, staker)
                &&& final(stake_info).unclaimed_rewards.view() == Map::new(
                    |k: u64| old_m.contains_key(k),
                    |k: u64| if old_m[k] > 0 {
                        0
                    } else {
                        old_m[k]
                    },
                )
                &&& *final(stake_info) == (NftStakeInfo {
                    unclaimed_rewards: final(stake_info).unclaimed_rewards,
                    ..*old(stake_info)
                })
                &&& final(self).reward_tokens.view() == Map::new(
                    |k: u64| old_rt.contains_key(k),
                    |k: u64| if old_m.contains_key(k) && old_m[k] > 0 {
                        RewardTokenConfig {
                            total_distributed: (old_rt[k].total_distributed + old_m[k]) as i128,
                            ..old_rt[k]
                        }
                    } else {
                        old_rt[k]
                    },
                )
                &&& final(self).stats.total_rewards_distributed.view() == Map::new(
                    |k: u64| old_trd.contains_key(k) || (old_m.contains_key(k) && old_m[k] > 0),
                    |k: u64| if old_m.contains_key(k) && old_m[k] > 0 {
                        (amount_or_zero(old_trd, k) + old_m[k]) as i128
                    } else {
                        old_trd[k]
                    },
                )
                &&& final(self).stats.total_nfts_staked == old(self).stats.total_nfts_staked
                &&& final(self).stats.total_stakers == old(self).stats.total_stakers
                &&& final(self).stats.collections_staked == old(self).stats.collections_staked
                &&& *final(self) == (StakingBonuses {
                    reward_tokens: final(self).reward_tokens,
                    stats: final(self).stats,
                    ..*old(self)
                })
            },
    {
        let ghost es = stake_info.unclaimed_rewards.entries@;
        let n = stake_info.unclaimed_rewards.entries.len();
        let mut i: usize = 0;
        while i < n
            invariant
                self.wf(),
                *self == *old(self),
                *stake_info == *old(stake_info),
                old(stake_info).unclaimed_rewards.wf(),
                es == stake_info.unclaimed_rewards.entries@,
                n == es.len(),
                i <= n,
                self.claim_error(es.take(i as int)) is None,
            decreases n - i,
        {
            let (token, amount) = stake_info.unclaimed_rewards.entries[i];
            assert(es.take(i + 1).drop_last() =~= es.take(i as int));
            assert(es.take(i + 1).last() == (token, amount));
            if amount > 0 {
                let cfg = match self.reward_tokens.get(&token) {
                    Some(c) => *c,
                    None => {
                        proof {
                            self.lemma_claim_error_prefix(es, i + 1);
                        }
                        return Err(ContractError::RewardTokenNotSupported);
                    },
                };
                let stat = match self.stats.total_rewards_distributed.get(&token) {
                    Some(v) => *v,
                    None => 0,
                };
                if cfg.total_distributed.checked_add(amount).is_none() || stat.checked_add(amount).is_none() {
                    proof {
                        self.lemma_claim_error_prefix(es, i + 1);
                    }
                    return Err(ContractError::OverflowError);
                }
            }
            i = i + 1;
        }
        assert(es.take(n as int) =~= es);
        let ghost old_m = stake_info.unclaimed_rewards.view();
        let ghost old_rt = self.reward_tokens.view();
        let ghost old_trd = self.stats.total_rewards_distributed.view();
        proof {
            assert forall|j: int| 0 <= j < n implies self.claim_entry_error(#[trigger] es[j]) is None by {
                assert(es.take(j + 1).drop_last() =~= es.take(j));
                if self.claim_error(es.take(j)) is Some {
                    self.lemma_claim_error_prefix(es, j);
                } else if self.claim_entry_error(es[j]) is Some {
                    assert(es.take(j + 1).last() == es[j]);
                    self.lemma_claim_error_prefix(es, j + 1);
                }
            }
        }
        let mut claimed: KeyedStore<u64, i128> = KeyedStore::new();
        let mut transfers: Vec<TokenTransfer> = Vec::new();
        let mut i: usize = 0;
        while i < n
            invariant
                self.wf(),
                old(self).wf(),
                stake_info.unclaimed_rewards.wf(),
                claimed.wf(),
                old(stake_info).unclaimed_rewards.wf(),
                es == old(stake_info).unclaimed_rewards.entries@,
                old_m == old(stake_info).unclaimed_rewards.view(),
                old_rt == old(self).reward_tokens.view(),
                old_trd == old(self).stats.total_rewards_distributed.view(),
                n == es.len(),
                i <= n,
                forall|j: int| 0 <= j < n ==> old(self).claim_entry_error(#[trigger] es[j]) is None,
                stake_info.unclaimed_rewards.keys() == old(stake_info).unclaimed_rewards.keys(),
                *stake_info == (NftStakeInfo { unclaimed_rewards: stake_info.unclaimed_rewards, ..*old(stake_info) }),
                *self == (StakingBonuses { reward_tokens: self.reward_tokens, stats: self.stats, ..*old(self) }),
                self.stats.total_nfts_staked == old(self).stats.total_nfts_staked,
                self.stats.total_stakers == old(self).stats.total_stakers,
                self.stats.collections_staked == old(self).stats.collections_staked,
                transfers@ == payouts(old(stake_info).unclaimed_rewards.keys().take(i as int), old_m, contract_address, staker),
                forall|k: u64| #[trigger] claimed.view().contains_key(k) <==> (seen(es, i as int, k) && old_m[k] > 0),
                forall|k: u64| #[trigger] claimed.view().contains_key(k) ==> claimed.view()[k] == old_m[k],
                forall|k: u64| #[trigger] stake_info.unclaimed_rewards.view().contains_key(k) <==> old_m.contains_key(k),
                forall|k: u64| #[trigger] stake_info.unclaimed_rewards.view().contains_key(k) ==> stake_info.unclaimed_rewards.view()[k]
                    == if seen(es, i as int, k) && old_m[k] > 0 {
                    0
                } else {
                    old_m[k]
                },
                forall|k: u64| #[trigger] self.reward_tokens.view().contains_key(k) <==> old_rt.contains_key(k),
                forall|k: u64| #[trigger] self.reward_tokens.view().contains_key(k) ==> self.reward_tokens.view()[k]
                    == if seen(es, i as int, k) && old_m[k] > 0 {
                    RewardTokenConfig {
                        total_distributed: (old_rt[k].total_distributed + old_m[k]) as i128,
                        ..old_rt[k]
                    }
                } else {
                    old_rt[k]
                },
                forall|k: u64| #[trigger] self.stats.total_rewards_distributed.view().contains_key(k) <==> (
                old_trd.contains_key(k) || (seen(es, i as int, k) && old_m[k] > 0)),
                forall|k: u64| #[trigger] self.stats.total_rewards_distributed.view().contains_key(k) ==> self.stats.total_rewards_distributed.view()[k]
                    == if seen(es, i as int, k) && old_m[k] > 0 {
                    (amount_or_zero(old_trd, k) + old_m[k]) as i128
                } else {
                    old_trd[k]
                },
            decreases n - i,
        {
            proof {
                assert(stake_info.unclaimed_rewards.keys().len() == stake_info.unclaimed_rewards.entries@.len());
                assert(old(stake_info).unclaimed_rewards.keys().len() == n);
            }
            let token = stake_info.unclaimed_rewards.entries[i].0;
            proof {
                assert(stake_info.unclaimed_rewards.keys()[i as int] == old(stake_info).unclaimed_rewards.keys()[i as int]);
                assert(token == es[i as int].0);
                old(stake_info).unclaimed_rewards.lemma_entry_in_view(i as int);
                stake_info.unclaimed_rewards.lemma_entry_in_view(i as int);
            }
            let amount = *stake_info.unclaimed_rewards.get(&token).unwrap();
            proof {
                assert(!seen(es, i as int, token)) by {
                    if seen(es, i as int, token) {
                        let j = choose|j: int| 0 <= j < i && es[j].0 == token;
                        old(stake_info).unclaimed_rewards.lemma_entry_in_view(j);
                    }
                }
                assert(es[i as int] == (token, amount));
                let ks = old(stake_info).unclaimed_rewards.keys();
                assert(ks[i as int] == token);
                assert(ks.take(i + 1).drop_last() =~= ks.take(i as int));
                assert(ks.take(i + 1).last() == token);
            }
            if amount > 0 {
                let cfg = *self.reward_tokens.get(&token).unwrap();
                let stat = match self.stats.total_rewards_distributed.get(&token) {
                    Some(v) => *v,
                    None => 0,
                };
                assert(old(self).claim_entry_error(es[i as int]) is None);
                self.reward_tokens.set(token, RewardTokenConfig { total_distributed: cfg.total_distributed + amount, ..cfg });
                self.stats.total_rewards_distributed.set(token, stat + amount);
                claimed.set(token, amount);
                stake_info.unclaimed_rewards.set(token, 0);
                transfers.push(TokenTransfer { token, from: contract_address, to: staker, amount });
            }
            proof {
                assert forall|k: u64| seen(es, i + 1, k) <==> seen(es, i as int, k) || k == token by {
                    if seen(es, i + 1, k) {
                        let j = choose|j: int| 0 <= j < i + 1 && es[j].0 == k;
                        if j < i {
                            assert(seen(es, i as int, k));
                        }
                    }
                    if seen(es, i as int, k) {
                        let j = choose|j: int| 0 <= j < i && es[j].0 == k;
                        assert(0 <= j < i + 1 && es[j].0 == k);
                    }
                    if k == token {
                        assert(es[i as int].0 == k);
                    }
                }
                old(self).lemma_bookkeeping_frame(*self);
            }
            i = i + 1;
        }
        proof {
            assert(es.take(n as int) =~= es);
            assert(old(stake_info).unclaimed_rewards.keys().take(n as int) =~= old(stake_info).unclaimed_rewards.keys());
            assert forall|k: u64| old_m.contains_key(k) implies seen(es, n as int, k) by {
                old(stake_info).unclaimed_rewards.lemma_view_has_entry(k);
            }
            assert(claimed.view() =~= Map::new(|k: u64| old_m.contains_key(k) && old_m[k] > 0, |k: u64| old_m[k]));
            assert(stake_info.unclaimed_rewards.view() =~= Map::new(
                |k: u64| old_m.contains_key(k),
                |k: u64| if old_m[k] > 0 {
                    0
                } else {
                    old_m[k]
                },
            ));
            assert(self.reward_tokens.view() =~= Map::new(
                |k: u64| old_rt.contains_key(k),
                |k: u64| if old_m.contains_key(k) && old_m[k] > 0 {
                    RewardTokenConfig {
                        total_distributed: (old_rt[k].total_distributed + old_m[k]) as i128,
                        ..old_rt[k]
                    }
                } else {
                    old_rt[k]
                },
            ));
            assert(self.stats.total_rewards_distributed.view() =~= Map::new(
                |k: u64| old_trd.contains_key(k) || (old_m.contains_key(k) && old_m[k] > 0),
                |k: u64| if old_m.contains_key(k) && old_m[k] > 0 {
                    (amount_or_zero(old_trd, k) + old_m[k]) as i128
                } else {
                    old_trd[k]
                },
            ));
        }
        Ok((claimed, transfers))
    }
}


/// The contract error that an accrual failure surfaces as.
pub open spec fn accrual_error(f: AccrualFailure) -> ContractError {
    match f {
        AccrualFailure::Rejected(e) => e,
        AccrualFailure::Overflow => ContractError::OverflowError,
    }
}

/// A sequence without the first occurrence of `x`.
pub open spec fn remove_first(s: Seq<(u64, u64)>, x: (u64, u64)) -> Seq<(u64, u64)>
    decreases s.len(),
{
    if s.len() == 0 {
        s
    } else if s[0] == x {
        s.drop_first()
    } else {
        seq![s[0]] + remove_first(s.drop_first(), x)
    }
}

proof fn lemma_remove_first_at(s: Seq<(u64, u64)>, x: (u64, u64), j: int)
    requires
        0 <= j < s.len(),
        s[j] == x,
        forall|k: int| 0 <= k < j ==> s[k] != x,
    ensures
        remove_first(s, x) == s.remove(j),
    decreases j,
{
    if j == 0 {
        assert(s.drop_first() =~= s.remove(0));
    } else {
        lemma_remove_first_at(s.drop_first(), x, j - 1);
        assert(seq![s[0]] + s.drop_first().remove(j - 1) =~= s.remove(j));
    }
}

/// In a list without repeats, dropping the first occurrence of `x` leaves
/// a list without repeats that holds everything else and not `x`.
proof fn lemma_remove_first_unique(s: Seq<(u64, u64)>, x: (u64, u64))
    requires
        s.no_duplicates(),
    ensures
        remove_first(s, x).no_duplicates(),
        forall|y: (u64, u64)| #[trigger] remove_first(s, x).contains(y) <==> (s.contains(y) && y != x),
    decreases s.len(),
{
    if s.len() == 0 {
    } else if s[0] == x {
        let r = s.drop_first();
        assert forall|y: (u64, u64)| #[trigger] r.contains(y) <==> (s.contains(y) && y != x) by {
            if r.contains(y) {
                let j = choose|j: int| 0 <= j < r.len() && r[j] == y;
                assert(s[j + 1] == y);
                assert(y != x);
            }
            if s.contains(y) && y != x {
                let j = choose|j: int| 0 <= j < s.len() && s[j] == y;
                assert(j != 0);
                assert(r[j - 1] == y);
            }
        }
    } else {
        let rest = s.drop_first();
        assert(rest.no_duplicates()) by {
            assert forall|i: int, j: int| 0 <= i < rest.len() && 0 <= j < rest.len() && i != j implies rest[i] != rest[j] by {
                assert(s[i + 1] == rest[i] && s[j + 1] == rest[j]);
            }
        }
        lemma_remove_first_unique(rest, x);
        let rr = remove_first(rest, x);
        let r = seq![s[0]] + rr;
        assert(remove_first(s, x) == r);
        assert(!rest.contains(s[0])) by {
            if rest.contains(s[0]) {
                let j = choose|j: int| 0 <= j < rest.len() && rest[j] == s[0];
                assert(s[j + 1] == s[0]);
            }
        }
        assert forall|y: (u64, u64)| #[trigger] r.contains(y) <==> (s.contains(y) && y != x) by {
            if r.contains(y) {
                let j = choose|j: int| 0 <= j < r.len() && r[j] == y;
                if j == 0 {
                    assert(s[0] == y);
                } else {
                    assert(rr[j - 1] == y);
                    assert(rr.contains(y));
                    let k = choose|k: int| 0 <= k < rest.len() && rest[k] == y;
                    assert(s[k + 1] == y);
                }
            }
            if s.contains(y) && y != x {
                let j = choose|j: int| 0 <= j < s.len() && s[j] == y;
                if j == 0 {
                    assert(r[0] == y);
                } else {
                    assert(rest[j - 1] == y);
                    assert(rr.contains(y));
                    let k = choose|k: int| 0 <= k < rr.len() && rr[k] == y;
                    assert(r[k + 1] == y);
                }
            }
        }
        assert forall|i: int, j: int| 0 <= i < r.len() && 0 <= j < r.len() && i != j implies r[i] != r[j] by {
            if i == 0 && j > 0 {
                assert(rr[j - 1] == r[j]);
                assert(rr.contains(r[j]));
            } else if j == 0 && i > 0 {
                assert(rr[i - 1] == r[i]);
                assert(rr.contains(r[i]));
            } else if i > 0 && j > 0 {
                assert(rr[i - 1] == r[i] && rr[j - 1] == r[j]);
            }
        }
    }
}

proof fn lemma_remove_first_absent(s: Seq<(u64, u64)>, x: (u64, u64))
    requires
        forall|k: int| 0 <= k < s.len() ==> s[k] != x,
    ensures
        remove_first(s, x) == s,
    decreases s.len(),
{
    if s.len() > 0 {
        lemma_remove_first_absent(s.drop_first(), x);
        assert(seq![s[0]] + s.drop_first() =~= s);
    }
}

impl StakingBonuses {
    /// The stake under a key.
    pub open spec fn stake_at(&self, staker: AccountId, collection: AccountId, token_id: u64) -> NftStakeInfo {
        self.stakes.view()[(staker, collection, token_id)]
    }

    /// Whether a stake is held under the key.
    pub open spec fn has_stake(&self, staker: AccountId, collection: AccountId, token_id: u64) -> bool {
        self.stakes.view().contains_key((staker, collection, token_id))
    }

    fn load_stake(&self, key: &(u64, u64, u64)) -> (r: Option<NftStakeInfo>)
        requires
            self.wf(),
        ensures
            r is Some <==> self.stakes.view().contains_key(*key),
            r matches Some(info) ==> {
                &&& info == (NftStakeInfo { unclaimed_rewards: info.unclaimed_rewards, ..self.stakes.view()[*key] })
                &&& info.unclaimed_rewards.entries@ == self.stakes.view()[*key].unclaimed_rewards.entries@
                &&& info.unclaimed_rewards.wf()
                &&& info.unclaimed_rewards.view() == self.stakes.view()[*key].unclaimed_rewards.view()
            },
    {
        match self.stakes.get(key) {
            Some(info) => {
                let copy = info.duplicate();
                assert(copy.unclaimed_rewards.view() =~= info.unclaimed_rewards.view());
                Some(copy)
            },
            None => None,
        }
    }

    /// Why `initiate_unstake` refuses, if it does.
    pub open spec fn initiate_unstake_error(
        &self,
        staker: AccountId,
        collection: AccountId,
        token_id: u64,
        now: u64,
        base_rewards: i128,
    ) -> Option<ContractError> {
        let info = self.stake_at(staker, collection, token_id);
        if !self.has_stake(staker, collection, token_id) {
            Some(ContractError::StakeNotFound)
        } else if info.in_cooldown {
            Some(ContractError::CooldownNotElapsed)
        } else if self.accrue_outcome(info, now, base_rewards) matches Err(f) {
            Some(accrual_error(self.accrue_failure(info, now, base_rewards)))
        } else if now + self.cooldown() > u64::MAX {
            Some(ContractError::OverflowError)
        } else {
            None
        }
    }

    /// The failure of accruing, when it fails.
    pub open spec fn accrue_failure(&self, info: NftStakeInfo, now: u64, base_rewards: i128) -> AccrualFailure {
        match self.accrue_outcome(info, now, base_rewards) {
            Err(f) => f,
            Ok(_) => AccrualFailure::Overflow,
        }
    }

    /// The unclaimed rewards after accruing, when it succeeds.
    pub open spec fn accrued(&self, info: NftStakeInfo, now: u64, base_rewards: i128) -> Map<u64, i128> {
        match self.accrue_outcome(info, now, base_rewards) {
            Ok(m) => m,
            Err(_) => info.unclaimed_rewards.view(),
        }
    }

    /// Starts the cooldown of a stake at `now`, after accruing its rewards.
    pub fn initiate_unstake(
        &mut self,
        staker: AccountId,
        collection: AccountId,
        token_id: u64,
        now: u64,
        base_rewards: i128,
    ) -> (r: Result<(), ContractError>)
        requires
            old(self).wf(),
        ensures
            final(self).wf(),
            r is Ok <==> old(self).initiate_unstake_error(staker, collection, token_id, now, base_rewards) is None,
            r matches Err(e) ==> old(self).initiate_unstake_error(staker, collection, token_id, now, base_rewards)
                == Some(e),
            r is Err ==> *final(self) == *old(self),
            r is Ok ==> {
                let key = (staker, collection, token_id);
                let info = old(self).stake_at(staker, collection, token_id);
                let info2 = final(self).stakes.view()[key];
                &&& final(self).stakes.view().dom() == old(self).stakes.view().dom()
                &&& forall|k: (u64, u64, u64)| #[trigger] old(self).stakes.view().contains_key(k) && k != key ==> final(self).stakes.view()[k]
                    == old(self).stakes.view()[k]
                &&& info2.unclaimed_rewards.view() == old(self).accrued(info, now, base_rewards)
                &&& info2 == (NftStakeInfo {
                    unclaimed_rewards: info2.unclaimed_rewards,
                    last_claim_timestamp: if old(self).accrual_advances(info, now) {
                        now
                    } else {
                        info.last_claim_timestamp
                    },
                    in_cooldown: true,
                    cooldown_start: now,
                    ..info
                })
                &&& *final(self) == (StakingBonuses { stakes: final(self).stakes, ..*old(self) })
            },
    {
        let key = (staker, collection, token_id);
        let mut info = match self.load_stake(&key) {
            Some(i) => i,
            None => return Err(ContractError::StakeNotFound),
        };
        if info.in_cooldown {
            return Err(ContractError::CooldownNotElapsed);
        }
        match self.accrue_all_rewards(&mut info, now, base_rewards) {
            Ok(_) => {},
            Err(AccrualFailure::Rejected(e)) => return Err(e),
            Err(AccrualFailure::Overflow) => return Err(ContractError::OverflowError),
        }
        let cooldown = match self.cooldown_period {
            Some(c) => c,
            None => DEFAULT_COOLDOWN_PERIOD,
        };
        if now.checked_add(cooldown).is_none() {
            return Err(ContractError::OverflowError);
        }
        info.in_cooldown = true;
        info.cooldown_start = now;
        let ghost mid = *self;
        self.stakes.set(key, info);
        proof {
            assert(self.stakes.view().dom() =~= mid.stakes.view().dom());
            assert(mid.stakes.has(key));
            assert(self.stakes.keys().len() == self.stakes.entries@.len());
            assert(mid.stakes.keys().len() == mid.stakes.entries@.len());
            mid.lemma_bookkeeping_frame(*self);
        }
        proof {
            assert(self.stakes.view().dom() =~= old(self).stakes.view().dom());
            assert forall|k: (u64, u64, u64)| #[trigger] self.stakes.view().contains_key(k) implies self.stakes.view()[k].unclaimed_rewards.wf() by {
                if k != key {
                    assert(old(self).stakes.view().contains_key(k));
                }
            }
        }
        Ok(())
    }

    /// Why `complete_unstake` refuses, if it does.
    pub open spec fn complete_unstake_error(&self, staker: AccountId, collection: AccountId, token_id: u64, now: u64) -> Option<
        ContractError,
    > {
        let info = self.stake_at(staker, collection, token_id);
        if !self.has_stake(staker, collection, token_id) {
            Some(ContractError::StakeNotFound)
        } else if !info.in_cooldown {
            Some(ContractError::StakeLocked)
        } else if now < (if info.cooldown_start + self.cooldown() > u64::MAX {
            u64::MAX as int
        } else {
            info.cooldown_start + self.cooldown()
        }) {
            Some(ContractError::CooldownNotElapsed)
        } else {
            self.claim_error(info.unclaimed_rewards.entries@)
        }
    }

    /// Ends a stake whose cooldown has passed at `now`: pays out its
    /// rewards, returns the NFT to the staker, removes the stake and takes
    /// it off the staker's list.  The
    /// returned transfers are the reward payouts followed by the NFT.
    pub fn complete_unstake(
        &mut self,
        staker: AccountId,
        collection: AccountId,
        token_id: u64,
        now: u64,
        contract_address: AccountId,
    ) -> (r: Result<Vec<TokenTransfer>, ContractError>)
        requires
            old(self).wf(),
        ensures
            final(self).wf(),
            r is Ok <==> old(self).complete_unstake_error(staker, collection, token_id, now) is None,
            r matches Err(e) ==> old(self).complete_unstake_error(staker, collection, token_id, now) == Some(e),
            r is Err ==> *final(self) == *old(self),
            r matches Ok(transfers) ==> {
                let key = (staker, collection, token_id);
                let info = old(self).stake_at(staker, collection, token_id);
                let m = info.unclaimed_rewards.view();
                let old_rt = old(self).reward_tokens.view();
                let old_trd = old(self).stats.total_rewards_distributed.view();
                &&& transfers@ == payouts(info.unclaimed_rewards.keys(), info.unclaimed_rewards.view(), contract_address, staker).push(
                    TokenTransfer {
                        token: collection,
                        from: contract_address,
                        to: staker,
                        amount: nft_transfer_amount(token_id, info.amount),
                    },
                )
                &&& final(self).stakes.view() == old(self).stakes.view().remove(key)
                &&& final(self).stats.total_nfts_staked == if old(self).stats.total_nfts_staked > 0 {
                    (old(self).stats.total_nfts_staked - 1) as u64
                } else {
                    0
                }
                &&& final(self).cache_invalidation.view() == old(self).cache_invalidation.view().insert(staker, now)
                &&& final(self).stakes_of(staker) == remove_first(old(self).stakes_of(staker), (collection, token_id))
                &&& !final(self).stakes_of(staker).contains((collection, token_id))
                &&& forall|u: AccountId| u != staker ==> #[trigger] final(self).stakes_of(u) == old(self).stakes_of(u)
                &&& final(self).reward_tokens.view() == Map::new(
                    |k: u64| old_rt.contains_key(k),
                    |k: u64| if m.contains_key(k) && m[k] > 0 {
                        RewardTokenConfig {
                            total_distributed: (old_rt[k].total_distributed + m[k]) as i128,
                            ..old_rt[k]
                        }
                    } else {
                        old_rt[k]
                    },
                )
                &&& final(self).stats.total_rewards_distributed.view() == Map::new(
                    |k: u64| old_trd.contains_key(k) || (m.contains_key(k) && m[k] > 0),
                    |k: u64| if m.contains_key(k) && m[k] > 0 {
                        (amount_or_zero(old_trd, k) + m[k]) as i128
                    } else {
                        old_trd[k]
                    },
                )
                &&& final(self).stats.total_stakers == old(self).stats.total_stakers
                &&& final(self).stats.collections_staked == old(self).stats.collections_staked
                &&& final(self).collections == old(self).collections
                &&& final(self).admin == old(self).admin
                &&& final(self).cooldown_period == old(self).cooldown_period
            },
    {
        let key = (staker, collection, token_id);
        let mut info = match self.load_stake(&key) {
            Some(i) => i,
            None => return Err(ContractError::StakeNotFound),
        };
        if !info.in_cooldown {
            return Err(ContractError::StakeLocked);
        }
        let cooldown = match self.cooldown_period {
            Some(c) => c,
            None => DEFAULT_COOLDOWN_PERIOD,
        };
        let ready_at = match info.cooldown_start.checked_add(cooldown) {
            Some(v) => v,
            None => u64::MAX,
        };
        if now < ready_at {
            return Err(ContractError::CooldownNotElapsed);
        }
        let (_claimed, mut transfers) = self.claim_all_rewards_internal(&mut info, staker, contract_address)?;
        transfers.push(
            TokenTransfer {
                token: collection,
                from: contract_address,
                to: staker,
                amount: saturating_nft_amount(token_id, info.amount),
            },
        );
        self.invalidate_query_cache(staker, now);
        let ghost pre = *self;
        self.drop_user_stake(staker, collection, token_id);
        let ghost mid = *self;
        self.stakes.remove(&key);
        self.stats.total_nfts_staked = if self.stats.total_nfts_staked > 0 {
            self.stats.total_nfts_staked - 1
        } else {
            0
        };
        proof {
            assert(pre.stakes.view().contains_key(key));
            assert(pre.stakes.has(key));
            assert(self.user_stakes == mid.user_stakes);
            assert forall|u: AccountId| u != staker implies #[trigger] self.stakes_of(u) == pre.stakes_of(u) by {
                assert(mid.stakes_of(u) == pre.stakes_of(u));
            }
            pre.lemma_bookkeeping_after_unstake(*self, staker, collection, token_id);
            assert forall|k: (u64, u64, u64)| #[trigger] self.stakes.view().contains_key(k) implies self.stakes.view()[k].unclaimed_rewards.wf() by {
                assert(old(self).stakes.view().contains_key(k));
            }
            assert(self.user_stakes == mid.user_stakes);
            assert forall|u: AccountId| u != staker implies #[trigger] self.stakes_of(u) == old(self).stakes_of(u) by {
                assert(mid.stakes_of(u) == old(self).stakes_of(u));
            }
        }
        Ok(transfers)
    }

    /// Takes the first (collection, token id) pair off `staker`'s list of
    /// stakes; the other lists and the rest of the state stay as they are.
    fn drop_user_stake(&mut self, staker: AccountId, collection: AccountId, token_id: u64)
        requires
            old(self).wf(),
        ensures
            final(self).user_stakes.wf(),
            final(self).stakes_of(staker) == remove_first(old(self).stakes_of(staker), (collection, token_id)),
            forall|u: AccountId| u != staker ==> #[trigger] final(self).stakes_of(u) == old(self).stakes_of(u),
            *final(self) == (StakingBonuses { user_stakes: final(self).user_stakes, ..*old(self) }),
    {
        if self.user_stakes.get(&staker).is_some() {
            let mut list = self.read_user_stakes(staker);
            let ghost before = list@;
            let mut j: usize = 0;
            let mut found: Option<usize> = None;
            while j < list.len()
                invariant
                    list@ == before,
                    j <= list@.len(),
                    found is None ==> forall|k: int| 0 <= k < j ==> list@[k] != (collection, token_id),
                    found matches Some(p) ==> p < j && list@[p as int] == (collection, token_id) && forall|k: int|
                        0 <= k < p ==> list@[k] != (collection, token_id),
                decreases list@.len() - j,
            {
                let (c, t) = list[j];
                if found.is_none() && c == collection && t == token_id {
                    found = Some(j);
                }
                j = j + 1;
            }
            if let Some(p) = found {
                proof {
                    lemma_remove_first_at(before, (collection, token_id), p as int);
                }
                list.remove(p);
                self.user_stakes.set(staker, list);
            } else {
                proof {
                    lemma_remove_first_absent(before, (collection, token_id));
                }
            }
        } else {
            proof {
                lemma_remove_first_absent(Seq::empty(), (collection, token_id));
            }
        }
    }

    /// Why `emergency_withdraw` refuses, if it does.
    pub open spec fn emergency_withdraw_error(&self, staker: AccountId, collection: AccountId, token_id: u64) -> Option<
        ContractError,
    > {
        if !self.has_stake(staker, collection, token_id) {
            Some(ContractError::StakeNotFound)
        } else if self.stake_at(staker, collection, token_id).emergency_withdrawn {
            Some(ContractError::EmergencyWithdrawalAlreadyUsed)
        } else {
            None
        }
    }

    /// Returns the NFT at once, without cooldown and forfeiting all
    /// rewards: the stake is removed and taken off the staker's list.
    pub fn emergency_withdraw(
        &mut self,
        staker: AccountId,
        collection: AccountId,
        token_id: u64,
        now: u64,
        contract_address: AccountId,
    ) -> (r: Result<TokenTransfer, ContractError>)
        requires
            old(self).wf(),
        ensures
            final(self).wf(),
            r is Ok <==> old(self).emergency_withdraw_error(staker, collection, token_id) is None,
            r matches Err(e) ==> old(self).emergency_withdraw_error(staker, collection, token_id) == Some(e),
            r is Err ==> *final(self) == *old(self),
            r matches Ok(t) ==> {
                let key = (staker, collection, token_id);
                let info = old(self).stake_at(staker, collection, token_id);
                &&& t == (TokenTransfer {
                    token: collection,
                    from: contract_address,
                    to: staker,
                    amount: nft_transfer_amount(token_id, info.amount),
                })
                &&& final(self).stakes.view() == old(self).stakes.view().remove(key)
                &&& final(self).stats.total_nfts_staked == if old(self).stats.total_nfts_staked > 0 {
                    (old(self).stats.total_nfts_staked - 1) as u64
                } else {
                    0
                }
                &&& final(self).stakes_of(staker) == remove_first(old(self).stakes_of(staker), (collection, token_id))
                &&& !final(self).stakes_of(staker).contains((collection, token_id))
                &&& forall|u: AccountId| u != staker ==> #[trigger] final(self).stakes_of(u) == old(self).stakes_of(u)
                &&& final(self).cache_invalidation.view() == old(self).cache_invalidation.view().insert(staker, now)
                &&& final(self).stats.total_rewards_distributed == old(self).stats.total_rewards_distributed
                &&& final(self).stats.total_stakers == old(self).stats.total_stakers
                &&& final(self).stats.collections_staked == old(self).stats.collections_staked
                &&& final(self).reward_tokens == old(self).reward_tokens
                &&& final(self).collections == old(self).collections
                &&& final(self).admin == old(self).admin
                &&& final(self).cooldown_period == old(self).cooldown_period
            },
    {
        let key = (staker, collection, token_id);
        let info = match self.load_stake(&key) {
            Some(i) => i,
            None => return Err(ContractError::StakeNotFound),
        };
        if info.emergency_withdrawn {
            return Err(ContractError::EmergencyWithdrawalAlreadyUsed);
        }
        let amount = saturating_nft_amount(token_id, info.amount);
        self.invalidate_query_cache(staker, now);
        let ghost pre = *self;
        self.drop_user_stake(staker, collection, token_id);
        let ghost mid = *self;
        self.stakes.remove(&key);
        self.stats.total_nfts_staked = if self.stats.total_nfts_staked > 0 {
            self.stats.total_nfts_staked - 1
        } else {
            0
        };
        proof {
            assert(pre.stakes.view().contains_key(key));
            assert(pre.stakes.has(key));
            assert(self.user_stakes == mid.user_stakes);
            assert forall|u: AccountId| u != staker implies #[trigger] self.stakes_of(u) == pre.stakes_of(u) by {
                assert(mid.stakes_of(u) == pre.stakes_of(u));
            }
            pre.lemma_bookkeeping_after_unstake(*self, staker, collection, token_id);
            assert forall|k: (u64, u64, u64)| #[trigger] self.stakes.view().contains_key(k) implies self.stakes.view()[k].unclaimed_rewards.wf() by {
                assert(old(self).stakes.view().contains_key(k));
            }
            assert(self.user_stakes == mid.user_stakes);
            assert forall|u: AccountId| u != staker implies #[trigger] self.stakes_of(u) == old(self).stakes_of(u) by {
                assert(mid.stakes_of(u) == old(self).stakes_of(u));
            }
        }
        Ok(TokenTransfer { token: collection, from: contract_address, to: staker, amount })
    }
}


impl StakingBonuses {
    /// The order of a stake's reward tokens after accruing at `now`.
    pub open spec fn accrued_keys(&self, info: NftStakeInfo, now: u64) -> Seq<u64> {
        if self.accrual_advances(info, now) {
            info.unclaimed_rewards.keys() + new_tokens(self.reward_tokens.keys(), info.unclaimed_rewards.view())
        } else {
            info.unclaimed_rewards.keys()
        }
    }

    /// Why `claim_rewards` refuses, if it does.
    pub open spec fn claim_rewards_error(
        &self,
        staker: AccountId,
        collection: AccountId,
        token_id: u64,
        now: u64,
        base_rewards: i128,
    ) -> Option<ContractError> {
        let info = self.stake_at(staker, collection, token_id);
        if !self.has_stake(staker, collection, token_id) {
            Some(ContractError::StakeNotFound)
        } else if self.accrue_outcome(info, now, base_rewards) is Err {
            Some(accrual_error(self.accrue_failure(info, now, base_rewards)))
        } else if self.claim_overflows(self.accrued(info, now, base_rewards)) {
            Some(ContractError::OverflowError)
        } else {
            None
        }
    }

    /// Accrues a stake's rewards up to `now` and pays them all out to the
    /// staker.  Returns the amounts paid per token and the transfers, in
    /// the order of the stake's reward tokens.
    pub fn claim_rewards(
        &mut self,
        staker: AccountId,
        collection: AccountId,
        token_id: u64,
        now: u64,
        base_rewards: i128,
        contract_address: AccountId,
    ) -> (r: Result<(KeyedStore<u64, i128>, Vec<TokenTransfer>), ContractError>)
        requires
            old(self).wf(),
        ensures
            final(self).wf(),
            r is Ok <==> old(self).claim_rewards_error(staker, collection, token_id, now, base_rewards) is None,
            r matches Err(e) ==> old(self).claim_rewards_error(staker, collection, token_id, now, base_rewards) == Some(
                e,
            ),
            r is Err ==> *final(self) == *old(self),
            r matches Ok((claimed, transfers)) ==> {
                let key = (staker, collection, token_id);
                let info = old(self).stake_at(staker, collection, token_id);
                let m = old(self).accrued(info, now, base_rewards);
                let old_rt = old(self).reward_tokens.view();
                let old_trd = old(self).stats.total_rewards_distributed.view();
                let info2 = final(self).stakes.view()[key];
                &&& claimed.view() == Map::new(|k: u64| m.contains_key(k) && m[k] > 0, |k: u64| m[k])
                &&& transfers@ == payouts(old(self).accrued_keys(info, now), m, contract_address, staker)
                &&& final(self).stakes.view().dom() == old(self).stakes.view().dom()
                &&& forall|k: (u64, u64, u64)| #[trigger] old(self).stakes.view().contains_key(k) && k != key ==> final(self).stakes.view()[k]
                    == old(self).stakes.view()[k]
                &&& info2.unclaimed_rewards.view() == Map::new(
                    |k: u64| m.contains_key(k),
                    |k: u64| if m[k] > 0 {
                        0
                    } else {
                        m[k]
                    },
                )
                &&& info2 == (NftStakeInfo {
                    unclaimed_rewards: info2.unclaimed_rewards,
                    last_claim_timestamp: if old(self).accrual_advances(info, now) {
                        now
                    } else {
                        info.last_claim_timestamp
                    },
                    ..info
                })
                &&& final(self).reward_tokens.view() == Map::new(
                    |k: u64| old_rt.contains_key(k),
                    |k: u64| if m.contains_key(k) && m[k] > 0 {
                        RewardTokenConfig {
                            total_distributed: (old_rt[k].total_distributed + m[k]) as i128,
                            ..old_rt[k]
                        }
                    } else {
                        old_rt[k]
                    },
                )
                &&& final(self).stats.total_rewards_distributed.view() == Map::new(
                    |k: u64| old_trd.contains_key(k) || (m.contains_key(k) && m[k] > 0),
                    |k: u64| if m.contains_key(k) && m[k] > 0 {
                        (amount_or_zero(old_trd, k) + m[k]) as i128
                    } else {
                        old_trd[k]
                    },
                )
                &&& final(self).stats.total_nfts_staked == old(self).stats.total_nfts_staked
                &&& final(self).stats.total_stakers == old(self).stats.total_stakers
                &&& final(self).stats.collections_staked == old(self).stats.collections_staked
                &&& final(self).cache_invalidation.view() == old(self).cache_invalidation.view().insert(staker, now)
                &&& final(self).collections == old(self).collections
                &&& final(self).user_stakes == old(self).user_stakes
                &&& final(self).admin == old(self).admin
                &&& final(self).cooldown_period == old(self).cooldown_period
            },
    {
        let key = (staker, collection, token_id);
        let mut info = match self.load_stake(&key) {
            Some(i) => i,
            None => return Err(ContractError::StakeNotFound),
        };
        match self.accrue_all_rewards(&mut info, now, base_rewards) {
            Ok(_) => {},
            Err(AccrualFailure::Rejected(e)) => return Err(e),
            Err(AccrualFailure::Overflow) => return Err(ContractError::OverflowError),
        }
        proof {
            let old_info = old(self).stake_at(staker, collection, token_id);
            assert forall|t: u64| #[trigger] info.unclaimed_rewards.view().contains_key(t) implies self.reward_tokens.view().contains_key(
                t,
            ) by {
                if old_info.unclaimed_rewards.view().contains_key(t) {
                    assert(old(self).stakes.view().contains_key(key));
                }
            }
            self.lemma_claim_error_registered(info.unclaimed_rewards);
        }
        let (claimed, transfers) = self.claim_all_rewards_internal(&mut info, staker, contract_address)?;
        let ghost mid = *self;
        self.stakes.set(key, info);
        proof {
            assert(self.stakes.view().dom() =~= mid.stakes.view().dom());
            assert(mid.stakes.has(key));
            assert(self.stakes.keys().len() == self.stakes.entries@.len());
            assert(mid.stakes.keys().len() == mid.stakes.entries@.len());
            mid.lemma_bookkeeping_frame(*self);
        }
        self.invalidate_query_cache(staker, now);
        proof {
            assert(self.stakes.view().dom() =~= old(self).stakes.view().dom());
            assert forall|k: (u64, u64, u64)| #[trigger] self.stakes.view().contains_key(k) implies self.stakes.view()[k].unclaimed_rewards.wf() by {
                if k != key {
                    assert(old(self).stakes.view().contains_key(k));
                }
            }
            assert forall|k: (u64, u64, u64), t: u64|
                #[trigger] self.stakes.view().contains_key(k) && #[trigger] self.stakes.view()[k].unclaimed_rewards.view().contains_key(t)
                    implies self.reward_tokens.view().contains_key(t) by {
                assert(old(self).stakes.view().contains_key(k));
                if k != key {
                    assert(old(self).reward_tokens.view().contains_key(t));
                }
            }
        }
        Ok((claimed, transfers))
    }

    /// A stake's record with its rewards accrued up to `now`, which is also
    /// stored.  Where accruing is refused the record is returned as it is;
    /// where an accrued amount overflows, the call fails.
    pub fn get_stake_info(&mut self, staker: AccountId, collection: AccountId, token_id: u64, now: u64, base_rewards: i128) -> (r:
        Result<Option<NftStakeInfo>, ContractError>)
        requires
            old(self).wf(),
        ensures
            final(self).wf(),
            !old(self).has_stake(staker, collection, token_id) ==> (r matches Ok(None) && *final(self) == *old(self)),
            old(self).has_stake(staker, collection, token_id) ==> {
                let key = (staker, collection, token_id);
                let info = old(self).stake_at(staker, collection, token_id);
                match old(self).accrue_outcome(info, now, base_rewards) {
                    Err(AccrualFailure::Overflow) => r == Err::<Option<NftStakeInfo>, ContractError>(
                        ContractError::OverflowError,
                    ) && *final(self) == *old(self),
                    Err(AccrualFailure::Rejected(_)) => (r matches Ok(Some(i)) && i == (NftStakeInfo {
                        unclaimed_rewards: i.unclaimed_rewards,
                        ..info
                    }) && i.unclaimed_rewards.view() == info.unclaimed_rewards.view()
                        && final(self).stakes.view().dom() == old(self).stakes.view().dom()
                        && final(self).stakes.view()[key].unclaimed_rewards.view() == info.unclaimed_rewards.view()
                        && final(self).stakes.view()[key] == (NftStakeInfo {
                        unclaimed_rewards: final(self).stakes.view()[key].unclaimed_rewards,
                        ..info
                    }) && (forall|k: (u64, u64, u64)| #[trigger] old(self).stakes.view().contains_key(k) && k != key
                        ==> final(self).stakes.view()[k] == old(self).stakes.view()[k]) && *final(self) == (
                    StakingBonuses { stakes: final(self).stakes, ..*old(self) })),
                    Ok(m) => (r matches Ok(Some(i)) && i == (NftStakeInfo {
                        unclaimed_rewards: i.unclaimed_rewards,
                        last_claim_timestamp: if old(self).accrual_advances(info, now) {
                            now
                        } else {
                            info.last_claim_timestamp
                        },
                        ..info
                    }) && i.unclaimed_rewards.view() == m && final(self).stakes.view().dom()
                        == old(self).stakes.view().dom() && final(self).stakes.view()[key].unclaimed_rewards.view() == m
                        && final(self).stakes.view()[key] == (NftStakeInfo {
                        unclaimed_rewards: final(self).stakes.view()[key].unclaimed_rewards,
                        ..i
                    }) && (forall|k: (u64, u64, u64)| #[trigger] old(self).stakes.view().contains_key(k) && k != key
                        ==> final(self).stakes.view()[k] == old(self).stakes.view()[k]) && *final(self) == (
                    StakingBonuses { stakes: final(self).stakes, ..*old(self) })),
                }
            },
    {
        let key = (staker, collection, token_id);
        let mut info = match self.load_stake(&key) {
            Some(i) => i,
            None => return Ok(None),
        };
        match self.accrue_all_rewards(&mut info, now, base_rewards) {
            Ok(_) => {},
            Err(AccrualFailure::Rejected(_)) => {},
            Err(AccrualFailure::Overflow) => return Err(ContractError::OverflowError),
        }
        let result = info.duplicate();
        proof {
            assert(result.unclaimed_rewards.view() =~= info.unclaimed_rewards.view());
            let old_info = old(self).stake_at(staker, collection, token_id);
            assert forall|t: u64| #[trigger] info.unclaimed_rewards.view().contains_key(t) implies self.reward_tokens.view().contains_key(
                t,
            ) by {
                if old_info.unclaimed_rewards.view().contains_key(t) {
                    assert(old(self).stakes.view().contains_key(key));
                }
            }
        }
        let ghost mid = *self;
        self.stakes.set(key, info);
        proof {
            assert(self.stakes.view().dom() =~= mid.stakes.view().dom());
            assert(mid.stakes.has(key));
            assert(self.stakes.keys().len() == self.stakes.entries@.len());
            assert(mid.stakes.keys().len() == mid.stakes.entries@.len());
            mid.lemma_bookkeeping_frame(*self);
        }
        proof {
            assert(self.stakes.view().dom() =~= old(self).stakes.view().dom());
            assert forall|k: (u64, u64, u64)| #[trigger] self.stakes.view().contains_key(k) implies self.stakes.view()[k].unclaimed_rewards.wf() by {
                if k != key {
                    assert(old(self).stakes.view().contains_key(k));
                }
            }
            assert forall|k: (u64, u64, u64), t: u64|
                #[trigger] self.stakes.view().contains_key(k) && #[trigger] self.stakes.view()[k].unclaimed_rewards.view().contains_key(t)
                    implies self.reward_tokens.view().contains_key(t) by {
                assert(old(self).stakes.view().contains_key(k));
            }
        }
        Ok(Some(result))
    }

    /// The rewards a stake would have unclaimed after accruing up to `now`,
    /// without changing anything.
    pub fn calculate_pending_rewards(&self, staker: AccountId, collection: AccountId, token_id: u64, now: u64, base_rewards: i128) -> (r:
        Result<KeyedStore<u64, i128>, ContractError>)
        requires
            self.wf(),
        ensures
            !self.has_stake(staker, collection, token_id) ==> r == Err::<KeyedStore<u64, i128>, ContractError>(
                ContractError::StakeNotFound,
            ),
            self.has_stake(staker, collection, token_id) ==> match self.accrue_outcome(
                self.stake_at(staker, collection, token_id),
                now,
                base_rewards,
            ) {
                Ok(m) => (r matches Ok(store) && store.wf() && store.view() == m),
                Err(f) => r == Err::<KeyedStore<u64, i128>, ContractError>(accrual_error(f)),
            },
    {
        let key = (staker, collection, token_id);
        let mut info = match self.load_stake(&key) {
            Some(i) => i,
            None => return Err(ContractError::StakeNotFound),
        };
        match self.accrue_all_rewards(&mut info, now, base_rewards) {
            Ok(_) => {},
            Err(AccrualFailure::Rejected(e)) => return Err(e),
            Err(AccrualFailure::Overflow) => return Err(ContractError::OverflowError),
        }
        Ok(info.unclaimed_rewards)
    }

    /// A staker's (collection, token id) pairs.
    pub fn get_user_stakes(&self, staker: AccountId) -> (r: Vec<(u64, u64)>)
        requires
            self.wf(),
        ensures
            r@ == self.stakes_of(staker),
            forall|c: u64, t: u64| #[trigger] r@.contains((c, t)) <==> self.has_stake(staker, c, t),
            r@.no_duplicates(),
    {
        self.read_user_stakes(staker)
    }

    /// The global statistics, once the contract is initialised.
    pub fn get_staking_stats(&self) -> (r: Option<&StakingStats>)
        ensures
            r is Some <==> self.admin.is_some(),
            r matches Some(st) ==> *st == self.stats,
    {
        if self.admin.is_some() {
            Some(&self.stats)
        } else {
            None
        }
    }

    /// A collection's configuration, if it has one.
    pub fn get_collection_config(&self, collection: AccountId) -> (r: Option<&CollectionConfig>)
        requires
            self.wf(),
        ensures
            r is Some <==> self.collections.view().contains_key(collection),
            r matches Some(c) ==> *c == self.collections.view()[collection],
    {
        self.collections.get(&collection)
    }

    /// The registered reward tokens, in the order they were first added.
    pub fn get_all_reward_tokens(&self) -> (r: Vec<u64>)
        ensures
            r@ == self.reward_tokens.keys(),
    {
        let mut out: Vec<u64> = Vec::new();
        let mut i: usize = 0;
        while i < self.reward_tokens.entries.len()
            invariant
                i <= self.reward_tokens.entries@.len(),
                out@ == self.reward_tokens.keys().take(i as int),
            decreases self.reward_tokens.entries@.len() - i,
        {
            out.push(self.reward_tokens.entries[i].0);
            assert(self.reward_tokens.keys().take(i + 1) =~= self.reward_tokens.keys().take(i as int).push(
                self.reward_tokens.entries@[i as int].0,
            ));
            i = i + 1;
        }
        assert(self.reward_tokens.keys().take(self.reward_tokens.entries@.len() as int) =~= self.reward_tokens.keys());
        out
    }
}

/// An NFT can be taken back by emergency withdrawal only once: after a
/// withdrawal has removed the stake (as `emergency_withdraw` states it), a
/// second one finds no stake, and neither does a claim or an unstake.
pub proof fn lemma_no_second_emergency_withdrawal(
    before: StakingBonuses,
    after: StakingBonuses,
    staker: AccountId,
    collection: AccountId,
    token_id: u64,
    now: u64,
    base_rewards: i128,
)
    requires
        after.stakes.view() == before.stakes.view().remove((staker, collection, token_id)),
    ensures
        after.emergency_withdraw_error(staker, collection, token_id) == Some(ContractError::StakeNotFound),
        after.claim_rewards_error(staker, collection, token_id, now, base_rewards) == Some(
            ContractError::StakeNotFound,
        ),
        after.complete_unstake_error(staker, collection, token_id, now) == Some(ContractError::StakeNotFound),
{
}

/// Rewards accrue once per moment: a stake whose last claim time is `now`
/// gains nothing from accruing again at `now`, whatever the base reward.
pub proof fn lemma_accrual_idempotent(s: StakingBonuses, info: NftStakeInfo, now: u64, base_rewards: i128)
    requires
        info.last_claim_timestamp == now,
    ensures
        s.accrue_outcome(info, now, base_rewards) == Ok::<Map<u64, i128>, AccrualFailure>(
            info.unclaimed_rewards.view(),
        ),
        !s.accrual_advances(info, now),
{
}

/// Accrual never takes rewards away: with a non-negative base reward, every
/// amount a stake held is at least as large after accruing, and every
/// registered reward token is held.
pub proof fn lemma_accrual_never_decreases(s: StakingBonuses, info: NftStakeInfo, now: u64, base_rewards: i128)
    requires
        base_rewards >= 0,
        s.accrue_outcome(info, now, base_rewards) is Ok,
    ensures
        ({
            let m = s.accrue_outcome(info, now, base_rewards)->Ok_0;
            let old_m = info.unclaimed_rewards.view();
            &&& forall|k: u64| #[trigger] old_m.contains_key(k) ==> m.contains_key(k) && m[k] >= old_m[k]
            &&& s.accrual_advances(info, now) ==> forall|k: u64| #[trigger] s.reward_tokens.view().contains_key(k)
                ==> m.contains_key(k)
        }),
{
    let cfg = s.collections.view()[info.collection];
    let mult = tier_multiplier(cfg.tiers@, saturating_diff(now, info.start_timestamp));
    let d = saturating_diff(now, info.start_timestamp);
    lemma_tier_multiplier_monotone(cfg.tiers@, d, d);
    let n = s.reward_tokens.entries@.len() as int;
    let scaled = base_rewards * mult;
    assert(scaled >= 0) by (nonlinear_arith)
        requires
            scaled == base_rewards * mult,
            base_rewards >= 0,
            mult >= 100,
    ;
    if saturating_diff(now, info.last_claim_timestamp) != 0 && n != 0 {
        let q = trunc_div(scaled, 100);
        assert(q >= 0);
        let per = s.reward_per_token(info, now, base_rewards);
        assert(per == trunc_div(q, n));
        assert(per >= 0) by (nonlinear_arith)
            requires
                per == trunc_div(q, n),
                q >= 0,
                n > 0,
        ;
    }
}

} // verus!

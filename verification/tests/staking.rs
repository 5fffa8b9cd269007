use soroban_contracts::staking::{Staking, StakingError, TokenTransfer};

const ADMIN: u64 = 1;
const USER: u64 = 2;
const TOKEN: u64 = 3;
const CONTRACT: u64 = 4;

fn setup() -> Staking {
    let mut staking = Staking::new();
    staking.initialize(ADMIN, TOKEN, 100, 1_000).unwrap();
    staking
}

fn fail(e: StakingError) -> ! {
    panic!("{}", e.message())
}

/// A tier of minimum 100, a 100 second lock, 1x and a 10% penalty.
fn with_tier(staking: &mut Staking) -> u32 {
    staking
        .add_tier(ADMIN, String::from("Bronze"), 100, 100, 10_000, 1_000, 1_000)
        .unwrap()
}

#[test]
fn initializes_correctly() {
    let staking = setup();
    assert_eq!(staking.get_admin(), Ok(ADMIN));
    assert_eq!(staking.get_reward_rate(), 100);
    assert_eq!(staking.get_total_staked(), 0);
    assert_eq!(staking.get_total_rewards_distributed(), 0);
    assert!(!staking.is_paused());
}

#[test]
#[should_panic(expected = "Already initialized")]
fn cannot_initialize_twice() {
    let mut staking = setup();
    if let Err(e) = staking.initialize(ADMIN, 9, 100, 1_000) {
        fail(e);
    }
}

#[test]
fn pause_and_unpause() {
    let mut staking = setup();
    staking.pause(ADMIN).unwrap();
    assert!(staking.is_paused());
    staking.unpause(ADMIN).unwrap();
    assert!(!staking.is_paused());
}

#[test]
#[should_panic(expected = "Unauthorized: caller is not admin")]
fn non_admin_cannot_pause() {
    let mut staking = setup();
    if let Err(e) = staking.pause(USER) {
        fail(e);
    }
}

#[test]
fn pause_twice_and_unpause_unpaused_are_refused() {
    let mut staking = setup();
    assert_eq!(staking.unpause(ADMIN), Err(StakingError::NotPaused));
    staking.pause(ADMIN).unwrap();
    assert_eq!(staking.pause(ADMIN), Err(StakingError::AlreadyPaused));
    assert_eq!(StakingError::AlreadyPaused.message(), "Already paused");
}

#[test]
fn negative_reward_rate_is_refused() {
    let mut staking = Staking::new();
    assert_eq!(staking.initialize(ADMIN, TOKEN, -1, 0), Err(StakingError::NegativeRewardRate));
    let mut staking = setup();
    assert_eq!(staking.set_reward_rate(ADMIN, -5, 1_000), Err(StakingError::NegativeRewardRate));
    assert_eq!(staking.get_reward_rate(), 100);
}

#[test]
fn weight_and_penalty_formulas() {
    assert_eq!(Staking::calculate_weight(1_000, 15_000), 1_500);
    assert_eq!(Staking::calculate_weight(999, 10_001), 999);
    assert_eq!(Staking::calculate_weight(-1_000, 15_000), -1_500);
    assert_eq!(Staking::calculate_penalty(1_000, 2_500), 250);
    assert_eq!(Staking::calculate_penalty(1_000, 0), 0);
    assert_eq!(Staking::calculate_penalty(7, 10_000), 7);
}

#[test]
fn tier_creation_validates_its_parameters() {
    let mut staking = setup();
    let name = || String::from("t");
    assert_eq!(staking.add_tier(USER, name(), 100, 100, 10_000, 0, 0), Err(StakingError::Unauthorized));
    assert_eq!(staking.add_tier(ADMIN, name(), 0, 100, 10_000, 0, 0), Err(StakingError::NonPositiveMinStake));
    assert_eq!(staking.add_tier(ADMIN, name(), 100, 0, 10_000, 0, 0), Err(StakingError::ZeroLockDuration));
    assert_eq!(staking.add_tier(ADMIN, name(), 100, 100, 0, 0, 0), Err(StakingError::ZeroMultiplier));
    assert_eq!(staking.add_tier(ADMIN, name(), 100, 100, 10_000, 10_001, 0), Err(StakingError::PenaltyTooHigh));
    let id = with_tier(&mut staking);
    assert_eq!(id, 1);
    assert_eq!(staking.get_tier_ids(), vec![1]);
    let tier = staking.get_tier(id).unwrap();
    assert_eq!(tier.name, "Bronze");
    assert!(tier.active);
    staking.deactivate_tier(ADMIN, id).unwrap();
    assert_eq!(staking.deactivate_tier(ADMIN, id), Err(StakingError::TierAlreadyInactive));
    assert_eq!(staking.get_tier(7).unwrap_err(), StakingError::TierNotFound);
    assert_eq!(staking.get_tier(0).unwrap_err(), StakingError::InvalidTierId);
}

#[test]
fn stake_then_early_unstake_pays_rewards_less_penalty() {
    let mut staking = setup();
    let tier = with_tier(&mut staking);
    let (res, transfer) = staking.stake(USER, 1_000, tier, 1_000, CONTRACT).unwrap();
    assert_eq!(res.stake_id, 1);
    assert_eq!(res.lock_end_time, 1_100);
    assert_eq!(transfer, TokenTransfer { token: TOKEN, from: USER, to: CONTRACT, amount: 1_000 });
    staking.exit_non_reentrant();
    assert_eq!(staking.get_total_staked(), 1_000);
    // Ten seconds at 100 per second, all to the only position.
    assert_eq!(staking.get_pending_rewards(1, 1_010), Ok(1_000));
    let (out, transfers) = staking.unstake(USER, 1, 1_010, CONTRACT).unwrap();
    staking.exit_non_reentrant();
    assert_eq!(out.penalty_amount, 100);
    assert_eq!(out.principal_returned, 900);
    assert_eq!(out.rewards_claimed, 1_000);
    assert_eq!(out.total_returned, 1_900);
    assert_eq!(
        transfers,
        vec![
            TokenTransfer { token: TOKEN, from: CONTRACT, to: USER, amount: 900 },
            TokenTransfer { token: TOKEN, from: CONTRACT, to: USER, amount: 1_000 },
        ]
    );
    assert_eq!(staking.get_total_staked(), 0);
    assert_eq!(staking.get_total_rewards_distributed(), 1_000);
    assert!(!staking.get_stake(1).unwrap().active);
    assert_eq!(staking.unstake(USER, 1, 1_020, CONTRACT).unwrap_err(), StakingError::StakeNotActive);
}

#[test]
fn unstake_after_lock_has_no_penalty() {
    let mut staking = setup();
    let tier = with_tier(&mut staking);
    staking.stake(USER, 1_000, tier, 1_000, CONTRACT).unwrap();
    staking.exit_non_reentrant();
    let (out, _) = staking.unstake(USER, 1, 1_100, CONTRACT).unwrap();
    assert_eq!(out.penalty_amount, 0);
    assert_eq!(out.principal_returned, 1_000);
    assert_eq!(out.rewards_claimed, 10_000);
}

#[test]
fn rewards_are_shared_by_weight() {
    let mut staking = setup();
    let tier = with_tier(&mut staking);
    let gold = staking
        .add_tier(ADMIN, String::from("Gold"), 100, 100, 30_000, 0, 1_000)
        .unwrap();
    staking.stake(USER, 1_000, tier, 1_000, CONTRACT).unwrap();
    staking.exit_non_reentrant();
    staking.stake(5, 1_000, gold, 1_000, CONTRACT).unwrap();
    staking.exit_non_reentrant();
    // 4000 tokens over 40 seconds: weights 1000 and 3000.
    assert_eq!(staking.get_pending_rewards(1, 1_040), Ok(1_000));
    assert_eq!(staking.get_pending_rewards(2, 1_040), Ok(3_000));
    assert_eq!(staking.get_user_stakes(5).len(), 1);
    assert_eq!(staking.get_stake_counter(), 2);
}

#[test]
fn stake_refusals() {
    let mut staking = setup();
    let tier = with_tier(&mut staking);
    assert_eq!(staking.stake(USER, 0, tier, 1_000, CONTRACT).unwrap_err(), StakingError::NonPositiveAmount);
    assert_eq!(staking.stake(USER, 99, tier, 1_000, CONTRACT).unwrap_err(), StakingError::BelowTierMinimum);
    assert_eq!(staking.stake(USER, 100, 9, 1_000, CONTRACT).unwrap_err(), StakingError::TierNotFound);
    staking.stake(USER, 100, tier, 1_000, CONTRACT).unwrap();
    // The lock is held until the transfer is done.
    assert_eq!(staking.stake(USER, 100, tier, 1_000, CONTRACT).unwrap_err(), StakingError::ReentrantCall);
    staking.exit_non_reentrant();
    assert_eq!(staking.unstake(9, 1, 1_000, CONTRACT).unwrap_err(), StakingError::NotStaker);
    staking.pause(ADMIN).unwrap();
    assert_eq!(staking.stake(USER, 100, tier, 1_000, CONTRACT).unwrap_err(), StakingError::StakingPaused);
}

#[test]
fn reentrancy_lock_round_trip() {
    let mut staking = setup();
    staking.enter_non_reentrant().unwrap();
    assert_eq!(staking.enter_non_reentrant(), Err(StakingError::ReentrantCall));
    staking.exit_non_reentrant();
    staking.enter_non_reentrant().unwrap();
}

#[test]
fn reward_index_only_grows() {
    let mut staking = setup();
    let tier = with_tier(&mut staking);
    staking.stake(USER, 1_000, tier, 1_000, CONTRACT).unwrap();
    staking.exit_non_reentrant();
    let before = staking.reward_per_token_stored;
    staking.update_pool(1_005).unwrap();
    let mid = staking.reward_per_token_stored;
    staking.update_pool(1_003).unwrap();
    assert!(before <= mid);
    assert_eq!(staking.reward_per_token_stored, mid);
    assert_eq!(staking.get_last_reward_time(), 1_005);
}

#[test]
fn rarer_refusals() {
    let mut fresh = Staking::new();
    assert_eq!(fresh.pause(ADMIN), Err(StakingError::NotInitialized));
    assert_eq!(fresh.get_admin(), Err(StakingError::NotInitialized));
    let mut staking = setup();
    assert_eq!(staking.get_stake(0).unwrap_err(), StakingError::InvalidStakeId);
    assert_eq!(staking.get_stake(5).unwrap_err(), StakingError::StakeNotFound);
    let far = staking
        .add_tier(ADMIN, String::from("Far"), 1, u64::MAX, 10_000, 0, 1_000)
        .unwrap();
    assert_eq!(staking.stake(USER, 10, far, 1_000, CONTRACT).unwrap_err(), StakingError::LockEndOverflow);
    let heavy = staking
        .add_tier(ADMIN, String::from("Heavy"), 1, 10, 20_000, 0, 1_000)
        .unwrap();
    assert_eq!(staking.stake(USER, i128::MAX, heavy, 1_000, CONTRACT).unwrap_err(), StakingError::WeightOverflow);
    staking.deactivate_tier(ADMIN, heavy).unwrap();
    assert_eq!(staking.stake(USER, 10, heavy, 1_000, CONTRACT).unwrap_err(), StakingError::TierNotActive);
    for i in 0..8 {
        staking.add_tier(ADMIN, format!("T{}", i), 1, 10, 10_000, 0, 1_000).unwrap();
    }
    assert_eq!(staking.get_tier_ids().len(), 10);
    assert_eq!(
        staking.add_tier(ADMIN, String::from("One too many"), 1, 10, 10_000, 0, 1_000),
        Err(StakingError::MaxTiersReached)
    );
}

#[test]
fn total_weight_follows_the_positions() {
    let mut staking = setup();
    let tier = with_tier(&mut staking);
    staking.stake(USER, 1_000, tier, 1_000, CONTRACT).unwrap();
    staking.exit_non_reentrant();
    staking.stake(5, 500, tier, 1_000, CONTRACT).unwrap();
    staking.exit_non_reentrant();
    assert_eq!(staking.total_weighted_stake, 1_500);
    staking.unstake(5, 2, 1_200, CONTRACT).unwrap();
    staking.exit_non_reentrant();
    assert_eq!(staking.total_weighted_stake, 1_000);
    // Changing an occupied tier's multiplier leaves the pool's total weight
    // as it was: unstaking then takes off the weight at the new multiplier.
    staking.update_tier(ADMIN, tier, None, None, None, Some(20_000), None).unwrap();
    assert_eq!(staking.total_weighted_stake, 1_000);
    staking.unstake(USER, 1, 1_300, CONTRACT).unwrap();
    assert_eq!(staking.total_weighted_stake, -1_000);
}

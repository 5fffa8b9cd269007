use soroban_contracts::kv::KeyedStore;
use soroban_contracts::staking_bonuses::{
    calculate_tier_multiplier, validate_tiers, CollectionConfig, ContractError, NftStandard, RewardTier,
    StakingBonuses, TokenTransfer,
};

const ADMIN: u64 = 1;
const USER: u64 = 2;
const NFT: u64 = 3;
const REWARD_TOKEN: u64 = 4;
const CONTRACT: u64 = 5;
const DAY: u64 = 86400;

/// The reward a collection paying `rate` a day earns over `elapsed` seconds,
/// before the tier multiplier: a fractional day counts in proportion.
fn base_rewards(rate: i128, elapsed: u64) -> i128 {
    let days_elapsed = (elapsed as f64) / 86400.0;
    (rate as f64 * days_elapsed) as i128
}

fn setup() -> StakingBonuses {
    let mut staking = StakingBonuses::new();
    staking.init_contract(ADMIN).unwrap();
    staking
}

fn config(tiers: Vec<RewardTier>) -> CollectionConfig {
    CollectionConfig { standard: NftStandard::ERC721, base_reward_rate: 100, is_whitelisted: true, tiers }
}

fn amount_of(store: &KeyedStore<u64, i128>, token: u64) -> Option<i128> {
    store.get(&token).copied()
}

#[test]
fn test_nft_staking_flow() {
    let mut staking = setup();
    let funding = staking.add_reward_token(ADMIN, REWARD_TOKEN, 100_000, CONTRACT).unwrap();
    assert_eq!(funding, TokenTransfer { token: REWARD_TOKEN, from: ADMIN, to: CONTRACT, amount: 100_000 });
    let tiers = vec![
        RewardTier { min_duration: 30 * 86400, reward_multiplier: 125 },
        RewardTier { min_duration: 90 * 86400, reward_multiplier: 150 },
    ];
    staking.add_whitelisted_collection(ADMIN, NFT, config(tiers)).unwrap();
    staking.stake_nft(USER, NFT, 1, 1, 0, CONTRACT).unwrap();

    let stake_info = staking.get_stake_info(USER, NFT, 1, 0, 0).unwrap().unwrap();
    assert_eq!(stake_info.amount, 1);
    assert_eq!(stake_info.staker, USER);

    let now = 31 * 86400;
    let base = base_rewards(100, now);
    assert_eq!(base, 3100);
    let pending = staking.calculate_pending_rewards(USER, NFT, 1, now, base).unwrap();
    assert!(pending.len() > 0);
    // 31 days at 100 a day, times the 1.25x tier reached after 30 days.
    assert_eq!(amount_of(&pending, REWARD_TOKEN), Some(3875));

    let (claimed, transfers) = staking.claim_rewards(USER, NFT, 1, now, base, CONTRACT).unwrap();
    assert!(claimed.len() > 0);
    assert_eq!(amount_of(&claimed, REWARD_TOKEN), Some(3875));
    assert_eq!(transfers, vec![TokenTransfer { token: REWARD_TOKEN, from: CONTRACT, to: USER, amount: 3875 }]);
    let cfg = staking.reward_tokens.get(&REWARD_TOKEN).unwrap();
    assert_eq!(cfg.total_distributed, 3875);
    let after = staking.calculate_pending_rewards(USER, NFT, 1, now, 0).unwrap();
    assert_eq!(amount_of(&after, REWARD_TOKEN), Some(0));
}

#[test]
fn test_emergency_withdrawal() {
    let mut staking = setup();
    staking.add_reward_token(ADMIN, REWARD_TOKEN, 100_000, CONTRACT).unwrap();
    staking.add_whitelisted_collection(ADMIN, NFT, config(Vec::new())).unwrap();
    staking.stake_nft(USER, NFT, 1, 1, 0, CONTRACT).unwrap();
    let back = staking.emergency_withdraw(USER, NFT, 1, 0, CONTRACT).unwrap();
    assert_eq!(back, TokenTransfer { token: NFT, from: CONTRACT, to: USER, amount: 1 });
    let stake_info = staking.get_stake_info(USER, NFT, 1, 0, 0).unwrap();
    assert!(stake_info.is_none());
    assert_eq!(staking.get_user_stakes(USER), Vec::<(u64, u64)>::new());
}

#[test]
#[should_panic(expected = "StakeNotFound")]
fn test_cannot_withdraw_twice() {
    let mut staking = setup();
    staking.add_reward_token(ADMIN, REWARD_TOKEN, 100_000, CONTRACT).unwrap();
    staking.add_whitelisted_collection(ADMIN, NFT, config(Vec::new())).unwrap();
    staking.stake_nft(USER, NFT, 1, 1, 0, CONTRACT).unwrap();
    staking.emergency_withdraw(USER, NFT, 1, 0, CONTRACT).unwrap();
    staking.emergency_withdraw(USER, NFT, 1, 0, CONTRACT).unwrap();
}

#[test]
fn admin_only_configuration() {
    let mut staking = setup();
    assert_eq!(staking.init_contract(ADMIN), Err(ContractError::AlreadyInitialized));
    assert_eq!(
        staking.add_whitelisted_collection(USER, NFT, config(Vec::new())),
        Err(ContractError::Unauthorized)
    );
    assert_eq!(staking.add_reward_token(USER, REWARD_TOKEN, 10, CONTRACT), Err(ContractError::Unauthorized));
    assert_eq!(staking.add_reward_token(ADMIN, REWARD_TOKEN, 0, CONTRACT), Err(ContractError::InvalidAmount));
    assert_eq!(staking.set_cooldown_period(USER, 10), Err(ContractError::Unauthorized));
}

#[test]
fn tier_configurations_are_validated() {
    let unordered = vec![
        RewardTier { min_duration: 90 * DAY, reward_multiplier: 150 },
        RewardTier { min_duration: 30 * DAY, reward_multiplier: 125 },
    ];
    assert!(!validate_tiers(&unordered));
    assert!(!validate_tiers(&vec![RewardTier { min_duration: DAY, reward_multiplier: 99 }]));
    assert!(!validate_tiers(&vec![RewardTier { min_duration: 0, reward_multiplier: 120 }]));
    assert!(validate_tiers(&Vec::new()));
    let mut staking = setup();
    assert_eq!(
        staking.add_whitelisted_collection(ADMIN, NFT, config(unordered)),
        Err(ContractError::InvalidTierConfig)
    );
}

#[test]
fn tier_multiplier_grows_with_duration() {
    let tiers = vec![
        RewardTier { min_duration: 30 * DAY, reward_multiplier: 125 },
        RewardTier { min_duration: 90 * DAY, reward_multiplier: 150 },
    ];
    assert_eq!(calculate_tier_multiplier(&tiers, 0), 100);
    assert_eq!(calculate_tier_multiplier(&tiers, 30 * DAY - 1), 100);
    assert_eq!(calculate_tier_multiplier(&tiers, 30 * DAY), 125);
    assert_eq!(calculate_tier_multiplier(&tiers, 89 * DAY), 125);
    assert_eq!(calculate_tier_multiplier(&tiers, 90 * DAY), 150);
    assert_eq!(calculate_tier_multiplier(&Vec::new(), 400 * DAY), 100);
}

#[test]
fn staking_refusals() {
    let mut staking = setup();
    assert_eq!(staking.stake_nft(USER, NFT, 1, 1, 0, CONTRACT), Err(ContractError::CollectionNotWhitelisted));
    staking.add_whitelisted_collection(ADMIN, NFT, config(Vec::new())).unwrap();
    assert_eq!(staking.stake_nft(USER, NFT, 1, 0, 0, CONTRACT), Err(ContractError::InvalidAmount));
    assert_eq!(staking.stake_nft(USER, NFT, 1, 2, 0, CONTRACT), Err(ContractError::InvalidNftStandard));
    staking.stake_nft(USER, NFT, 1, 1, 0, CONTRACT).unwrap();
    assert_eq!(staking.stake_nft(USER, NFT, 1, 1, 0, CONTRACT), Err(ContractError::NftAlreadyStaked));
    assert_eq!(staking.get_user_stakes(USER), vec![(NFT, 1)]);
    let cfg = staking.get_collection_config(NFT).unwrap();
    assert_eq!((cfg.base_reward_rate, cfg.is_whitelisted, cfg.tiers.len()), (100, true, 0));
    assert!(staking.get_collection_config(9).is_none());
    let stats = staking.get_staking_stats().unwrap();
    assert_eq!(stats.total_nfts_staked, 1);
    assert_eq!(stats.total_stakers, 1);
}

#[test]
fn unstake_goes_through_cooldown() {
    let mut staking = setup();
    staking.add_reward_token(ADMIN, REWARD_TOKEN, 100_000, CONTRACT).unwrap();
    staking.add_whitelisted_collection(ADMIN, NFT, config(Vec::new())).unwrap();
    staking.set_cooldown_period(ADMIN, DAY).unwrap();
    staking.stake_nft(USER, NFT, 1, 1, 0, CONTRACT).unwrap();
    assert_eq!(staking.complete_unstake(USER, NFT, 1, 0, CONTRACT), Err(ContractError::StakeLocked));
    let t = 2 * DAY;
    staking.initiate_unstake(USER, NFT, 1, t, base_rewards(100, t)).unwrap();
    assert_eq!(
        staking.initiate_unstake(USER, NFT, 1, t, 0),
        Err(ContractError::CooldownNotElapsed)
    );
    assert_eq!(staking.complete_unstake(USER, NFT, 1, t + DAY - 1, CONTRACT), Err(ContractError::CooldownNotElapsed));
    let transfers = staking.complete_unstake(USER, NFT, 1, t + DAY, CONTRACT).unwrap();
    assert_eq!(
        transfers,
        vec![
            TokenTransfer { token: REWARD_TOKEN, from: CONTRACT, to: USER, amount: 200 },
            TokenTransfer { token: NFT, from: CONTRACT, to: USER, amount: 1 },
        ]
    );
    assert!(staking.get_stake_info(USER, NFT, 1, t + DAY, 0).unwrap().is_none());
    assert_eq!(staking.get_user_stakes(USER), Vec::<(u64, u64)>::new());
    assert_eq!(staking.get_staking_stats().unwrap().total_nfts_staked, 0);
    assert_eq!(staking.reward_tokens.get(&REWARD_TOKEN).unwrap().total_distributed, 200);
    assert_eq!(staking.get_staking_stats().unwrap().total_rewards_distributed.get(&REWARD_TOKEN), Some(&200));
}

#[test]
fn rewards_split_evenly_across_tokens() {
    let mut staking = setup();
    staking.add_reward_token(ADMIN, REWARD_TOKEN, 100_000, CONTRACT).unwrap();
    staking.add_reward_token(ADMIN, 6, 100_000, CONTRACT).unwrap();
    assert_eq!(staking.get_all_reward_tokens(), vec![REWARD_TOKEN, 6]);
    staking.add_whitelisted_collection(ADMIN, NFT, config(Vec::new())).unwrap();
    staking.stake_nft(USER, NFT, 1, 1, 0, CONTRACT).unwrap();
    let now = 3 * DAY;
    let pending = staking.calculate_pending_rewards(USER, NFT, 1, now, base_rewards(100, now)).unwrap();
    assert_eq!(amount_of(&pending, REWARD_TOKEN), Some(150));
    assert_eq!(amount_of(&pending, 6), Some(150));
    assert_eq!(staking.calculate_pending_rewards(9, NFT, 1, now, 0).unwrap_err(), ContractError::StakeNotFound);
}

#[test]
fn accrual_at_the_same_moment_adds_nothing() {
    let mut staking = setup();
    staking.add_reward_token(ADMIN, REWARD_TOKEN, 100_000, CONTRACT).unwrap();
    staking.add_whitelisted_collection(ADMIN, NFT, config(Vec::new())).unwrap();
    staking.stake_nft(USER, NFT, 1, 1, 0, CONTRACT).unwrap();
    let now = 2 * DAY;
    let info = staking.get_stake_info(USER, NFT, 1, now, base_rewards(100, now)).unwrap().unwrap();
    assert_eq!(info.last_claim_timestamp, now);
    assert_eq!(amount_of(&info.unclaimed_rewards, REWARD_TOKEN), Some(200));
    // Whatever base reward is offered, nothing more accrues at `now`.
    let again = staking.calculate_pending_rewards(USER, NFT, 1, now, 1_000_000).unwrap();
    assert_eq!(amount_of(&again, REWARD_TOKEN), Some(200));
}

#[test]
fn reward_overflow_is_refused() {
    let mut staking = setup();
    staking.add_reward_token(ADMIN, REWARD_TOKEN, 100_000, CONTRACT).unwrap();
    staking.add_whitelisted_collection(ADMIN, NFT, config(Vec::new())).unwrap();
    staking.stake_nft(USER, NFT, 1, 1, 0, CONTRACT).unwrap();
    assert_eq!(
        staking.calculate_pending_rewards(USER, NFT, 1, DAY, i128::MAX).unwrap_err(),
        ContractError::OverflowError
    );
    assert_eq!(
        staking.claim_rewards(USER, NFT, 1, DAY, i128::MAX, CONTRACT).unwrap_err(),
        ContractError::OverflowError
    );
}

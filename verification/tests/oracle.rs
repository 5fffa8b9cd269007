use soroban_contracts::oracle::{OracleContract, PriceSubmission};
use soroban_contracts::oracle_errors::{
    aggregation_failed, already_initialized, circuit_breaker_triggered, cooldown_active, feed_already_exists,
    feed_inactive, feed_not_found, insufficient_balance, insufficient_stake, invalid_input, invalid_price,
    no_active_providers, not_enough_sources, provider_already_exists, provider_inactive, provider_not_found,
    rate_limit_exceeded, stale_price, subscription_expired, unauthorized, update_too_early, OracleError,
};
use soroban_contracts::oracle_types::{OracleProvider, PriceEntry};
use soroban_contracts::price_aggregator::PriceAggregator;

const ADMIN: u64 = 1;
const TREASURY: u64 = 2;
const P1: u64 = 10;
const P2: u64 = 11;
const P3: u64 = 12;
const FEED: u64 = 100;

fn setup() -> OracleContract {
    let mut oracle = OracleContract::new();
    oracle.initialize(ADMIN, TREASURY).unwrap();
    for p in [P1, P2, P3] {
        oracle.register_provider(ADMIN, p, 0, true, 1_000, 500, 0).unwrap();
    }
    oracle
}

fn add_feed(oracle: &mut OracleContract, feed: u64, providers: Vec<u64>, min_interval: u64) {
    oracle
        .create_price_feed(
            ADMIN,
            feed,
            String::from("BTC"),
            String::from("Bitcoin in USD"),
            8,
            min_interval,
            300,
            1_000,
            providers,
            true,
            0,
        )
        .unwrap();
}

fn entry(price: i128, timestamp: u64) -> PriceEntry {
    PriceEntry { price, timestamp, provider: P1, provider_type: 0, block_number: 0 }
}

#[test]
fn initialization_and_admin_checks() {
    let mut oracle = OracleContract::new();
    assert_eq!(oracle.verify_admin(ADMIN), Err(OracleError::NotInitialized));
    assert_eq!(oracle.register_provider(ADMIN, P1, 0, true, 1, 0, 0), Err(OracleError::NotInitialized));
    oracle.initialize(ADMIN, TREASURY).unwrap();
    assert_eq!(oracle.initialize(ADMIN, TREASURY), Err(OracleError::AlreadyInitialized));
    assert_eq!(oracle.base_reward_rate, 100);
    assert_eq!(oracle.verify_admin(ADMIN), Ok(()));
    assert_eq!(oracle.verify_admin(P1), Err(unauthorized()));
}

#[test]
fn provider_registration() {
    let mut oracle = OracleContract::new();
    oracle.initialize(ADMIN, TREASURY).unwrap();
    assert_eq!(oracle.register_provider(ADMIN, P1, 2, true, 499, 500, 7), Err(OracleError::InsufficientStake));
    assert_eq!(oracle.register_provider(P2, P1, 2, true, 500, 500, 7), Err(OracleError::Unauthorized));
    oracle.register_provider(ADMIN, P1, 2, false, 500, 500, 7).unwrap();
    assert_eq!(oracle.register_provider(ADMIN, P1, 2, true, 500, 500, 7), Err(OracleError::ProviderAlreadyExists));
    assert_eq!(oracle.provider_count, 1);
    let p = oracle.providers.get(&P1).unwrap();
    assert_eq!((p.provider_type, p.is_primary, p.is_active, p.reputation_score), (2, false, true, 50));
    assert_eq!((p.staked_amount, p.created_at, p.total_updates), (500, 7, 0));
    let h = oracle.provider_health.get(&P1).unwrap();
    assert_eq!(h.availability_score, 1000);
}

#[test]
fn feed_creation() {
    let mut oracle = setup();
    assert_eq!(
        oracle.create_price_feed(ADMIN, FEED, String::new(), String::new(), 8, 60, 300, 1000, vec![P1], false, 0),
        Err(OracleError::InvalidInput)
    );
    add_feed(&mut oracle, FEED, vec![P1, P2], 60);
    assert_eq!(
        oracle.create_price_feed(ADMIN, FEED, String::new(), String::new(), 8, 60, 300, 1000, vec![P1, P2], false, 0),
        Err(OracleError::FeedAlreadyExists)
    );
    assert_eq!(oracle.feed_count, 1);
    let fb = oracle.fallback_configs.get(&FEED).unwrap();
    assert!(fb.enabled && !fb.using_fallback);
    assert_eq!((fb.primary_failure_threshold, fb.current_failures), (3, 0));
    assert_eq!(oracle.get_historical_prices(FEED, 10, true).unwrap().len(), 0);
}

#[test]
fn price_submission() {
    let mut oracle = setup();
    add_feed(&mut oracle, FEED, vec![P1, P2], 60);
    assert_eq!(oracle.submit_price(P1, FEED, 0, 1_000, 10, false, false), Err(OracleError::InvalidPrice));
    assert_eq!(oracle.submit_price(P1, 9, 5, 1_000, 10, false, false), Err(feed_not_found()));
    assert_eq!(oracle.submit_price(P3, FEED, 5, 1_000, 10, false, false), Err(OracleError::Unauthorized));
    assert_eq!(
        oracle.submit_price(P1, FEED, 50_000, 1_000, 10, false, false),
        Ok(PriceSubmission::Accepted { base_reward: 100, distribution_count: 0 })
    );
    assert_eq!(oracle.providers.get(&P1).unwrap().successful_updates, 1);
    assert_eq!(
        oracle.submit_price(P2, FEED, 50_100, 1_030, 11, false, false),
        Err(OracleError::UpdateTooEarly)
    );
    assert_eq!(
        oracle.submit_price(P2, FEED, 50_100, 1_060, 11, true, false),
        Err(OracleError::CircuitBreakerTriggered)
    );
    assert_eq!(
        oracle.submit_price(P2, FEED, 90_000, 1_060, 11, false, true),
        Ok(PriceSubmission::BreakerTripped { previous_price: 50_000 })
    );
    // The tripping report is stored but earns nothing.
    assert_eq!(oracle.providers.get(&P2).unwrap().successful_updates, 0);
    assert_eq!(oracle.latest_prices.get(&FEED).unwrap().price, 90_000);
    let history = oracle.get_historical_prices(FEED, 10, true).unwrap();
    assert_eq!(history.iter().map(|h| h.price).collect::<Vec<_>>(), vec![50_000, 90_000]);
    assert_eq!(history[1].block_number, 11);
    assert!(!history[1].aggregated);
}

#[test]
fn freshness() {
    let mut oracle = setup();
    add_feed(&mut oracle, FEED, vec![P1, P2], 60);
    assert_eq!(oracle.is_data_fresh(FEED, 0), Ok(false));
    assert_eq!(oracle.is_data_fresh(7, 0), Err(OracleError::FeedNotFound));
    oracle.submit_price(P1, FEED, 50_000, 1_000, 10, false, false).unwrap();
    assert_eq!(oracle.is_data_fresh(FEED, 1_000), Ok(true));
    assert_eq!(oracle.is_data_fresh(FEED, 1_300), Ok(true));
    assert_eq!(oracle.is_data_fresh(FEED, 1_301), Ok(false));
    assert_eq!(oracle.is_data_fresh(FEED, 999), Err(OracleError::ArithmeticOverflow));
}

#[test]
fn history_keeps_the_latest_thousand() {
    let mut oracle = setup();
    add_feed(&mut oracle, FEED, vec![P1, P2], 0);
    for i in 0..1001u64 {
        oracle.submit_price(P1, FEED, 1 + i as i128, 10 + i, 0, false, false).unwrap();
    }
    let all = oracle.get_historical_prices(FEED, 500, true).unwrap();
    assert_eq!(all.len(), 500);
    assert_eq!(all[499].price, 1001);
    assert_eq!(oracle.price_history.get(&FEED).unwrap().len(), 1000);
    assert_eq!(oracle.price_history.get(&FEED).unwrap()[0].price, 2);
    assert_eq!(oracle.get_historical_prices(FEED, 501, true), Err(OracleError::InvalidInput));
    assert_eq!(oracle.get_historical_prices(FEED, 5, false), Err(OracleError::RateLimitExceeded));
}

#[test]
fn aggregation_needs_two_sources() {
    let mut oracle = setup();
    add_feed(&mut oracle, FEED, vec![P1, P2], 60);
    oracle.submit_price(P1, FEED, 50_000, 1_000, 10, false, false).unwrap();
    // One report, no fallback providers: too few sources, and nothing is
    // recorded of the attempt.
    assert_eq!(oracle.get_aggregated_price(FEED, 1_010, true, false), Err(OracleError::NotEnoughSources));
    assert_eq!(oracle.fallback_configs.get(&FEED).unwrap().current_failures, 0);
    assert_eq!(oracle.get_aggregated_price(FEED, 1_010, false, false), Err(OracleError::RateLimitExceeded));
    assert_eq!(oracle.get_aggregated_price(FEED, 1_010, true, true), Err(OracleError::CircuitBreakerTriggered));
}

#[test]
fn aggregation_uses_fallback_providers() {
    let mut oracle = setup();
    add_feed(&mut oracle, FEED, vec![P1, P2], 60);
    assert_eq!(oracle.add_fallback_provider(P1, FEED, P2), Err(OracleError::Unauthorized));
    assert_eq!(oracle.add_fallback_provider(ADMIN, 9, P2), Err(OracleError::MissingRecord));
    oracle.add_fallback_provider(ADMIN, FEED, P2).unwrap();
    oracle.add_fallback_provider(ADMIN, FEED, P2).unwrap();
    assert_eq!(oracle.fallback_configs.get(&FEED).unwrap().fallback_providers, vec![P2]);
    oracle.submit_price(P2, FEED, 42_000, 1_000, 10, false, false).unwrap();
    let a = oracle.get_aggregated_price(FEED, 1_010, true, false).unwrap();
    assert_eq!((a.price, a.median_price, a.min_price, a.max_price), (42_000, 42_000, 42_000, 42_000));
    assert_eq!((a.sources_used, a.timestamp, a.is_fresh), (2, 1_000, true));
    let fb = oracle.fallback_configs.get(&FEED).unwrap();
    assert!(fb.using_fallback);
    assert_eq!(fb.current_failures, 1);
    // Stale by the time of the query.
    assert_eq!(oracle.get_aggregated_price(FEED, 1_301, true, false), Err(OracleError::NotEnoughSources));
}

#[test]
fn aggregation_without_fallback_resets_it() {
    let mut oracle = setup();
    add_feed(&mut oracle, FEED, vec![P1, P1, P2], 60);
    oracle.submit_price(P1, FEED, 7_000, 1_000, 10, false, false).unwrap();
    let a = oracle.get_aggregated_price(FEED, 1_000, true, false).unwrap();
    assert_eq!(a.price, 7_000);
    assert_eq!(a.sources_used, 2);
    let fb = oracle.fallback_configs.get(&FEED).unwrap();
    assert!(!fb.using_fallback);
    assert_eq!(fb.current_failures, 0);
}

#[test]
fn custom_data_feeds() {
    let mut oracle = setup();
    assert_eq!(
        oracle.create_custom_feed(P1, 5, String::from("d"), String::from("json"), 100, vec![P1]),
        Err(OracleError::Unauthorized)
    );
    oracle.create_custom_feed(ADMIN, 5, String::from("weather"), String::from("json"), 100, vec![P1]).unwrap();
    assert_eq!(
        oracle.create_custom_feed(ADMIN, 5, String::from("weather"), String::from("json"), 100, vec![P1]),
        Err(OracleError::FeedAlreadyExists)
    );
    assert_eq!(oracle.submit_custom_data(P2, 5, String::from("x"), 2_000, 1), Err(OracleError::Unauthorized));
    assert_eq!(oracle.submit_custom_data(P1, 6, String::from("x"), 2_000, 1), Err(OracleError::FeedNotFound));
    assert!(oracle.get_custom_data(5, 50, true).unwrap().is_none());
    oracle.submit_custom_data(P1, 5, String::from("sunny"), 2_000, 1).unwrap();
    oracle.submit_custom_data(P1, 5, String::from("rain"), 2_010, 2).unwrap();
    let latest = oracle.get_custom_data(5, 2_050, true).unwrap().unwrap();
    assert_eq!((latest.data.as_str(), latest.timestamp, latest.provider, latest.block_number), ("rain", 2_010, P1, 2));
    assert_eq!(oracle.custom_feeds.get(&5).unwrap().last_update, 2_010);
    assert_eq!(oracle.get_custom_data(5, 2_111, true).err(), Some(stale_price()));
    assert_eq!(oracle.get_custom_data(5, 2_009, true).err(), Some(OracleError::ArithmeticOverflow));
    assert_eq!(oracle.get_custom_data(5, 2_050, false).err(), Some(OracleError::RateLimitExceeded));
}

#[test]
fn custom_history_keeps_the_latest_five_hundred() {
    let mut oracle = setup();
    oracle.create_custom_feed(ADMIN, 5, String::from("w"), String::from("n"), 100, vec![P1]).unwrap();
    for i in 0..501u64 {
        oracle.submit_custom_data(P1, 5, format!("{}", i), i, 0).unwrap();
    }
    let h = oracle.custom_data.get(&5).unwrap();
    assert_eq!(h.len(), 500);
    assert_eq!(h[0].data, "1");
    assert_eq!(h[499].data, "500");
}

#[test]
fn median_aggregation() {
    let odd = vec![entry(300, 100), entry(100, 100), entry(200, 90)];
    let a = PriceAggregator::aggregate_prices(&odd, 2, 60, 100).unwrap();
    assert_eq!((a.price, a.min_price, a.max_price, a.sources_used, a.timestamp), (200, 100, 300, 3, 100));
    assert!(a.is_fresh);
    let even = vec![entry(100, 100), entry(201, 100)];
    assert_eq!(PriceAggregator::aggregate_prices(&even, 2, 60, 100).unwrap().price, 150);
    let with_stale = vec![entry(100, 100), entry(200, 100), entry(900, 10)];
    let b = PriceAggregator::aggregate_prices(&with_stale, 2, 60, 100).unwrap();
    assert_eq!((b.price, b.sources_used, b.is_fresh), (150, 2, false));
    assert_eq!(
        PriceAggregator::aggregate_prices(&vec![entry(1, 100)], 2, 60, 100),
        Err(OracleError::NotEnoughSources)
    );
    assert_eq!(
        PriceAggregator::aggregate_prices(&vec![entry(1, 100), entry(2, 101)], 2, 60, 100),
        Err(OracleError::ArithmeticOverflow)
    );
}

#[test]
fn outliers_are_removed() {
    let prices = vec![entry(100, 0), entry(1000, 0), entry(101, 0), entry(102, 0), entry(103, 0)];
    let kept = PriceAggregator::remove_outliers(prices).unwrap();
    assert_eq!(kept.iter().map(|e| e.price).collect::<Vec<_>>(), vec![100, 101, 102, 103]);
    let few = vec![entry(1, 0), entry(1_000_000, 0), entry(5, 0)];
    assert_eq!(PriceAggregator::remove_outliers(few.clone()).unwrap(), few);
}

#[test]
fn weighted_and_divergence() {
    let pairs = vec![(entry(100, 50), 1u32), (entry(200, 50), 3u32)];
    let w = PriceAggregator::weighted_aggregate(&pairs, 2, 60, 50).unwrap();
    assert_eq!((w.price, w.min_price, w.max_price, w.sources_used), (175, 100, 200, 2));
    let spread = vec![entry(100, 0), entry(110, 0)];
    assert_eq!(PriceAggregator::validate_price_divergence(&spread, 1000), Ok(true));
    assert_eq!(PriceAggregator::validate_price_divergence(&spread, 999), Ok(false));
    assert_eq!(PriceAggregator::validate_price_divergence(&vec![entry(5, 0)], 0), Ok(true));
    assert_eq!(PriceAggregator::validate_price_divergence(&vec![entry(0, 0), entry(5, 0)], 10_000), Ok(false));
}

#[test]
fn error_symbols() {
    assert_eq!(OracleError::StalePrice.symbol(), "stale_price");
    assert_eq!(stale_price(), OracleError::StalePrice);
    assert_eq!(unauthorized().symbol(), "unauthorized");
}

#[test]
fn error_constructors_name_their_errors() {
    let all = [
        (already_initialized(), OracleError::AlreadyInitialized, "already_init"),
        (unauthorized(), OracleError::Unauthorized, "unauthorized"),
        (provider_not_found(), OracleError::ProviderNotFound, "provider_not_found"),
        (provider_already_exists(), OracleError::ProviderAlreadyExists, "provider_exists"),
        (feed_not_found(), OracleError::FeedNotFound, "feed_not_found"),
        (feed_already_exists(), OracleError::FeedAlreadyExists, "feed_exists"),
        (stale_price(), OracleError::StalePrice, "stale_price"),
        (circuit_breaker_triggered(), OracleError::CircuitBreakerTriggered, "circuit_breaker"),
        (rate_limit_exceeded(), OracleError::RateLimitExceeded, "rate_limit"),
        (insufficient_stake(), OracleError::InsufficientStake, "insufficient_stake"),
        (invalid_price(), OracleError::InvalidPrice, "invalid_price"),
        (update_too_early(), OracleError::UpdateTooEarly, "update_early"),
        (no_active_providers(), OracleError::NoActiveProviders, "no_providers"),
        (aggregation_failed(), OracleError::AggregationFailed, "agg_fail"),
        (subscription_expired(), OracleError::SubscriptionExpired, "sub_expired"),
        (invalid_input(), OracleError::InvalidInput, "invalid_input"),
        (not_enough_sources(), OracleError::NotEnoughSources, "not_enough_sources"),
        (provider_inactive(), OracleError::ProviderInactive, "provider_inactive"),
        (feed_inactive(), OracleError::FeedInactive, "feed_inactive"),
        (cooldown_active(), OracleError::CooldownActive, "cooldown"),
        (insufficient_balance(), OracleError::InsufficientBalance, "insufficient_balance"),
    ];
    for (made, variant, symbol) in all {
        assert_eq!(made, variant);
        assert_eq!(made.symbol(), symbol);
    }
}

#[test]
fn inactive_or_unknown_parties_are_refused() {
    let mut oracle = setup();
    add_feed(&mut oracle, FEED, vec![P1, P2, 99], 60);
    assert_eq!(oracle.submit_price(99, FEED, 5, 1_000, 1, false, false), Err(OracleError::ProviderNotFound));
    let p1 = *oracle.providers.get(&P1).unwrap();
    oracle.providers.set(P1, OracleProvider { is_active: false, ..p1 });
    assert_eq!(oracle.submit_price(P1, FEED, 5, 1_000, 1, false, false), Err(OracleError::ProviderInactive));
    let mut feed = oracle.feeds.get(&FEED).unwrap().clone();
    feed.is_active = false;
    oracle.feeds.set(FEED, feed);
    assert_eq!(oracle.submit_price(P2, FEED, 5, 1_000, 1, false, false), Err(OracleError::FeedInactive));
    assert_eq!(oracle.get_aggregated_price(FEED, 1_000, true, false), Err(OracleError::FeedInactive));
}

#[test]
fn aggregating_nothing_fails() {
    assert_eq!(PriceAggregator::aggregate_prices(&Vec::new(), 0, 60, 100), Err(OracleError::AggregationFailed));
    assert_eq!(PriceAggregator::weighted_aggregate(&Vec::new(), 0, 60, 100), Err(OracleError::AggregationFailed));
}

#[test]
fn distribution_counter_is_recorded() {
    let mut oracle = setup();
    add_feed(&mut oracle, FEED, vec![P1, P2], 60);
    oracle.record_distribution(7);
    assert_eq!(
        oracle.submit_price(P1, FEED, 50_000, 1_000, 10, false, false),
        Ok(PriceSubmission::Accepted { base_reward: 100, distribution_count: 7 })
    );
}

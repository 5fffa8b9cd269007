//! Records kept by the price oracle.

use vstd::prelude::*;
use crate::AccountId;

verus! {

/// A price report from one provider.
#[derive(Clone, Copy, Debug, PartialEq, Eq, Structural)]
pub struct PriceEntry {
    pub price: i128,
    pub timestamp: u64,
    pub provider: AccountId,
    /// The kind of source the provider is, by its numeric code.
    pub provider_type: u32,
    pub block_number: u32,
}

/// The result of combining several price reports.
#[derive(Clone, Copy, Debug, PartialEq, Eq, Structural)]
pub struct AggregatedPrice {
    pub price: i128,
    pub timestamp: u64,
    pub sources_used: u32,
    pub min_price: i128,
    pub max_price: i128,
    pub median_price: i128,
    pub is_fresh: bool,
}

/// An entry of a feed's price history.
#[derive(Clone, Copy, Debug, PartialEq, Eq, Structural)]
pub struct HistoricalPrice {
    pub price: i128,
    pub timestamp: u64,
    pub block_number: u32,
    pub aggregated: bool,
}

/// A registered price provider.
#[derive(Clone, Copy, Debug, PartialEq, Eq, Structural)]
pub struct OracleProvider {
    pub address: AccountId,
    pub provider_type: u32,
    pub is_primary: bool,
    pub is_active: bool,
    pub reputation_score: u32,
    pub total_updates: u64,
    pub successful_updates: u64,
    pub staked_amount: i128,
    pub created_at: u64,
}

/// Health tracking for a provider.
#[derive(Clone, Copy, Debug, PartialEq, Eq, Structural)]
pub struct ProviderHealth {
    pub provider: AccountId,
    pub consecutive_failures: u32,
    pub last_successful_update: u64,
    pub price_deviation_count: u32,
    pub availability_score: u32,
}

/// A price feed and its parameters.
#[derive(Clone, Debug)]
pub struct PriceFeed {
    pub feed_id: u64,
    pub asset_symbol: String,
    pub description: String,
    pub decimals: u32,
    pub min_update_interval: u64,
    pub max_staleness: u64,
    pub is_active: bool,
    pub circuit_breaker_enabled: bool,
    pub max_price_change_bps: u32,
    pub providers: Vec<AccountId>,
    pub created_at: u64,
}

/// Fallback provider configuration of a feed.
#[derive(Clone, Debug)]
pub struct FallbackConfig {
    pub enabled: bool,
    pub fallback_providers: Vec<AccountId>,
    pub primary_failure_threshold: u32,
    pub current_failures: u32,
    pub using_fallback: bool,
}

/// A feed of arbitrary (non-price) data.
#[derive(Clone, Debug)]
pub struct CustomDataFeed {
    pub feed_id: u64,
    pub description: String,
    pub data_type: String,
    pub is_active: bool,
    pub authorized_providers: Vec<AccountId>,
    pub last_update: u64,
    pub max_staleness: u64,
}

/// An entry of a custom data feed.
#[derive(Clone, Debug)]
pub struct CustomDataEntry {
    pub data: String,
    pub timestamp: u64,
    pub provider: AccountId,
    pub block_number: u32,
}

} // verus!

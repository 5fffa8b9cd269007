//! The oracle's error conditions and the symbols that name them.

use vstd::prelude::*;

verus! {

/// Why an oracle entry point refused to act.
#[derive(Clone, Copy, Debug, PartialEq, Eq, Structural)]
pub enum OracleError {
    AlreadyInitialized,
    Unauthorized,
    ProviderNotFound,
    ProviderAlreadyExists,
    FeedNotFound,
    FeedAlreadyExists,
    StalePrice,
    CircuitBreakerTriggered,
    RateLimitExceeded,
    InsufficientStake,
    InvalidPrice,
    UpdateTooEarly,
    NoActiveProviders,
    AggregationFailed,
    SubscriptionExpired,
    InvalidInput,
    NotEnoughSources,
    ProviderInactive,
    FeedInactive,
    CooldownActive,
    InsufficientBalance,
    /// A computation left the range of its integer type.
    ArithmeticOverflow,
    /// The admin has not been set.
    NotInitialized,
    /// A record that the contract keeps alongside a feed is missing.
    MissingRecord,
}

/// The symbol under which each error is reported.
pub open spec fn error_symbol(e: OracleError) -> Seq<char> {
    match e {
        OracleError::AlreadyInitialized => "already_init"@,
        OracleError::Unauthorized => "unauthorized"@,
        OracleError::ProviderNotFound => "provider_not_found"@,
        OracleError::ProviderAlreadyExists => "provider_exists"@,
        OracleError::FeedNotFound => "feed_not_found"@,
        OracleError::FeedAlreadyExists => "feed_exists"@,
        OracleError::StalePrice => "stale_price"@,
        OracleError::CircuitBreakerTriggered => "circuit_breaker"@,
        OracleError::RateLimitExceeded => "rate_limit"@,
        OracleError::InsufficientStake => "insufficient_stake"@,
        OracleError::InvalidPrice => "invalid_price"@,
        OracleError::UpdateTooEarly => "update_early"@,
        OracleError::NoActiveProviders => "no_providers"@,
        OracleError::AggregationFailed => "agg_fail"@,
        OracleError::SubscriptionExpired => "sub_expired"@,
        OracleError::InvalidInput => "invalid_input"@,
        OracleError::NotEnoughSources => "not_enough_sources"@,
        OracleError::ProviderInactive => "provider_inactive"@,
        OracleError::FeedInactive => "feed_inactive"@,
        OracleError::CooldownActive => "cooldown"@,
        OracleError::InsufficientBalance => "insufficient_balance"@,
        OracleError::ArithmeticOverflow => "overflow"@,
        OracleError::NotInitialized => "not_init"@,
        OracleError::MissingRecord => "missing_record"@,
    }
}

impl OracleError {
    /// The symbol under which the error is reported.
    pub fn symbol(&self) -> (r: &'static str)
        ensures
            r@ == error_symbol(*self),
    {
        match self {
            OracleError::AlreadyInitialized => "already_init",
            OracleError::Unauthorized => "unauthorized",
            OracleError::ProviderNotFound => "provider_not_found",
            OracleError::ProviderAlreadyExists => "provider_exists",
            OracleError::FeedNotFound => "feed_not_found",
            OracleError::FeedAlreadyExists => "feed_exists",
            OracleError::StalePrice => "stale_price",
            OracleError::CircuitBreakerTriggered => "circuit_breaker",
            OracleError::RateLimitExceeded => "rate_limit",
            OracleError::InsufficientStake => "insufficient_stake",
            OracleError::InvalidPrice => "invalid_price",
            OracleError::UpdateTooEarly => "update_early",
            OracleError::NoActiveProviders => "no_providers",
            OracleError::AggregationFailed => "agg_fail",
            OracleError::SubscriptionExpired => "sub_expired",
            OracleError::InvalidInput => "invalid_input",
            OracleError::NotEnoughSources => "not_enough_sources",
            OracleError::ProviderInactive => "provider_inactive",
            OracleError::FeedInactive => "feed_inactive",
            OracleError::CooldownActive => "cooldown",
            OracleError::InsufficientBalance => "insufficient_balance",
            OracleError::ArithmeticOverflow => "overflow",
            OracleError::NotInitialized => "not_init",
            OracleError::MissingRecord => "missing_record",
        }
    }
}


/// The `AlreadyInitialized` error, which the entry points return where the contract
/// stops with that error.
pub fn already_initialized() -> (e: OracleError)
    ensures
        e == OracleError::AlreadyInitialized,
{
    OracleError::AlreadyInitialized
}

/// The `Unauthorized` error, which the entry points return where the contract
/// stops with that error.
pub fn unauthorized() -> (e: OracleError)
    ensures
        e == OracleError::Unauthorized,
{
    OracleError::Unauthorized
}

/// The `ProviderNotFound` error, which the entry points return where the contract
/// stops with that error.
pub fn provider_not_found() -> (e: OracleError)
    ensures
        e == OracleError::ProviderNotFound,
{
    OracleError::ProviderNotFound
}

/// The `ProviderAlreadyExists` error, which the entry points return where the contract
/// stops with that error.
pub fn provider_already_exists() -> (e: OracleError)
    ensures
        e == OracleError::ProviderAlreadyExists,
{
    OracleError::ProviderAlreadyExists
}

/// The `FeedNotFound` error, which the entry points return where the contract
/// stops with that error.
pub fn feed_not_found() -> (e: OracleError)
    ensures
        e == OracleError::FeedNotFound,
{
    OracleError::FeedNotFound
}

/// The `FeedAlreadyExists` error, which the entry points return where the contract
/// stops with that error.
pub fn feed_already_exists() -> (e: OracleError)
    ensures
        e == OracleError::FeedAlreadyExists,
{
    OracleError::FeedAlreadyExists
}

/// The `StalePrice` error, which the entry points return where the contract
/// stops with that error.
pub fn stale_price() -> (e: OracleError)
    ensures
        e == OracleError::StalePrice,
{
    OracleError::StalePrice
}

/// The `CircuitBreakerTriggered` error, which the entry points return where the contract
/// stops with that error.
pub fn circuit_breaker_triggered() -> (e: OracleError)
    ensures
        e == OracleError::CircuitBreakerTriggered,
{
    OracleError::CircuitBreakerTriggered
}

/// The `RateLimitExceeded` error, which the entry points return where the contract
/// stops with that error.
pub fn rate_limit_exceeded() -> (e: OracleError)
    ensures
        e == OracleError::RateLimitExceeded,
{
    OracleError::RateLimitExceeded
}

/// The `InsufficientStake` error, which the entry points return where the contract
/// stops with that error.
pub fn insufficient_stake() -> (e: OracleError)
    ensures
        e == OracleError::InsufficientStake,
{
    OracleError::InsufficientStake
}

/// The `InvalidPrice` error, which the entry points return where the contract
/// stops with that error.
pub fn invalid_price() -> (e: OracleError)
    ensures
        e == OracleError::InvalidPrice,
{
    OracleError::InvalidPrice
}

/// The `UpdateTooEarly` error, which the entry points return where the contract
/// stops with that error.
pub fn update_too_early() -> (e: OracleError)
    ensures
        e == OracleError::UpdateTooEarly,
{
    OracleError::UpdateTooEarly
}

/// The `NoActiveProviders` error, which the entry points return where the contract
/// stops with that error.
pub fn no_active_providers() -> (e: OracleError)
    ensures
        e == OracleError::NoActiveProviders,
{
    OracleError::NoActiveProviders
}

/// The `AggregationFailed` error, which the entry points return where the contract
/// stops with that error.
pub fn aggregation_failed() -> (e: OracleError)
    ensures
        e == OracleError::AggregationFailed,
{
    OracleError::AggregationFailed
}

/// The `SubscriptionExpired` error, which the entry points return where the contract
/// stops with that error.
pub fn subscription_expired() -> (e: OracleError)
    ensures
        e == OracleError::SubscriptionExpired,
{
    OracleError::SubscriptionExpired
}

/// The `InvalidInput` error, which the entry points return where the contract
/// stops with that error.
pub fn invalid_input() -> (e: OracleError)
    ensures
        e == OracleError::InvalidInput,
{
    OracleError::InvalidInput
}

/// The `NotEnoughSources` error, which the entry points return where the contract
/// stops with that error.
pub fn not_enough_sources() -> (e: OracleError)
    ensures
        e == OracleError::NotEnoughSources,
{
    OracleError::NotEnoughSources
}

/// The `ProviderInactive` error, which the entry points return where the contract
/// stops with that error.
pub fn provider_inactive() -> (e: OracleError)
    ensures
        e == OracleError::ProviderInactive,
{
    OracleError::ProviderInactive
}

/// The `FeedInactive` error, which the entry points return where the contract
/// stops with that error.
pub fn feed_inactive() -> (e: OracleError)
    ensures
        e == OracleError::FeedInactive,
{
    OracleError::FeedInactive
}

/// The `CooldownActive` error, which the entry points return where the contract
/// stops with that error.
pub fn cooldown_active() -> (e: OracleError)
    ensures
        e == OracleError::CooldownActive,
{
    OracleError::CooldownActive
}

/// The `InsufficientBalance` error, which the entry points return where the contract
/// stops with that error.
pub fn insufficient_balance() -> (e: OracleError)
    ensures
        e == OracleError::InsufficientBalance,
{
    OracleError::InsufficientBalance
}

} // verus!

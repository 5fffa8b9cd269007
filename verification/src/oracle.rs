//! The price oracle contract: providers, price feeds, custom data feeds and
//! the aggregation of reported prices.
//!
//! The circuit breaker, the query rate limiter and the incentive ledger are
//! services of their own; their verdicts reach these transitions as
//! arguments, and what they are owed comes back in the results.

use vstd::prelude::*;
use crate::AccountId;
use crate::kv::KeyedStore;
use crate::oracle_errors::OracleError;
use crate::oracle_types::{
    AggregatedPrice,
    CustomDataEntry,
    CustomDataFeed,
    FallbackConfig,
    HistoricalPrice,
    OracleProvider,
    PriceEntry,
    PriceFeed,
    ProviderHealth,
};
use crate::price_aggregator::{aggregate_outcome, outliers_outcome, PriceAggregator};

verus! {

/// How many price reports a feed's history keeps.
pub const PRICE_HISTORY_CAP: usize = 1000;

/// How many entries a custom data feed keeps.
pub const CUSTOM_HISTORY_CAP: usize = 500;

/// The largest number of history entries a query may ask for.
pub const HISTORY_QUERY_LIMIT: u32 = 500;

/// The reward rate a freshly initialised oracle pays per accepted report.
pub const DEFAULT_BASE_REWARD: i128 = 100;

/// The reputation a provider starts with.
pub const INITIAL_REPUTATION: u32 = 50;

/// The availability score a provider starts with.
pub const INITIAL_AVAILABILITY: u32 = 1000;

/// How many primary failures a feed tolerates before its fallback.
pub const FALLBACK_FAILURE_THRESHOLD: u32 = 3;

/// Whether `a` occurs in `v`.
pub fn contains_account(v: &Vec<AccountId>, a: AccountId) -> (r: bool)
    ensures
        r == v@.contains(a),
{
    let mut i: usize = 0;
    while i < v.len()
        invariant
            i <= v@.len(),
            forall|j: int| 0 <= j < i ==> v@[j] != a,
        decreases v@.len() - i,
    {
        if v[i] == a {
            assert(v@[i as int] == a);
            return true;
        }
        i = i + 1;
    }
    false
}

/// `h` with `e` appended, the oldest entry dropped first where `h` already
/// holds `cap` entries or more.
pub open spec fn appended_capped<T>(h: Seq<T>, e: T, cap: nat) -> Seq<T> {
    if h.len() >= cap {
        h.drop_first().push(e)
    } else {
        h.push(e)
    }
}

/// Appends `e` to `h`, first dropping the oldest entry where `h` already
/// holds `cap` entries or more.
pub fn append_capped<T>(h: &mut Vec<T>, e: T, cap: usize)
    requires
        cap > 0,
    ensures
        final(h)@ == appended_capped(old(h)@, e, cap as nat),
{
    if h.len() >= cap {
        h.remove(0);
    }
    h.push(e);
}

/// The entries of `history` from position `start` on, in order.
pub fn history_from(history: &Vec<HistoricalPrice>, start: usize) -> (r: Vec<HistoricalPrice>)
    requires
        start <= history@.len(),
    ensures
        r@ == history@.subrange(start as int, history@.len() as int),
{
    let mut out: Vec<HistoricalPrice> = Vec::new();
    let mut i: usize = start;
    while i < history.len()
        invariant
            start <= i <= history@.len(),
            out@ == history@.subrange(start as int, i as int),
        decreases history@.len() - i,
    {
        out.push(history[i]);
        assert(history@.subrange(start as int, i + 1) =~= history@.subrange(start as int, i as int).push(
            history@[i as int],
        ));
        i = i + 1;
    }
    out
}

/// The reports of `latest` that come from the accounts of `accounts`: the
/// latest report once for each time its provider occurs there.
pub open spec fn reports_from(accounts: Seq<AccountId>, latest: Option<PriceEntry>) -> Seq<PriceEntry> {
    accounts.filter(|a: AccountId| latest matches Some(e) && e.provider == a).map_values(|a: AccountId| latest.unwrap())
}

/// The latest report, once for each occurrence of its provider in
/// `accounts`.
pub fn collect_reports(accounts: &Vec<AccountId>, latest: Option<PriceEntry>) -> (r: Vec<PriceEntry>)
    ensures
        r@ == reports_from(accounts@, latest),
{
    let ghost keep = |a: AccountId| latest matches Some(e) && e.provider == a;
    let ghost pick = |a: AccountId| latest.unwrap();
    let mut out: Vec<PriceEntry> = Vec::new();
    let mut j: usize = 0;
    while j < accounts.len()
        invariant
            j <= accounts@.len(),
            out@ == accounts@.take(j as int).filter(keep).map_values(pick),
            keep == (|a: AccountId| latest matches Some(e) && e.provider == a),
            pick == (|a: AccountId| latest.unwrap()),
        decreases accounts@.len() - j,
    {
        let a = accounts[j];
        proof {
            reveal_with_fuel(Seq::filter, 1);
            assert(accounts@.take(j + 1).drop_last() =~= accounts@.take(j as int));
        }
        match latest {
            Some(e) => {
                if e.provider == a {
                    out.push(e);
                }
            },
            None => {},
        }
        proof {
            assert(out@ =~= accounts@.take(j + 1).filter(keep).map_values(pick));
        }
        j = j + 1;
    }
    assert(accounts@.take(accounts@.len() as int) =~= accounts@);
    out
}

/// A copy of a fallback configuration with a new state.
pub fn fallback_with(fb: &FallbackConfig, using_fallback: bool, current_failures: u32) -> (r: FallbackConfig)
    ensures
        r.enabled == fb.enabled,
        r.fallback_providers@ == fb.fallback_providers@,
        r.primary_failure_threshold == fb.primary_failure_threshold,
        r.using_fallback == using_fallback,
        r.current_failures == current_failures,
{
    let providers = fb.fallback_providers.clone();
    assert(providers@ =~= fb.fallback_providers@);
    FallbackConfig {
        enabled: fb.enabled,
        fallback_providers: providers,
        primary_failure_threshold: fb.primary_failure_threshold,
        current_failures,
        using_fallback,
    }
}

/// The last `limit` entries of `h`, or all of them where there are fewer.
pub open spec fn most_recent<T>(h: Seq<T>, limit: nat) -> Seq<T> {
    if h.len() > limit {
        h.subrange(h.len() - limit, h.len() as int)
    } else {
        h
    }
}

impl CustomDataEntry {
    /// A copy of the entry.
    pub fn duplicate(&self) -> (r: CustomDataEntry)
        ensures
            r == *self,
    {
        CustomDataEntry {
            data: self.data.clone(),
            timestamp: self.timestamp,
            provider: self.provider,
            block_number: self.block_number,
        }
    }
}

impl CustomDataFeed {
    /// A copy of the feed with `last_update` set to `now`.
    pub fn touched(&self, now: u64) -> (r: CustomDataFeed)
        ensures
            r == (CustomDataFeed { authorized_providers: r.authorized_providers, last_update: now, ..*self }),
            r.authorized_providers@ == self.authorized_providers@,
    {
        let providers = self.authorized_providers.clone();
        assert(providers@ =~= self.authorized_providers@);
        CustomDataFeed {
            feed_id: self.feed_id,
            description: self.description.clone(),
            data_type: self.data_type.clone(),
            is_active: self.is_active,
            authorized_providers: providers,
            last_update: now,
            max_staleness: self.max_staleness,
        }
    }
}

/// A copy of a custom data history.
pub fn copy_entries(v: &Vec<CustomDataEntry>) -> (r: Vec<CustomDataEntry>)
    ensures
        r@ == v@,
{
    let mut out: Vec<CustomDataEntry> = Vec::new();
    let mut i: usize = 0;
    while i < v.len()
        invariant
            i <= v@.len(),
            out@ == v@.take(i as int),
        decreases v@.len() - i,
    {
        out.push(v[i].duplicate());
        assert(v@.take(i + 1) =~= v@.take(i as int).push(v@[i as int]));
        i = i + 1;
    }
    assert(v@.take(v@.len() as int) =~= v@);
    out
}

/// What `submit_price` leaves to the circuit breaker and the incentive
/// ledger.
#[derive(Clone, Copy, Debug, PartialEq, Eq, Structural)]
pub enum PriceSubmission {
    /// The report moved the price far enough to trip the circuit breaker:
    /// it is stored, the breaker is to be tripped and the provider's
    /// failure recorded.
    BreakerTripped { previous_price: i128 },
    /// The report was accepted: the provider's success is to be recorded
    /// and `base_reward` distributed under the distribution counter.
    Accepted { base_reward: i128, distribution_count: u64 },
}

/// The oracle's state.
pub struct OracleContract {
    pub admin: Option<AccountId>,
    pub treasury: Option<AccountId>,
    pub provider_count: u64,
    pub feed_count: u64,
    /// The counter under which the incentive ledger numbers its payouts.
    pub distribution_count: u64,
    pub base_reward_rate: i128,
    pub providers: KeyedStore<AccountId, OracleProvider>,
    pub provider_health: KeyedStore<AccountId, ProviderHealth>,
    pub feeds: KeyedStore<u64, PriceFeed>,
    pub latest_prices: KeyedStore<u64, PriceEntry>,
    pub price_history: KeyedStore<u64, Vec<HistoricalPrice>>,
    pub fallback_configs: KeyedStore<u64, FallbackConfig>,
    pub custom_feeds: KeyedStore<u64, CustomDataFeed>,
    pub custom_data: KeyedStore<u64, Vec<CustomDataEntry>>,
}

impl OracleContract {
    /// Every store holds each key once.
    pub open spec fn wf(&self) -> bool {
        &&& self.providers.wf()
        &&& self.provider_health.wf()
        &&& self.feeds.wf()
        &&& self.latest_prices.wf()
        &&& self.price_history.wf()
        &&& self.fallback_configs.wf()
        &&& self.custom_feeds.wf()
        &&& self.custom_data.wf()
    }

    /// The latest report of a feed, if any.
    pub open spec fn latest_of(&self, feed_id: u64) -> Option<PriceEntry> {
        if self.latest_prices.view().contains_key(feed_id) {
            Some(self.latest_prices.view()[feed_id])
        } else {
            None
        }
    }

    /// The price history of a feed; none reads as empty.
    pub open spec fn history_of(&self, feed_id: u64) -> Seq<HistoricalPrice> {
        if self.price_history.view().contains_key(feed_id) {
            self.price_history.view()[feed_id]@
        } else {
            Seq::empty()
        }
    }

    /// Why `verify_admin` refuses `caller`, if it does.
    pub open spec fn admin_error(&self, caller: AccountId) -> Option<OracleError> {
        match self.admin {
            None => Some(OracleError::NotInitialized),
            Some(a) => if a == caller {
                None
            } else {
                Some(OracleError::Unauthorized)
            },
        }
    }

    /// An oracle with nothing set.
    pub fn new() -> (s: Self)
        ensures
            s.wf(),
            s.admin.is_none(),
            s.treasury.is_none(),
            s.provider_count == 0,
            s.feed_count == 0,
            s.distribution_count == 0,
            s.base_reward_rate == DEFAULT_BASE_REWARD,
            s.providers.view().is_empty(),
            s.provider_health.view().is_empty(),
            s.feeds.view().is_empty(),
            s.latest_prices.view().is_empty(),
            s.price_history.view().is_empty(),
            s.fallback_configs.view().is_empty(),
            s.custom_feeds.view().is_empty(),
            s.custom_data.view().is_empty(),
    {
        OracleContract {
            admin: None,
            treasury: None,
            provider_count: 0,
            feed_count: 0,
            distribution_count: 0,
            base_reward_rate: DEFAULT_BASE_REWARD,
            providers: KeyedStore::new(),
            provider_health: KeyedStore::new(),
            feeds: KeyedStore::new(),
            latest_prices: KeyedStore::new(),
            price_history: KeyedStore::new(),
            fallback_configs: KeyedStore::new(),
            custom_feeds: KeyedStore::new(),
            custom_data: KeyedStore::new(),
        }
    }

    /// Sets the admin and treasury; the counters start at zero and the base
    /// reward at its default.  Refused once an admin is set.
    pub fn initialize(&mut self, admin: AccountId, treasury: AccountId) -> (r: Result<(), OracleError>)
        requires
            old(self).wf(),
        ensures
            final(self).wf(),
            r is Ok <==> old(self).admin.is_none(),
            r matches Err(e) ==> e == OracleError::AlreadyInitialized,
            r is Err ==> *final(self) == *old(self),
            r is Ok ==> *final(self) == (OracleContract {
                admin: Some(admin),
                treasury: Some(treasury),
                provider_count: 0,
                feed_count: 0,
                distribution_count: 0,
                base_reward_rate: DEFAULT_BASE_REWARD,
                ..*old(self)
            }),
    {
        if self.admin.is_some() {
            return Err(OracleError::AlreadyInitialized);
        }
        self.admin = Some(admin);
        self.treasury = Some(treasury);
        self.provider_count = 0;
        self.feed_count = 0;
        self.distribution_count = 0;
        self.base_reward_rate = DEFAULT_BASE_REWARD;
        Ok(())
    }

    /// Succeeds exactly when `caller` is the admin.
    pub fn verify_admin(&self, caller: AccountId) -> (r: Result<(), OracleError>)
        ensures
            match self.admin_error(caller) {
                None => r is Ok,
                Some(e) => r == Err::<(), OracleError>(e),
            },
    {
        match self.admin {
            None => Err(OracleError::NotInitialized),
            Some(a) => if a == caller {
                Ok(())
            } else {
                Err(OracleError::Unauthorized)
            },
        }
    }

    /// Why `register_provider` refuses, if it does.
    pub open spec fn register_error(
        &self,
        admin: AccountId,
        provider_address: AccountId,
        stake_amount: i128,
        min_stake: i128,
    ) -> Option<OracleError> {
        if self.admin_error(admin) is Some {
            self.admin_error(admin)
        } else if stake_amount < min_stake {
            Some(OracleError::InsufficientStake)
        } else if self.providers.view().contains_key(provider_address) {
            Some(OracleError::ProviderAlreadyExists)
        } else if self.provider_count == u64::MAX {
            Some(OracleError::ArithmeticOverflow)
        } else {
            None
        }
    }

    /// Registers an active provider with a middling reputation and a full
    /// availability score, and counts it.
    pub fn register_provider(
        &mut self,
        admin: AccountId,
        provider_address: AccountId,
        provider_type: u32,
        is_primary: bool,
        stake_amount: i128,
        min_stake: i128,
        now: u64,
    ) -> (r: Result<(), OracleError>)
        requires
            old(self).wf(),
        ensures
            final(self).wf(),
            r is Ok <==> old(self).register_error(admin, provider_address, stake_amount, min_stake) is None,
            r matches Err(e) ==> old(self).register_error(admin, provider_address, stake_amount, min_stake) == Some(e),
            r is Err ==> *final(self) == *old(self),
            r is Ok ==> {
                &&& final(self).providers.view() == old(self).providers.view().insert(
                    provider_address,
                    OracleProvider {
                        address: provider_address,
                        provider_type,
                        is_primary,
                        is_active: true,
                        reputation_score: INITIAL_REPUTATION,
                        total_updates: 0,
                        successful_updates: 0,
                        staked_amount: stake_amount,
                        created_at: now,
                    },
                )
                &&& final(self).provider_health.view() == old(self).provider_health.view().insert(
                    provider_address,
                    ProviderHealth {
                        provider: provider_address,
                        consecutive_failures: 0,
                        last_successful_update: 0,
                        price_deviation_count: 0,
                        availability_score: INITIAL_AVAILABILITY,
                    },
                )
                &&& *final(self) == (OracleContract {
                    providers: final(self).providers,
                    provider_health: final(self).provider_health,
                    provider_count: (old(self).provider_count + 1) as u64,
                    ..*old(self)
                })
            },
    {
        self.verify_admin(admin)?;
        if stake_amount < min_stake {
            return Err(OracleError::InsufficientStake);
        }
        if self.providers.get(&provider_address).is_some() {
            return Err(OracleError::ProviderAlreadyExists);
        }
        if self.provider_count == u64::MAX {
            return Err(OracleError::ArithmeticOverflow);
        }
        let provider = OracleProvider {
            address: provider_address,
            provider_type,
            is_primary,
            is_active: true,
            reputation_score: INITIAL_REPUTATION,
            total_updates: 0,
            successful_updates: 0,
            staked_amount: stake_amount,
            created_at: now,
        };
        self.providers.set(provider_address, provider);
        self.provider_count = self.provider_count + 1;
        let health = ProviderHealth {
            provider: provider_address,
            consecutive_failures: 0,
            last_successful_update: 0,
            price_deviation_count: 0,
            availability_score: INITIAL_AVAILABILITY,
        };
        self.provider_health.set(provider_address, health);
        Ok(())
    }
    /// Why `create_price_feed` refuses, if it does.
    pub open spec fn create_feed_error(&self, admin: AccountId, feed_id: u64, providers: Seq<AccountId>) -> Option<
        OracleError,
    > {
        if self.admin_error(admin) is Some {
            self.admin_error(admin)
        } else if self.feeds.view().contains_key(feed_id) {
            Some(OracleError::FeedAlreadyExists)
        } else if providers.len() < 2 {
            Some(OracleError::InvalidInput)
        } else if self.feed_count == u64::MAX {
            Some(OracleError::ArithmeticOverflow)
        } else {
            None
        }
    }

    /// Creates an active price feed served by at least two providers, with
    /// an empty history and an enabled fallback that has no providers yet,
    /// and counts it.
    pub fn create_price_feed(
        &mut self,
        admin: AccountId,
        feed_id: u64,
        asset_symbol: String,
        description: String,
        decimals: u32,
        min_update_interval: u64,
        max_staleness: u64,
        max_price_change_bps: u32,
        providers: Vec<AccountId>,
        enable_circuit_breaker: bool,
        now: u64,
    ) -> (r: Result<(), OracleError>)
        requires
            old(self).wf(),
        ensures
            final(self).wf(),
            r is Ok <==> old(self).create_feed_error(admin, feed_id, providers@) is None,
            r matches Err(e) ==> old(self).create_feed_error(admin, feed_id, providers@) == Some(e),
            r is Err ==> *final(self) == *old(self),
            r is Ok ==> {
                let fb = final(self).fallback_configs.view()[feed_id];
                &&& final(self).feeds.view() == old(self).feeds.view().insert(
                    feed_id,
                    PriceFeed {
                        feed_id,
                        asset_symbol,
                        description,
                        decimals,
                        min_update_interval,
                        max_staleness,
                        is_active: true,
                        circuit_breaker_enabled: enable_circuit_breaker,
                        max_price_change_bps,
                        providers,
                        created_at: now,
                    },
                )
                &&& final(self).price_history.view() == old(self).price_history.view().insert(
                    feed_id,
                    final(self).price_history.view()[feed_id],
                )
                &&& final(self).history_of(feed_id).len() == 0
                &&& final(self).fallback_configs.view() == old(self).fallback_configs.view().insert(feed_id, fb)
                &&& fb.enabled && fb.fallback_providers@.len() == 0
                &&& fb.primary_failure_threshold == FALLBACK_FAILURE_THRESHOLD
                &&& fb.current_failures == 0 && !fb.using_fallback
                &&& *final(self) == (OracleContract {
                    feeds: final(self).feeds,
                    price_history: final(self).price_history,
                    fallback_configs: final(self).fallback_configs,
                    feed_count: (old(self).feed_count + 1) as u64,
                    ..*old(self)
                })
            },
    {
        self.verify_admin(admin)?;
        if self.feeds.get(&feed_id).is_some() {
            return Err(OracleError::FeedAlreadyExists);
        }
        if providers.len() < 2 {
            return Err(OracleError::InvalidInput);
        }
        if self.feed_count == u64::MAX {
            return Err(OracleError::ArithmeticOverflow);
        }
        let feed = PriceFeed {
            feed_id,
            asset_symbol,
            description,
            decimals,
            min_update_interval,
            max_staleness,
            is_active: true,
            circuit_breaker_enabled: enable_circuit_breaker,
            max_price_change_bps,
            providers,
            created_at: now,
        };
        self.feeds.set(feed_id, feed);
        self.price_history.set(feed_id, Vec::new());
        let fallback = FallbackConfig {
            enabled: true,
            fallback_providers: Vec::new(),
            primary_failure_threshold: FALLBACK_FAILURE_THRESHOLD,
            current_failures: 0,
            using_fallback: false,
        };
        self.fallback_configs.set(feed_id, fallback);
        self.feed_count = self.feed_count + 1;
        Ok(())
    }
    /// The previous price of a feed: that of its latest report, or zero.
    pub open spec fn previous_price(&self, feed_id: u64) -> i128 {
        match self.latest_of(feed_id) {
            Some(e) => e.price,
            None => 0,
        }
    }

    /// Whether a new report trips the circuit breaker: the breaker's
    /// verdict on the move counts only where there is a positive previous
    /// price.
    pub open spec fn report_trips(&self, feed_id: u64, movement_trips: bool) -> bool {
        self.previous_price(feed_id) > 0 && movement_trips
    }

    /// Why `submit_price` refuses, if it does.
    pub open spec fn submit_error(
        &self,
        provider: AccountId,
        feed_id: u64,
        price: i128,
        now: u64,
        breaker_open: bool,
        movement_trips: bool,
    ) -> Option<OracleError> {
        let feed = self.feeds.view()[feed_id];
        let pdata = self.providers.view()[provider];
        let latest = self.latest_of(feed_id);
        if price <= 0 {
            Some(OracleError::InvalidPrice)
        } else if !self.feeds.view().contains_key(feed_id) {
            Some(OracleError::FeedNotFound)
        } else if !feed.is_active {
            Some(OracleError::FeedInactive)
        } else if !feed.providers@.contains(provider) {
            Some(OracleError::Unauthorized)
        } else if !self.providers.view().contains_key(provider) {
            Some(OracleError::ProviderNotFound)
        } else if !pdata.is_active {
            Some(OracleError::ProviderInactive)
        } else if latest matches Some(e) && now < e.timestamp {
            Some(OracleError::ArithmeticOverflow)
        } else if latest matches Some(e) && now - e.timestamp < feed.min_update_interval {
            Some(OracleError::UpdateTooEarly)
        } else if breaker_open {
            Some(OracleError::CircuitBreakerTriggered)
        } else if !self.report_trips(feed_id, movement_trips) && (pdata.successful_updates == u64::MAX
            || pdata.total_updates == u64::MAX) {
            Some(OracleError::ArithmeticOverflow)
        } else {
            None
        }
    }

    /// Takes a price report from one of a feed's providers: it becomes the
    /// feed's latest report and joins the history, which keeps its most
    /// recent entries only.  `breaker_open` is whether the feed's circuit
    /// breaker is tripped; `movement_trips` is the breaker's verdict on the
    /// move from the previous price to `price`, which counts only where
    /// there is a positive previous price.  A report that trips the breaker
    /// earns nothing; any other counts as an update of the provider, who is
    /// owed the base reward.
    pub fn submit_price(
        &mut self,
        provider: AccountId,
        feed_id: u64,
        price: i128,
        now: u64,
        block: u32,
        breaker_open: bool,
        movement_trips: bool,
    ) -> (r: Result<PriceSubmission, OracleError>)
        requires
            old(self).wf(),
        ensures
            final(self).wf(),
            r is Ok <==> old(self).submit_error(provider, feed_id, price, now, breaker_open, movement_trips) is None,
            r matches Err(e) ==> old(self).submit_error(provider, feed_id, price, now, breaker_open, movement_trips)
                == Some(e),
            r is Err ==> *final(self) == *old(self),
            r is Ok ==> {
                let pdata = old(self).providers.view()[provider];
                &&& final(self).latest_prices.view() == old(self).latest_prices.view().insert(
                    feed_id,
                    PriceEntry { price, timestamp: now, provider, provider_type: pdata.provider_type, block_number: block },
                )
                &&& final(self).price_history.view().dom() == old(self).price_history.view().dom().insert(feed_id)
                &&& forall|k: u64| #[trigger] old(self).price_history.view().contains_key(k) && k != feed_id
                    ==> final(self).price_history.view()[k] == old(self).price_history.view()[k]
                &&& final(self).history_of(feed_id) == appended_capped(
                    old(self).history_of(feed_id),
                    HistoricalPrice { price, timestamp: now, block_number: block, aggregated: false },
                    PRICE_HISTORY_CAP as nat,
                )
                &&& if old(self).report_trips(feed_id, movement_trips) {
                    &&& r == Ok::<PriceSubmission, OracleError>(
                        PriceSubmission::BreakerTripped { previous_price: old(self).previous_price(feed_id) },
                    )
                    &&& final(self).providers == old(self).providers
                } else {
                    &&& r == Ok::<PriceSubmission, OracleError>(
                        PriceSubmission::Accepted {
                            base_reward: old(self).base_reward_rate,
                            distribution_count: old(self).distribution_count,
                        },
                    )
                    &&& final(self).providers.view() == old(self).providers.view().insert(
                        provider,
                        OracleProvider {
                            successful_updates: (pdata.successful_updates + 1) as u64,
                            total_updates: (pdata.total_updates + 1) as u64,
                            ..pdata
                        },
                    )
                }
                &&& *final(self) == (OracleContract {
                    latest_prices: final(self).latest_prices,
                    price_history: final(self).price_history,
                    providers: final(self).providers,
                    ..*old(self)
                })
            },
    {
        if price <= 0 {
            return Err(OracleError::InvalidPrice);
        }
        let feed = match self.feeds.get(&feed_id) {
            Some(f) => f,
            None => return Err(OracleError::FeedNotFound),
        };
        if !feed.is_active {
            return Err(OracleError::FeedInactive);
        }
        if !contains_account(&feed.providers, provider) {
            return Err(OracleError::Unauthorized);
        }
        let pdata: OracleProvider = match self.providers.get(&provider) {
            Some(p) => *p,
            None => return Err(OracleError::ProviderNotFound),
        };
        if !pdata.is_active {
            return Err(OracleError::ProviderInactive);
        }
        let previous_price: i128 = match self.latest_prices.get(&feed_id) {
            Some(last) => {
                if now < last.timestamp {
                    return Err(OracleError::ArithmeticOverflow);
                }
                if now - last.timestamp < feed.min_update_interval {
                    return Err(OracleError::UpdateTooEarly);
                }
                last.price
            },
            None => 0,
        };
        if breaker_open {
            return Err(OracleError::CircuitBreakerTriggered);
        }
        let trips = previous_price > 0 && movement_trips;
        if !trips && (pdata.successful_updates == u64::MAX || pdata.total_updates == u64::MAX) {
            return Err(OracleError::ArithmeticOverflow);
        }
        let entry = PriceEntry {
            price,
            timestamp: now,
            provider,
            provider_type: pdata.provider_type,
            block_number: block,
        };
        self.latest_prices.set(feed_id, entry);
        let mut history: Vec<HistoricalPrice> = match self.price_history.get(&feed_id) {
            Some(h) => history_from(h, 0),
            None => Vec::new(),
        };
        proof {
            assert(history@ =~= old(self).history_of(feed_id));
        }
        append_capped(
            &mut history,
            HistoricalPrice { price, timestamp: now, block_number: block, aggregated: false },
            PRICE_HISTORY_CAP,
        );
        self.price_history.set(feed_id, history);
        if trips {
            return Ok(PriceSubmission::BreakerTripped { previous_price });
        }
        let updated = OracleProvider {
            successful_updates: pdata.successful_updates + 1,
            total_updates: pdata.total_updates + 1,
            ..pdata
        };
        self.providers.set(provider, updated);
        Ok(PriceSubmission::Accepted { base_reward: self.base_reward_rate, distribution_count: self.distribution_count })
    }
    /// Whether an aggregation turns to the fallback providers: the feed's
    /// own providers yield fewer than two reports and the fallback is
    /// enabled.
    pub open spec fn falls_back(&self, feed_id: u64) -> bool {
        let feed = self.feeds.view()[feed_id];
        let fb = self.fallback_configs.view()[feed_id];
        reports_from(feed.providers@, self.latest_of(feed_id)).len() < 2 && fb.enabled
    }

    /// The reports gathered for an aggregation: the feed's providers' and,
    /// where the aggregation falls back, the fallback providers' after
    /// them.
    pub open spec fn gathered_reports(&self, feed_id: u64) -> Seq<PriceEntry> {
        let feed = self.feeds.view()[feed_id];
        let fb = self.fallback_configs.view()[feed_id];
        let primary = reports_from(feed.providers@, self.latest_of(feed_id));
        if self.falls_back(feed_id) {
            primary + reports_from(fb.fallback_providers@, self.latest_of(feed_id))
        } else {
            primary
        }
    }

    /// What `get_aggregated_price` returns.
    pub open spec fn aggregation_outcome(&self, feed_id: u64, now: u64, query_allowed: bool, breaker_open: bool) -> Result<
        AggregatedPrice,
        OracleError,
    > {
        let feed = self.feeds.view()[feed_id];
        let fb = self.fallback_configs.view()[feed_id];
        let gathered = self.gathered_reports(feed_id);
        if !query_allowed {
            Err(OracleError::RateLimitExceeded)
        } else if !self.feeds.view().contains_key(feed_id) {
            Err(OracleError::FeedNotFound)
        } else if !feed.is_active {
            Err(OracleError::FeedInactive)
        } else if breaker_open {
            Err(OracleError::CircuitBreakerTriggered)
        } else if !self.fallback_configs.view().contains_key(feed_id) {
            Err(OracleError::MissingRecord)
        } else if self.falls_back(feed_id) && fb.current_failures == u32::MAX {
            Err(OracleError::ArithmeticOverflow)
        } else if gathered.len() > u32::MAX {
            Err(OracleError::ArithmeticOverflow)
        } else {
            match outliers_outcome(gathered) {
                Err(e) => Err(e),
                Ok(kept) => match aggregate_outcome(kept, 2, feed.max_staleness, now) {
                    Err(e) => Err(e),
                    Ok(a) => if a.is_fresh {
                        Ok(a)
                    } else {
                        Err(OracleError::StalePrice)
                    },
                },
            }
        }
    }

    /// The median of a feed's reports at `now`, outliers removed; at least
    /// two sources and all of them fresh are needed.  Where the feed's
    /// providers yield fewer than two reports the fallback providers' are
    /// added and the fallback's failures counted; otherwise the fallback is
    /// reset.  `query_allowed` is the rate limiter's verdict on the query,
    /// `breaker_open` whether the feed's circuit breaker is tripped.
    pub fn get_aggregated_price(&mut self, feed_id: u64, now: u64, query_allowed: bool, breaker_open: bool) -> (r: Result<
        AggregatedPrice,
        OracleError,
    >)
        requires
            old(self).wf(),
        ensures
            final(self).wf(),
            r == old(self).aggregation_outcome(feed_id, now, query_allowed, breaker_open),
            r is Err ==> *final(self) == *old(self),
            r is Ok ==> {
                let fb = old(self).fallback_configs.view()[feed_id];
                let fb2 = final(self).fallback_configs.view()[feed_id];
                let falls = old(self).falls_back(feed_id);
                &&& final(self).fallback_configs.view() == old(self).fallback_configs.view().insert(feed_id, fb2)
                &&& fb2.enabled == fb.enabled
                &&& fb2.fallback_providers@ == fb.fallback_providers@
                &&& fb2.primary_failure_threshold == fb.primary_failure_threshold
                &&& fb2.using_fallback == falls
                &&& fb2.current_failures == if falls {
                    (fb.current_failures + 1) as u32
                } else {
                    0
                }
                &&& *final(self) == (OracleContract { fallback_configs: final(self).fallback_configs, ..*old(self) })
            },
    {
        if !query_allowed {
            return Err(OracleError::RateLimitExceeded);
        }
        let feed = match self.feeds.get(&feed_id) {
            Some(f) => f,
            None => return Err(OracleError::FeedNotFound),
        };
        if !feed.is_active {
            return Err(OracleError::FeedInactive);
        }
        if breaker_open {
            return Err(OracleError::CircuitBreakerTriggered);
        }
        let latest: Option<PriceEntry> = match self.latest_prices.get(&feed_id) {
            Some(e) => Some(*e),
            None => None,
        };
        let mut prices = collect_reports(&feed.providers, latest);
        let fb = match self.fallback_configs.get(&feed_id) {
            Some(c) => c,
            None => return Err(OracleError::MissingRecord),
        };
        let falls = prices.len() < 2 && fb.enabled;
        let updated = if falls {
            if fb.current_failures == u32::MAX {
                return Err(OracleError::ArithmeticOverflow);
            }
            let mut extra = collect_reports(&fb.fallback_providers, latest);
            prices.append(&mut extra);
            fallback_with(fb, true, fb.current_failures + 1)
        } else {
            fallback_with(fb, false, 0)
        };
        if prices.len() > u32::MAX as usize {
            return Err(OracleError::ArithmeticOverflow);
        }
        let max_staleness = feed.max_staleness;
        let ghost gathered = prices@;
        assert(gathered == old(self).gathered_reports(feed_id));
        let kept = PriceAggregator::remove_outliers(prices)?;
        proof {
            broadcast use Seq::lemma_filter_len;
        }
        let aggregated = PriceAggregator::aggregate_prices(&kept, 2, max_staleness, now)?;
        if !aggregated.is_fresh {
            return Err(OracleError::StalePrice);
        }
        self.fallback_configs.set(feed_id, updated);
        Ok(aggregated)
    }
    /// Records the distribution counter as the incentive ledger left it
    /// after paying an accepted report.
    pub fn record_distribution(&mut self, distribution_count: u64)
        requires
            old(self).wf(),
        ensures
            final(self).wf(),
            *final(self) == (OracleContract { distribution_count, ..*old(self) }),
    {
        self.distribution_count = distribution_count;
    }

    /// Why `get_historical_prices` refuses, if it does.
    pub open spec fn history_query_error(&self, limit: u32, query_allowed: bool) -> Option<OracleError> {
        if !query_allowed {
            Some(OracleError::RateLimitExceeded)
        } else if limit > HISTORY_QUERY_LIMIT {
            Some(OracleError::InvalidInput)
        } else {
            None
        }
    }

    /// The `limit` most recent entries of a feed's price history, oldest
    /// first; `query_allowed` is the rate limiter's verdict on the query.
    pub fn get_historical_prices(&self, feed_id: u64, limit: u32, query_allowed: bool) -> (r: Result<
        Vec<HistoricalPrice>,
        OracleError,
    >)
        requires
            self.wf(),
        ensures
            match self.history_query_error(limit, query_allowed) {
                Some(e) => r matches Err(f) && f == e,
                None => r matches Ok(v) && v@ == most_recent(self.history_of(feed_id), limit as nat),
            },
    {
        if !query_allowed {
            return Err(OracleError::RateLimitExceeded);
        }
        if limit > HISTORY_QUERY_LIMIT {
            return Err(OracleError::InvalidInput);
        }
        match self.price_history.get(&feed_id) {
            Some(history) => {
                let start = if history.len() > limit as usize {
                    history.len() - limit as usize
                } else {
                    0
                };
                let out = history_from(history, start);
                assert(start == 0 ==> out@ =~= self.history_of(feed_id));
                Ok(out)
            },
            None => Ok(Vec::new()),
        }
    }

    /// Why `create_custom_feed` refuses, if it does.
    pub open spec fn create_custom_error(&self, admin: AccountId, feed_id: u64) -> Option<OracleError> {
        if self.admin_error(admin) is Some {
            self.admin_error(admin)
        } else if self.custom_feeds.view().contains_key(feed_id) {
            Some(OracleError::FeedAlreadyExists)
        } else {
            None
        }
    }

    /// Creates an active custom data feed, never updated, with an empty
    /// history.
    pub fn create_custom_feed(
        &mut self,
        admin: AccountId,
        feed_id: u64,
        description: String,
        data_type: String,
        max_staleness: u64,
        providers: Vec<AccountId>,
    ) -> (r: Result<(), OracleError>)
        requires
            old(self).wf(),
        ensures
            final(self).wf(),
            r is Ok <==> old(self).create_custom_error(admin, feed_id) is None,
            r matches Err(e) ==> old(self).create_custom_error(admin, feed_id) == Some(e),
            r is Err ==> *final(self) == *old(self),
            r is Ok ==> {
                &&& final(self).custom_feeds.view() == old(self).custom_feeds.view().insert(
                    feed_id,
                    CustomDataFeed {
                        feed_id,
                        description,
                        data_type,
                        is_active: true,
                        authorized_providers: providers,
                        last_update: 0,
                        max_staleness,
                    },
                )
                &&& final(self).custom_data.view() == old(self).custom_data.view().insert(
                    feed_id,
                    final(self).custom_data.view()[feed_id],
                )
                &&& final(self).custom_data.view()[feed_id]@.len() == 0
                &&& *final(self) == (OracleContract {
                    custom_feeds: final(self).custom_feeds,
                    custom_data: final(self).custom_data,
                    ..*old(self)
                })
            },
    {
        self.verify_admin(admin)?;
        if self.custom_feeds.get(&feed_id).is_some() {
            return Err(OracleError::FeedAlreadyExists);
        }
        let feed = CustomDataFeed {
            feed_id,
            description,
            data_type,
            is_active: true,
            authorized_providers: providers,
            last_update: 0,
            max_staleness,
        };
        self.custom_feeds.set(feed_id, feed);
        self.custom_data.set(feed_id, Vec::new());
        Ok(())
    }

    /// The history of a custom data feed; none reads as empty.
    pub open spec fn custom_history_of(&self, feed_id: u64) -> Seq<CustomDataEntry> {
        if self.custom_data.view().contains_key(feed_id) {
            self.custom_data.view()[feed_id]@
        } else {
            Seq::empty()
        }
    }

    /// Why `submit_custom_data` refuses, if it does.
    pub open spec fn custom_submit_error(&self, provider: AccountId, feed_id: u64) -> Option<OracleError> {
        if !self.custom_feeds.view().contains_key(feed_id) {
            Some(OracleError::FeedNotFound)
        } else if !self.custom_feeds.view()[feed_id].authorized_providers@.contains(provider) {
            Some(OracleError::Unauthorized)
        } else {
            None
        }
    }

    /// Appends an entry from an authorised provider to a custom feed, whose
    /// history keeps its most recent entries only, and marks the feed
    /// updated at `now`.  The provider's success is then owed to the
    /// incentive ledger.
    pub fn submit_custom_data(&mut self, provider: AccountId, feed_id: u64, data: String, now: u64, block: u32) -> (r:
        Result<(), OracleError>)
        requires
            old(self).wf(),
        ensures
            final(self).wf(),
            r is Ok <==> old(self).custom_submit_error(provider, feed_id) is None,
            r matches Err(e) ==> old(self).custom_submit_error(provider, feed_id) == Some(e),
            r is Err ==> *final(self) == *old(self),
            r is Ok ==> {
                let f = old(self).custom_feeds.view()[feed_id];
                let f2 = final(self).custom_feeds.view()[feed_id];
                &&& final(self).custom_feeds.view() == old(self).custom_feeds.view().insert(feed_id, f2)
                &&& f2 == (CustomDataFeed { authorized_providers: f2.authorized_providers, last_update: now, ..f })
                &&& f2.authorized_providers@ == f.authorized_providers@
                &&& final(self).custom_data.view().dom() == old(self).custom_data.view().dom().insert(feed_id)
                &&& forall|k: u64| #[trigger] old(self).custom_data.view().contains_key(k) && k != feed_id
                    ==> final(self).custom_data.view()[k] == old(self).custom_data.view()[k]
                &&& final(self).custom_history_of(feed_id) == appended_capped(
                    old(self).custom_history_of(feed_id),
                    CustomDataEntry { data, timestamp: now, provider, block_number: block },
                    CUSTOM_HISTORY_CAP as nat,
                )
                &&& *final(self) == (OracleContract {
                    custom_feeds: final(self).custom_feeds,
                    custom_data: final(self).custom_data,
                    ..*old(self)
                })
            },
    {
        let feed = match self.custom_feeds.get(&feed_id) {
            Some(f) => f,
            None => return Err(OracleError::FeedNotFound),
        };
        if !contains_account(&feed.authorized_providers, provider) {
            return Err(OracleError::Unauthorized);
        }
        let touched = feed.touched(now);
        let mut history: Vec<CustomDataEntry> = match self.custom_data.get(&feed_id) {
            Some(h) => copy_entries(h),
            None => Vec::new(),
        };
        proof {
            assert(history@ =~= old(self).custom_history_of(feed_id));
        }
        append_capped(&mut history, CustomDataEntry { data, timestamp: now, provider, block_number: block }, CUSTOM_HISTORY_CAP);
        self.custom_data.set(feed_id, history);
        self.custom_feeds.set(feed_id, touched);
        Ok(())
    }

    /// Why `get_custom_data` refuses, if it does.
    pub open spec fn custom_query_error(&self, feed_id: u64, now: u64, query_allowed: bool) -> Option<OracleError> {
        let f = self.custom_feeds.view()[feed_id];
        if !query_allowed {
            Some(OracleError::RateLimitExceeded)
        } else if !self.custom_feeds.view().contains_key(feed_id) {
            Some(OracleError::FeedNotFound)
        } else if !f.is_active {
            Some(OracleError::FeedInactive)
        } else if now < f.last_update {
            Some(OracleError::ArithmeticOverflow)
        } else if now - f.last_update > f.max_staleness {
            Some(OracleError::StalePrice)
        } else {
            None
        }
    }

    /// The latest entry of an active custom feed that is not stale at
    /// `now`, if it has one; `query_allowed` is the rate limiter's verdict.
    pub fn get_custom_data(&self, feed_id: u64, now: u64, query_allowed: bool) -> (r: Result<
        Option<CustomDataEntry>,
        OracleError,
    >)
        requires
            self.wf(),
        ensures
            match self.custom_query_error(feed_id, now, query_allowed) {
                Some(e) => r == Err::<Option<CustomDataEntry>, OracleError>(e),
                None => {
                    let h = self.custom_history_of(feed_id);
                    r == Ok::<Option<CustomDataEntry>, OracleError>(
                        if h.len() > 0 {
                            Some(h.last())
                        } else {
                            None
                        },
                    )
                },
            },
    {
        if !query_allowed {
            return Err(OracleError::RateLimitExceeded);
        }
        let feed = match self.custom_feeds.get(&feed_id) {
            Some(f) => f,
            None => return Err(OracleError::FeedNotFound),
        };
        if !feed.is_active {
            return Err(OracleError::FeedInactive);
        }
        if now < feed.last_update {
            return Err(OracleError::ArithmeticOverflow);
        }
        if now - feed.last_update > feed.max_staleness {
            return Err(OracleError::StalePrice);
        }
        match self.custom_data.get(&feed_id) {
            Some(h) => {
                if h.len() > 0 {
                    Ok(Some(h[h.len() - 1].duplicate()))
                } else {
                    Ok(None)
                }
            },
            None => Ok(None),
        }
    }

    /// Why `add_fallback_provider` refuses, if it does.
    pub open spec fn add_fallback_error(&self, admin: AccountId, feed_id: u64) -> Option<OracleError> {
        if self.admin_error(admin) is Some {
            self.admin_error(admin)
        } else if !self.fallback_configs.view().contains_key(feed_id) {
            Some(OracleError::MissingRecord)
        } else {
            None
        }
    }

    /// Adds a provider to a feed's fallback list; one already there is not
    /// added twice.
    pub fn add_fallback_provider(&mut self, admin: AccountId, feed_id: u64, provider: AccountId) -> (r: Result<
        (),
        OracleError,
    >)
        requires
            old(self).wf(),
        ensures
            final(self).wf(),
            r is Ok <==> old(self).add_fallback_error(admin, feed_id) is None,
            r matches Err(e) ==> old(self).add_fallback_error(admin, feed_id) == Some(e),
            r is Err ==> *final(self) == *old(self),
            r is Ok && old(self).fallback_configs.view()[feed_id].fallback_providers@.contains(provider) ==> *final(self)
                == *old(self),
            r is Ok && !old(self).fallback_configs.view()[feed_id].fallback_providers@.contains(provider) ==> {
                let fb = old(self).fallback_configs.view()[feed_id];
                let fb2 = final(self).fallback_configs.view()[feed_id];
                &&& final(self).fallback_configs.view() == old(self).fallback_configs.view().insert(feed_id, fb2)
                &&& fb2 == (FallbackConfig { fallback_providers: fb2.fallback_providers, ..fb })
                &&& fb2.fallback_providers@ == fb.fallback_providers@.push(provider)
                &&& *final(self) == (OracleContract { fallback_configs: final(self).fallback_configs, ..*old(self) })
            },
    {
        self.verify_admin(admin)?;
        let fb = match self.fallback_configs.get(&feed_id) {
            Some(c) => c,
            None => return Err(OracleError::MissingRecord),
        };
        if contains_account(&fb.fallback_providers, provider) {
            return Ok(());
        }
        let mut updated = fallback_with(fb, fb.using_fallback, fb.current_failures);
        updated.fallback_providers.push(provider);
        self.fallback_configs.set(feed_id, updated);
        Ok(())
    }

    /// What `is_data_fresh` returns.
    pub open spec fn freshness(&self, feed_id: u64, now: u64) -> Result<bool, OracleError> {
        if !self.feeds.view().contains_key(feed_id) {
            Err(OracleError::FeedNotFound)
        } else {
            match self.latest_of(feed_id) {
                None => Ok(false),
                Some(e) => if now < e.timestamp {
                    Err(OracleError::ArithmeticOverflow)
                } else {
                    Ok(now - e.timestamp <= self.feeds.view()[feed_id].max_staleness)
                },
            }
        }
    }

    /// Whether a feed's latest report is at most `max_staleness` old at
    /// `now`; a feed without reports is not fresh.
    pub fn is_data_fresh(&self, feed_id: u64, now: u64) -> (r: Result<bool, OracleError>)
        requires
            self.wf(),
        ensures
            r == self.freshness(feed_id, now),
    {
        let feed = match self.feeds.get(&feed_id) {
            Some(f) => f,
            None => return Err(OracleError::FeedNotFound),
        };
        match self.latest_prices.get(&feed_id) {
            Some(e) => {
                if now < e.timestamp {
                    Err(OracleError::ArithmeticOverflow)
                } else {
                    Ok(now - e.timestamp <= feed.max_staleness)
                }
            },
            None => Ok(false),
        }
    }
}

/// A report is fresh when it is made: once `submit_price` has taken a
/// report at `now`, `is_data_fresh` at that same `now` answers yes.  `after`
/// is `before` with the report stored, as `submit_price` states it.
pub proof fn lemma_report_is_fresh(
    before: OracleContract,
    after: OracleContract,
    provider: AccountId,
    feed_id: u64,
    price: i128,
    now: u64,
    block: u32,
    breaker_open: bool,
    movement_trips: bool,
)
    requires
        before.submit_error(provider, feed_id, price, now, breaker_open, movement_trips) is None,
        after.feeds == before.feeds,
        after.latest_prices.view() == before.latest_prices.view().insert(
            feed_id,
            PriceEntry {
                price,
                timestamp: now,
                provider,
                provider_type: before.providers.view()[provider].provider_type,
                block_number: block,
            },
        ),
    ensures
        after.freshness(feed_id, now) == Ok::<bool, OracleError>(true),
{
}

/// A history never outgrows its cap: appending to a history of at most
/// `cap` entries leaves at most `cap`, and the new entry is the last.
pub proof fn lemma_history_stays_capped<T>(h: Seq<T>, e: T, cap: nat)
    requires
        cap > 0,
        h.len() <= cap,
    ensures
        appended_capped(h, e, cap).len() <= cap,
        appended_capped(h, e, cap).last() == e,
{
}

/// An aggregated price lies between the lowest and the highest price used,
/// and equals the reported median.
pub proof fn lemma_aggregate_within_range(prices: Seq<PriceEntry>, min_sources: u32, max_staleness: u64, now: u64)
    requires
        aggregate_outcome(prices, min_sources, max_staleness, now) is Ok,
    ensures
        ({
            let a = aggregate_outcome(prices, min_sources, max_staleness, now)->Ok_0;
            &&& a.min_price <= a.price <= a.max_price
            &&& a.price == a.median_price
        }),
{
    let fresh = crate::price_aggregator::fresh_values(prices, now, max_staleness);
    let t = crate::sorting::sorted_values(fresh);
    crate::sorting::lemma_sorted_values(fresh);
    broadcast use vstd::seq_lib::group_to_multiset_ensures;
    assert(t.len() == t.to_multiset().len());
    assert(fresh.len() == fresh.to_multiset().len());
    let n = t.len() as int;
    assert(n > 0);
    let m = n / 2;
    assert(t[0] <= t[m]);
    assert(t[m] <= t[n - 1]);
    if n % 2 == 0 {
        assert(t[0] <= t[m - 1]);
        assert(t[m - 1] <= t[n - 1]);
    }
}

} // verus!

//! Combining price reports: median aggregation, reputation-weighted
//! aggregation, outlier removal and divergence checks.

use vstd::prelude::*;
use crate::arith::{trunc_div, in_i128, div_pos};
use crate::oracle_errors::OracleError;
use crate::oracle_types::{PriceEntry, AggregatedPrice};
use crate::sorting::{sorted_values, sort_values, lemma_sorted_values, is_sorted};

verus! {

broadcast use vstd::seq_lib::group_to_multiset_ensures;

/// Whether a report is recent enough at `now` (its timestamp not after `now`).
pub open spec fn is_fresh(e: PriceEntry, now: u64, max_staleness: u64) -> bool {
    now - e.timestamp <= max_staleness
}

/// Whether some report claims a time after `now`.
pub open spec fn has_future_entry(prices: Seq<PriceEntry>, now: u64) -> bool {
    exists|i: int| 0 <= i < prices.len() && (#[trigger] prices[i]).timestamp > now
}

/// The prices of the fresh reports, in order.
pub open spec fn fresh_values(prices: Seq<PriceEntry>, now: u64, max_staleness: u64) -> Seq<i128>
    decreases prices.len(),
{
    if prices.len() == 0 {
        Seq::empty()
    } else {
        let rest = fresh_values(prices.drop_last(), now, max_staleness);
        if is_fresh(prices.last(), now, max_staleness) {
            rest.push(prices.last().price)
        } else {
            rest
        }
    }
}

/// Whether every report is fresh.
pub open spec fn all_fresh(prices: Seq<PriceEntry>, now: u64, max_staleness: u64) -> bool {
    forall|i: int| 0 <= i < prices.len() ==> is_fresh(#[trigger] prices[i], now, max_staleness)
}

/// The latest timestamp among the reports, or 0 if there are none.
pub open spec fn latest_timestamp(prices: Seq<PriceEntry>) -> u64
    decreases prices.len(),
{
    if prices.len() == 0 {
        0
    } else {
        let rest = latest_timestamp(prices.drop_last());
        if prices.last().timestamp > rest {
            prices.last().timestamp
        } else {
            rest
        }
    }
}

/// The median of a sorted sequence: the middle value, or the mean of the two
/// middle values (rounded toward zero) for an even count.
pub open spec fn median_of(t: Seq<i128>) -> int {
    let m = (t.len() / 2) as int;
    if t.len() % 2 == 0 {
        trunc_div(t[m - 1] + t[m], 2)
    } else {
        t[m] as int
    }
}

/// Whether the two middle values of an even-length sequence overflow when
/// added.
pub open spec fn median_overflows(t: Seq<i128>) -> bool {
    let m = (t.len() / 2) as int;
    t.len() % 2 == 0 && !in_i128(t[m - 1] + t[m])
}

/// What `aggregate_prices` returns.
pub open spec fn aggregate_outcome(prices: Seq<PriceEntry>, min_sources: u32, max_staleness: u64, now: u64) -> Result<
    AggregatedPrice,
    OracleError,
> {
    let fresh = fresh_values(prices, now, max_staleness);
    let t = sorted_values(fresh);
    if prices.len() < min_sources {
        Err(OracleError::NotEnoughSources)
    } else if has_future_entry(prices, now) {
        Err(OracleError::ArithmeticOverflow)
    } else if fresh.len() < min_sources {
        Err(OracleError::NotEnoughSources)
    } else if fresh.len() == 0 {
        Err(OracleError::AggregationFailed)
    } else if median_overflows(t) {
        Err(OracleError::ArithmeticOverflow)
    } else {
        Ok(
            AggregatedPrice {
                price: median_of(t) as i128,
                timestamp: latest_timestamp(prices),
                sources_used: fresh.len() as u32,
                min_price: t[0],
                max_price: t[t.len() - 1],
                median_price: median_of(t) as i128,
                is_fresh: all_fresh(prices, now, max_staleness),
            },
        )
    }
}

/// Aggregation routines; a namespace without state.
pub struct PriceAggregator;

impl PriceAggregator {
    /// Median aggregation of the reports that are fresh at `now`: at least
    /// `min_sources` reports, and as many fresh ones, are needed.  The
    /// timestamp is the latest of all reports, stale ones included.
    pub fn aggregate_prices(prices: &Vec<PriceEntry>, min_sources: u32, max_staleness: u64, now: u64) -> (r: Result<
        AggregatedPrice,
        OracleError,
    >)
        requires
            prices@.len() <= u32::MAX,
        ensures
            r == aggregate_outcome(prices@, min_sources, max_staleness, now),
    {
        if prices.len() < min_sources as usize {
            return Err(OracleError::NotEnoughSources);
        }
        let mut valid: Vec<i128> = Vec::new();
        let mut fresh = true;
        let mut latest: u64 = 0;
        let mut i: usize = 0;
        while i < prices.len()
            invariant
                i <= prices@.len(),
                prices@.len() >= min_sources,
                valid@ == fresh_values(prices@.take(i as int), now, max_staleness),
                fresh == all_fresh(prices@.take(i as int), now, max_staleness),
                latest == latest_timestamp(prices@.take(i as int)),
                forall|k: int| 0 <= k < i ==> (#[trigger] prices@[k]).timestamp <= now,
                valid@.len() <= i,
            decreases prices@.len() - i,
        {
            let e = prices[i];
            if e.timestamp > now {
                assert(has_future_entry(prices@, now)) by {
                    assert(prices@[i as int].timestamp > now);
                }
                assert(!(prices@.len() < min_sources));
                assert(aggregate_outcome(prices@, min_sources, max_staleness, now) == Err::<
                    AggregatedPrice,
                    OracleError,
                >(OracleError::ArithmeticOverflow));
                return Err(OracleError::ArithmeticOverflow);
            }
            let ghost prev = prices@.take(i as int);
            assert(prices@.take(i + 1).drop_last() =~= prev);
            assert(prices@.take(i + 1).last() == e);
            if now - e.timestamp <= max_staleness {
                valid.push(e.price);
            } else {
                fresh = false;
            }
            if e.timestamp > latest {
                latest = e.timestamp;
            }
            assert(fresh == all_fresh(prices@.take(i + 1), now, max_staleness)) by {
                let cur = prices@.take(i + 1);
                if fresh {
                    assert forall|k: int| 0 <= k < cur.len() implies is_fresh(#[trigger] cur[k], now, max_staleness) by {
                        if k < i {
                            assert(cur[k] == prev[k]);
                        }
                    }
                } else {
                    if !all_fresh(prev, now, max_staleness) {
                        let k = choose|k: int| 0 <= k < prev.len() && !is_fresh(#[trigger] prev[k], now, max_staleness);
                        assert(cur[k] == prev[k]);
                    } else {
                        assert(!is_fresh(cur[i as int], now, max_staleness));
                    }
                }
            }
            i = i + 1;
        }
        assert(prices@.take(prices@.len() as int) =~= prices@);
        assert(!has_future_entry(prices@, now));
        if valid.len() < min_sources as usize {
            return Err(OracleError::NotEnoughSources);
        }
        if valid.len() == 0 {
            return Err(OracleError::AggregationFailed);
        }
        let sorted = sort_values(&valid);
        assert(sorted@.len() == sorted@.to_multiset().len());
        assert(valid@.len() == valid@.to_multiset().len());
        let n = sorted.len();
        assert(n == valid@.len());
        let min_price = sorted[0];
        let max_price = sorted[n - 1];
        let mid = n / 2;
        let median = if n % 2 == 0 {
            match sorted[mid - 1].checked_add(sorted[mid]) {
                Some(s) => div_pos(s, 2),
                None => return Err(OracleError::ArithmeticOverflow),
            }
        } else {
            sorted[mid]
        };
        Ok(
            AggregatedPrice {
                price: median,
                timestamp: latest,
                sources_used: n as u32,
                min_price,
                max_price,
                median_price: median,
                is_fresh: fresh,
            },
        )
    }
}


/// The running totals of a reputation-weighted aggregation.
pub struct WeightedTally {
    /// A report claims a time after `now`, or an intermediate sum overflowed.
    pub failed: bool,
    pub weighted_sum: int,
    pub total_weight: int,
    pub count: int,
    pub min_price: int,
    pub max_price: int,
    pub latest: int,
    pub all_fresh: bool,
}

/// The totals over the fresh reports, each weighted by its reputation.
pub open spec fn weighted_tally(prices: Seq<(PriceEntry, u32)>, now: u64, max_staleness: u64) -> WeightedTally
    decreases prices.len(),
{
    if prices.len() == 0 {
        WeightedTally {
            failed: false,
            weighted_sum: 0,
            total_weight: 0,
            count: 0,
            min_price: i128::MAX as int,
            max_price: i128::MIN as int,
            latest: 0,
            all_fresh: true,
        }
    } else {
        let t = weighted_tally(prices.drop_last(), now, max_staleness);
        let e = prices.last().0;
        let rep = prices.last().1;
        if t.failed {
            t
        } else if e.timestamp > now {
            WeightedTally { failed: true, ..t }
        } else if is_fresh(e, now, max_staleness) {
            let term = e.price * rep;
            let sum = t.weighted_sum + term;
            if !in_i128(term) || !in_i128(sum) {
                WeightedTally { failed: true, ..t }
            } else {
                WeightedTally {
                    failed: false,
                    weighted_sum: sum,
                    total_weight: t.total_weight + rep,
                    count: t.count + 1,
                    min_price: if e.price < t.min_price { e.price as int } else { t.min_price },
                    max_price: if e.price > t.max_price { e.price as int } else { t.max_price },
                    latest: if e.timestamp > t.latest { e.timestamp as int } else { t.latest },
                    all_fresh: t.all_fresh,
                }
            }
        } else {
            WeightedTally { all_fresh: false, ..t }
        }
    }
}

/// What `weighted_aggregate` returns.
pub open spec fn weighted_outcome(prices: Seq<(PriceEntry, u32)>, min_sources: u32, max_staleness: u64, now: u64) -> Result<
    AggregatedPrice,
    OracleError,
> {
    let t = weighted_tally(prices, now, max_staleness);
    let price = trunc_div(t.weighted_sum, t.total_weight);
    if prices.len() < min_sources {
        Err(OracleError::NotEnoughSources)
    } else if t.failed {
        Err(OracleError::ArithmeticOverflow)
    } else if t.count < min_sources {
        Err(OracleError::NotEnoughSources)
    } else if t.total_weight == 0 {
        Err(OracleError::AggregationFailed)
    } else {
        Ok(
            AggregatedPrice {
                price: price as i128,
                timestamp: t.latest as u64,
                sources_used: t.count as u32,
                min_price: t.min_price as i128,
                max_price: t.max_price as i128,
                median_price: price as i128,
                is_fresh: t.all_fresh,
            },
        )
    }
}

proof fn lemma_tally_bounds(prices: Seq<(PriceEntry, u32)>, now: u64, max_staleness: u64)
    ensures
        0 <= weighted_tally(prices, now, max_staleness).count <= prices.len(),
        0 <= weighted_tally(prices, now, max_staleness).total_weight <= prices.len() * u32::MAX,
        0 <= weighted_tally(prices, now, max_staleness).latest <= u64::MAX,
        in_i128(weighted_tally(prices, now, max_staleness).weighted_sum),
        in_i128(weighted_tally(prices, now, max_staleness).min_price),
        in_i128(weighted_tally(prices, now, max_staleness).max_price),
    decreases prices.len(),
{
    if prices.len() > 0 {
        lemma_tally_bounds(prices.drop_last(), now, max_staleness);
        assert((prices.len() - 1) * u32::MAX + u32::MAX == prices.len() * u32::MAX) by (nonlinear_arith);
    }
}

impl PriceAggregator {
    /// Reputation-weighted average of the reports that are fresh at `now`,
    /// each paired with its provider's reputation, rounded toward zero.
    pub fn weighted_aggregate(
        prices: &Vec<(PriceEntry, u32)>,
        min_sources: u32,
        max_staleness: u64,
        now: u64,
    ) -> (r: Result<AggregatedPrice, OracleError>)
        requires
            prices@.len() <= u32::MAX,
        ensures
            r == weighted_outcome(prices@, min_sources, max_staleness, now),
    {
        if prices.len() < min_sources as usize {
            return Err(OracleError::NotEnoughSources);
        }
        let mut total_weight: u128 = 0;
        let mut weighted_sum: i128 = 0;
        let mut valid_count: u32 = 0;
        let mut is_fresh = true;
        let mut min_price = i128::MAX;
        let mut max_price = i128::MIN;
        let mut latest_timestamp: u64 = 0;
        let mut i: usize = 0;
        while i < prices.len()
            invariant
                i <= prices@.len(),
                prices@.len() <= u32::MAX,
                prices@.len() >= min_sources,
                ({
                    let t = weighted_tally(prices@.take(i as int), now, max_staleness);
                    &&& !t.failed
                    &&& total_weight == t.total_weight
                    &&& weighted_sum == t.weighted_sum
                    &&& valid_count == t.count
                    &&& is_fresh == t.all_fresh
                    &&& min_price == t.min_price
                    &&& max_price == t.max_price
                    &&& latest_timestamp == t.latest
                }),
            decreases prices@.len() - i,
        {
            let ghost prev = prices@.take(i as int);
            let ghost cur = prices@.take(i + 1);
            proof {
                assert(cur.drop_last() =~= prev);
                lemma_tally_bounds(prev, now, max_staleness);
                assert(i * u32::MAX <= (u32::MAX as int) * (u32::MAX as int)) by (nonlinear_arith)
                    requires
                        i <= u32::MAX,
                ;
            }
            let (entry, reputation) = prices[i];
            assert(cur.last() == (entry, reputation));
            if entry.timestamp > now {
                proof {
                    lemma_tally_failed_persists(prices@, i as int + 1, now, max_staleness);
                }
                return Err(OracleError::ArithmeticOverflow);
            }
            if now - entry.timestamp <= max_staleness {
                let weight = reputation as u128;
                let term = match entry.price.checked_mul(reputation as i128) {
                    Some(v) => v,
                    None => {
                        proof {
                            lemma_tally_failed_persists(prices@, i as int + 1, now, max_staleness);
                        }
                        return Err(OracleError::ArithmeticOverflow);
                    },
                };
                let sum = match weighted_sum.checked_add(term) {
                    Some(v) => v,
                    None => {
                        proof {
                            lemma_tally_failed_persists(prices@, i as int + 1, now, max_staleness);
                        }
                        return Err(OracleError::ArithmeticOverflow);
                    },
                };
                total_weight = total_weight + weight;
                weighted_sum = sum;
                valid_count = valid_count + 1;
                if entry.price < min_price {
                    min_price = entry.price;
                }
                if entry.price > max_price {
                    max_price = entry.price;
                }
                if entry.timestamp > latest_timestamp {
                    latest_timestamp = entry.timestamp;
                }
            } else {
                is_fresh = false;
            }
            i = i + 1;
        }
        assert(prices@.take(prices@.len() as int) =~= prices@);
        if valid_count < min_sources {
            return Err(OracleError::NotEnoughSources);
        }
        if total_weight == 0 {
            return Err(OracleError::AggregationFailed);
        }
        proof {
            lemma_tally_bounds(prices@, now, max_staleness);
            assert(prices@.len() * u32::MAX <= (u32::MAX as int) * (u32::MAX as int)) by (nonlinear_arith)
                requires
                    prices@.len() <= u32::MAX,
            ;
        }
        let final_price = div_pos(weighted_sum, total_weight as i128);
        Ok(
            AggregatedPrice {
                price: final_price,
                timestamp: latest_timestamp,
                sources_used: valid_count,
                min_price,
                max_price,
                median_price: final_price,
                is_fresh,
            },
        )
    }
}

/// Once the tally of a prefix has failed, the tally of the whole has too.
proof fn lemma_tally_failed_persists(prices: Seq<(PriceEntry, u32)>, k: int, now: u64, max_staleness: u64)
    requires
        0 <= k <= prices.len(),
        weighted_tally(prices.take(k), now, max_staleness).failed,
    ensures
        weighted_tally(prices, now, max_staleness).failed,
    decreases prices.len() - k,
{
    if k < prices.len() {
        assert(prices.take(k + 1).drop_last() =~= prices.take(k));
        lemma_tally_failed_persists(prices, k + 1, now, max_staleness);
    } else {
        assert(prices.take(k) =~= prices);
    }
}


/// The prices of the reports, in order.
pub open spec fn price_values(prices: Seq<PriceEntry>) -> Seq<i128> {
    prices.map_values(|e: PriceEntry| e.price)
}

/// The first and third quartile values used for outlier removal.
pub open spec fn quartiles(prices: Seq<PriceEntry>) -> (int, int) {
    let t = sorted_values(price_values(prices));
    let n = prices.len() as int;
    (t[n / 4] as int, t[(3 * n) / 4] as int)
}

/// The margin beyond the quartiles within which prices are kept:
/// 1.5 times the interquartile range, rounded toward zero.
pub open spec fn outlier_margin(prices: Seq<PriceEntry>) -> int {
    let (q1, q3) = quartiles(prices);
    trunc_div(150 * (q3 - q1), 100)
}

/// What `remove_outliers` returns.
pub open spec fn outliers_outcome(prices: Seq<PriceEntry>) -> Result<Seq<PriceEntry>, OracleError> {
    let (q1, q3) = quartiles(prices);
    let iqr = q3 - q1;
    let m = outlier_margin(prices);
    if prices.len() < 4 {
        Ok(prices)
    } else if 3 * prices.len() > u32::MAX {
        Err(OracleError::ArithmeticOverflow)
    } else if !in_i128(iqr) || !in_i128(150 * iqr) || !in_i128(q1 - m) || !in_i128(q3 + m) {
        Err(OracleError::ArithmeticOverflow)
    } else {
        Ok(prices.filter(|e: PriceEntry| q1 - m <= e.price && e.price <= q3 + m))
    }
}

/// The smallest price among the reports, or `i128::MAX` if there are none.
pub open spec fn min_price_of(prices: Seq<PriceEntry>) -> i128
    decreases prices.len(),
{
    if prices.len() == 0 {
        i128::MAX
    } else {
        let rest = min_price_of(prices.drop_last());
        if prices.last().price < rest {
            prices.last().price
        } else {
            rest
        }
    }
}

/// The largest price among the reports, or `i128::MIN` if there are none.
pub open spec fn max_price_of(prices: Seq<PriceEntry>) -> i128
    decreases prices.len(),
{
    if prices.len() == 0 {
        i128::MIN
    } else {
        let rest = max_price_of(prices.drop_last());
        if prices.last().price > rest {
            prices.last().price
        } else {
            rest
        }
    }
}

/// What `validate_price_divergence` returns: whether the spread between
/// the highest and lowest price, in basis points of the lowest (rounded
/// toward zero), stays within the limit.
pub open spec fn divergence_outcome(prices: Seq<PriceEntry>, max_divergence_bps: u32) -> Result<bool, OracleError> {
    let lo = min_price_of(prices);
    let hi = max_price_of(prices);
    if prices.len() < 2 {
        Ok(true)
    } else if lo == 0 {
        Ok(false)
    } else if !in_i128(hi - lo) || !in_i128((hi - lo) * 10000) {
        Err(OracleError::ArithmeticOverflow)
    } else {
        Ok(trunc_div((hi - lo) * 10000, lo as int) <= max_divergence_bps)
    }
}

impl PriceAggregator {
    /// Drops the reports whose price lies more than 1.5 interquartile
    /// ranges outside the quartiles; fewer than four reports are kept as
    /// they are.  The order of the kept reports is unchanged.
    pub fn remove_outliers(prices: Vec<PriceEntry>) -> (r: Result<Vec<PriceEntry>, OracleError>)
        requires
            prices@.len() <= u32::MAX,
        ensures
            match (r, outliers_outcome(prices@)) {
                (Ok(v), Ok(s)) => v@ == s,
                (Err(e), Err(f)) => e == f,
                _ => false,
            },
    {
        if prices.len() < 4 {
            return Ok(prices);
        }
        let mut values: Vec<i128> = Vec::new();
        let mut i: usize = 0;
        while i < prices.len()
            invariant
                i <= prices@.len(),
                values@ == price_values(prices@.take(i as int)),
            decreases prices@.len() - i,
        {
            values.push(prices[i].price);
            assert(price_values(prices@.take(i + 1)) =~= price_values(prices@.take(i as int)).push(
                prices@[i as int].price,
            ));
            i = i + 1;
        }
        assert(prices@.take(prices@.len() as int) =~= prices@);
        let sorted = sort_values(&values);
        proof {
            assert(sorted@.len() == sorted@.to_multiset().len());
            assert(values@.len() == values@.to_multiset().len());
        }
        let len = sorted.len();
        assert(len == prices@.len());
        if len as u64 > (u32::MAX / 3) as u64 {
            return Err(OracleError::ArithmeticOverflow);
        }
        let q1 = sorted[len / 4];
        let q3 = sorted[(3 * len) / 4];
        let iqr = match q3.checked_sub(q1) {
            Some(v) => v,
            None => return Err(OracleError::ArithmeticOverflow),
        };
        let scaled = match iqr.checked_mul(150) {
            Some(v) => v,
            None => return Err(OracleError::ArithmeticOverflow),
        };
        let margin = div_pos(scaled, 100);
        let lower_bound = match q1.checked_sub(margin) {
            Some(v) => v,
            None => return Err(OracleError::ArithmeticOverflow),
        };
        let upper_bound = match q3.checked_add(margin) {
            Some(v) => v,
            None => return Err(OracleError::ArithmeticOverflow),
        };
        let ghost keep = |e: PriceEntry| lower_bound <= e.price && e.price <= upper_bound;
        let mut filtered: Vec<PriceEntry> = Vec::new();
        let mut j: usize = 0;
        while j < prices.len()
            invariant
                j <= prices@.len(),
                filtered@ == prices@.take(j as int).filter(keep),
                keep == (|e: PriceEntry| lower_bound <= e.price && e.price <= upper_bound),
            decreases prices@.len() - j,
        {
            let e = prices[j];
            proof {
                reveal_with_fuel(Seq::filter, 1);
                assert(prices@.take(j + 1).drop_last() =~= prices@.take(j as int));
            }
            if e.price >= lower_bound && e.price <= upper_bound {
                filtered.push(e);
            }
            j = j + 1;
        }
        assert(prices@.take(prices@.len() as int) =~= prices@);
        assert(150 * iqr == iqr * 150);
        Ok(filtered)
    }

    /// Whether the spread of the reports stays within `max_divergence_bps`
    /// of the lowest price; fewer than two reports always pass, a lowest
    /// price of zero never does.
    pub fn validate_price_divergence(prices: &Vec<PriceEntry>, max_divergence_bps: u32) -> (r: Result<bool, OracleError>)
        ensures
            r == divergence_outcome(prices@, max_divergence_bps),
    {
        if prices.len() < 2 {
            return Ok(true);
        }
        let mut min_price = i128::MAX;
        let mut max_price = i128::MIN;
        let mut i: usize = 0;
        while i < prices.len()
            invariant
                i <= prices@.len(),
                min_price == min_price_of(prices@.take(i as int)),
                max_price == max_price_of(prices@.take(i as int)),
            decreases prices@.len() - i,
        {
            let e = prices[i];
            assert(prices@.take(i + 1).drop_last() =~= prices@.take(i as int));
            if e.price < min_price {
                min_price = e.price;
            }
            if e.price > max_price {
                max_price = e.price;
            }
            i = i + 1;
        }
        assert(prices@.take(prices@.len() as int) =~= prices@);
        if min_price == 0 {
            return Ok(false);
        }
        let spread = match max_price.checked_sub(min_price) {
            Some(v) => v,
            None => return Err(OracleError::ArithmeticOverflow),
        };
        let scaled = match spread.checked_mul(10000) {
            Some(v) => v,
            None => return Err(OracleError::ArithmeticOverflow),
        };
        let divergence = match scaled.checked_div(min_price) {
            Some(v) => v,
            None => return Err(OracleError::ArithmeticOverflow),
        };
        Ok(divergence <= max_divergence_bps as i128)
    }
}

/// Stale reports carry no weight: adding a report that is older than
/// `max_staleness` at `now` (but not from the future) to reports that
/// aggregate successfully leaves every field of the weighted result as it
/// was, except that the result is no longer marked fresh.
pub proof fn lemma_stale_report_carries_no_weight(
    prices: Seq<(PriceEntry, u32)>,
    stale: PriceEntry,
    reputation: u32,
    min_sources: u32,
    max_staleness: u64,
    now: u64,
)
    requires
        weighted_outcome(prices, min_sources, max_staleness, now) is Ok,
        stale.timestamp <= now,
        now - stale.timestamp > max_staleness,
    ensures
        weighted_outcome(prices.push((stale, reputation)), min_sources, max_staleness, now) == Ok::<
            AggregatedPrice,
            OracleError,
        >(
            AggregatedPrice {
                is_fresh: false,
                ..weighted_outcome(prices, min_sources, max_staleness, now)->Ok_0
            },
        ),
{
    let longer = prices.push((stale, reputation));
    assert(longer.drop_last() =~= prices);
    assert(longer.last() == (stale, reputation));
}

/// A report whose price lies between the lower and upper quartile, or
/// within one interquartile range beyond them, is never dropped as an
/// outlier; the quartiles are the sorted prices at positions n/4 and 3n/4.
/// Every kept report is one of the given reports.
pub proof fn lemma_outlier_removal_keeps_the_middle(prices: Seq<PriceEntry>, i: int)
    requires
        outliers_outcome(prices) is Ok,
        0 <= i < prices.len(),
        prices.len() >= 4 ==> ({
            let t = sorted_values(price_values(prices));
            let n = prices.len() as int;
            let q1 = t[n / 4] as int;
            let q3 = t[(3 * n) / 4] as int;
            q1 - (q3 - q1) <= prices[i].price <= q3 + (q3 - q1)
        }),
    ensures
        (outliers_outcome(prices)->Ok_0).contains(prices[i]),
        forall|e: PriceEntry| #[trigger] (outliers_outcome(prices)->Ok_0).contains(e) ==> prices.contains(e),
{
    broadcast use vstd::seq_lib::group_to_multiset_ensures;

    if prices.len() < 4 {
        assert(prices.contains(prices[i]));
    } else {
        let vals = price_values(prices);
        let t = sorted_values(vals);
        lemma_sorted_values(vals);
        assert(t.len() == t.to_multiset().len());
        assert(vals.len() == vals.to_multiset().len());
        let n = prices.len() as int;
        let q1 = t[n / 4] as int;
        let q3 = t[(3 * n) / 4] as int;
        assert(n / 4 <= (3 * n) / 4 < n);
        assert(q1 <= q3);
        let iqr = q3 - q1;
        let m = outlier_margin(prices);
        assert(m == trunc_div(150 * iqr, 100));
        assert(m >= iqr) by (nonlinear_arith)
            requires
                iqr >= 0,
                m == trunc_div(150 * iqr, 100),
                trunc_div(150 * iqr, 100) == (if 150 * iqr == 0 { 0 } else { (150 * iqr) / 100 }),
        ;
        let keep = |e: PriceEntry| q1 - m <= e.price && e.price <= q3 + m;
        assert(keep(prices[i]));
        prices.lemma_filter_contains(keep, i);
        assert forall|e: PriceEntry| #[trigger] prices.filter(keep).contains(e) implies prices.contains(e) by {
            prices.lemma_filter_contains_rev(keep, e);
        }
    }
}

} // verus!

//! A yield aggregator: users deposit, the admin spreads deposits over
//! strategies by target weight, and compounding adds yield net of a
//! performance fee.

use vstd::prelude::*;
use crate::arith::{trunc_div, in_i128, div_pos};
use crate::kv::KeyedStore;
use crate::AccountId;

verus! {

/// A strategy and its allocation.
#[derive(Clone, Copy, Debug, PartialEq, Eq, Structural)]
pub struct StrategyConfig {
    pub id: u64,
    /// Share of deposits the strategy should hold, in basis points.
    pub target_weight_bps: u32,
    pub allocated_amount: i128,
    /// Historical yield in basis points.
    pub apy_bps: u32,
}

/// Why a yield-aggregator entry point refused to act.
#[derive(Clone, Copy, Debug, PartialEq, Eq, Structural)]
pub enum YieldError {
    AlreadyInitialized,
    NotInitialized,
    NonPositiveAmount,
    InsufficientBalance,
    StrategyNotFound,
    ArithmeticOverflow,
}

/// The yield credited by one compounding round: 1% of the deposits.
pub open spec fn compound_yield(total: int) -> int {
    trunc_div(total, 100)
}

/// The performance fee on a yield.
pub open spec fn performance_fee(yield_earned: int, perf_fee_bps: int) -> int {
    trunc_div(yield_earned * perf_fee_bps, 10000)
}

/// A strategy's share of the deposits.
pub open spec fn target_allocation(total: int, weight_bps: int) -> int {
    trunc_div(total * weight_bps, 10000)
}

/// The contract's state.
pub struct YieldAggregatorContract {
    pub admin: Option<AccountId>,
    pub fee_recipient: Option<AccountId>,
    pub perf_fee_bps: Option<u32>,
    pub total_deposits: i128,
    pub user_balances: KeyedStore<u64, i128>,
    pub strategies: KeyedStore<u64, StrategyConfig>,
    /// Strategy ids in the order they were added (an id added twice
    /// appears twice).
    pub strategy_list: Vec<u64>,
}

impl YieldAggregatorContract {
    pub open spec fn wf(&self) -> bool {
        &&& self.user_balances.wf()
        &&& self.strategies.wf()
        &&& self.admin.is_none() ==> self.strategy_list@.len() == 0 && self.strategies.entries@.len() == 0
        &&& forall|k: u64| #[trigger] self.strategies.has(k) <==> self.strategy_list@.contains(k)
        &&& forall|k: u64| #[trigger] self.strategies.has(k) ==> self.strategies.view()[k].id == k
    }

    /// A user's balance; zero if never recorded.
    pub open spec fn balance_of(&self, user: AccountId) -> i128 {
        if self.user_balances.view().contains_key(user) {
            self.user_balances.view()[user]
        } else {
            0
        }
    }

    pub fn new() -> (s: YieldAggregatorContract)
        ensures
            s.wf(),
            s.admin.is_none(),
            s.fee_recipient.is_none(),
            s.perf_fee_bps.is_none(),
            s.total_deposits == 0,
            s.user_balances.view() == Map::<u64, i128>::empty(),
            s.strategies.view() == Map::<u64, StrategyConfig>::empty(),
            s.strategy_list@.len() == 0,
    {
        YieldAggregatorContract {
            admin: None,
            fee_recipient: None,
            perf_fee_bps: None,
            total_deposits: 0,
            user_balances: KeyedStore::new(),
            strategies: KeyedStore::new(),
            strategy_list: Vec::new(),
        }
    }

    fn read_balance(&self, user: AccountId) -> (r: i128)
        requires
            self.wf(),
        ensures
            r == self.balance_of(user),
    {
        match self.user_balances.get(&user) {
            Some(v) => *v,
            None => 0,
        }
    }

    /// Sets the admin, fee recipient and fee; the deposit total restarts at
    /// zero and the strategy list empties.
    pub fn initialize(&mut self, admin: AccountId, fee_recipient: AccountId, perf_fee_bps: u32) -> (r: Result<
        (),
        YieldError,
    >)
        requires
            old(self).wf(),
        ensures
            final(self).wf(),
            r is Ok <==> old(self).admin.is_none(),
            r matches Err(e) ==> e == YieldError::AlreadyInitialized,
            r is Err ==> *final(self) == *old(self),
            r is Ok ==> *final(self) == (YieldAggregatorContract {
                admin: Some(admin),
                fee_recipient: Some(fee_recipient),
                perf_fee_bps: Some(perf_fee_bps),
                total_deposits: 0,
                strategy_list: final(self).strategy_list,
                ..*old(self)
            }) && final(self).strategy_list@.len() == 0,
    {
        if self.admin.is_some() {
            return Err(YieldError::AlreadyInitialized);
        }
        self.admin = Some(admin);
        self.fee_recipient = Some(fee_recipient);
        self.perf_fee_bps = Some(perf_fee_bps);
        self.total_deposits = 0;
        self.strategy_list = Vec::new();
        Ok(())
    }

    /// Credits `amount` to `from` and to the deposit total.
    pub fn deposit(&mut self, from: AccountId, amount: i128) -> (r: Result<(), YieldError>)
        requires
            old(self).wf(),
        ensures
            final(self).wf(),
            r is Ok <==> amount > 0 && in_i128(old(self).balance_of(from) + amount) && in_i128(
                old(self).total_deposits + amount,
            ),
            r matches Err(e) ==> e == (if amount <= 0 {
                YieldError::NonPositiveAmount
            } else {
                YieldError::ArithmeticOverflow
            }),
            r is Err ==> *final(self) == *old(self),
            r is Ok ==> {
                &&& final(self).user_balances.view() == old(self).user_balances.view().insert(
                    from,
                    (old(self).balance_of(from) + amount) as i128,
                )
                &&& *final(self) == (YieldAggregatorContract {
                    user_balances: final(self).user_balances,
                    total_deposits: (old(self).total_deposits + amount) as i128,
                    ..*old(self)
                })
            },
    {
        if amount <= 0 {
            return Err(YieldError::NonPositiveAmount);
        }
        let current = self.read_balance(from);
        let new_balance = match current.checked_add(amount) {
            Some(v) => v,
            None => return Err(YieldError::ArithmeticOverflow),
        };
        let new_total = match self.total_deposits.checked_add(amount) {
            Some(v) => v,
            None => return Err(YieldError::ArithmeticOverflow),
        };
        self.user_balances.set(from, new_balance);
        self.total_deposits = new_total;
        Ok(())
    }

    /// Debits `amount` from `to` and from the deposit total.
    pub fn withdraw(&mut self, to: AccountId, amount: i128) -> (r: Result<(), YieldError>)
        requires
            old(self).wf(),
        ensures
            final(self).wf(),
            r is Ok <==> amount > 0 && old(self).balance_of(to) >= amount && in_i128(
                old(self).total_deposits - amount,
            ),
            r matches Err(e) ==> e == (if amount <= 0 {
                YieldError::NonPositiveAmount
            } else if old(self).balance_of(to) < amount {
                YieldError::InsufficientBalance
            } else {
                YieldError::ArithmeticOverflow
            }),
            r is Err ==> *final(self) == *old(self),
            r is Ok ==> {
                &&& final(self).user_balances.view() == old(self).user_balances.view().insert(
                    to,
                    (old(self).balance_of(to) - amount) as i128,
                )
                &&& *final(self) == (YieldAggregatorContract {
                    user_balances: final(self).user_balances,
                    total_deposits: (old(self).total_deposits - amount) as i128,
                    ..*old(self)
                })
            },
    {
        if amount <= 0 {
            return Err(YieldError::NonPositiveAmount);
        }
        let current = self.read_balance(to);
        if current < amount {
            return Err(YieldError::InsufficientBalance);
        }
        let new_total = match self.total_deposits.checked_sub(amount) {
            Some(v) => v,
            None => return Err(YieldError::ArithmeticOverflow),
        };
        self.user_balances.set(to, current - amount);
        self.total_deposits = new_total;
        Ok(())
    }

    /// Registers (or resets) a strategy with a target weight, no allocation
    /// and a 5% default yield, and appends its id to the strategy list.
    pub fn add_strategy(&mut self, strategy_id: u64, target_weight_bps: u32) -> (r: Result<(), YieldError>)
        requires
            old(self).wf(),
        ensures
            final(self).wf(),
            r is Ok <==> old(self).admin.is_some(),
            r matches Err(e) ==> e == YieldError::NotInitialized,
            r is Err ==> *final(self) == *old(self),
            r is Ok ==> {
                &&& final(self).strategies.view() == old(self).strategies.view().insert(
                    strategy_id,
                    StrategyConfig { id: strategy_id, target_weight_bps, allocated_amount: 0, apy_bps: 500 },
                )
                &&& final(self).strategy_list@ == old(self).strategy_list@.push(strategy_id)
                &&& *final(self) == (YieldAggregatorContract {
                    strategies: final(self).strategies,
                    strategy_list: final(self).strategy_list,
                    ..*old(self)
                })
            },
    {
        if self.admin.is_none() {
            return Err(YieldError::NotInitialized);
        }
        let ghost before = *self;
        let strategy = StrategyConfig { id: strategy_id, target_weight_bps, allocated_amount: 0, apy_bps: 500 };
        self.strategies.set(strategy_id, strategy);
        self.strategy_list.push(strategy_id);
        proof {
            assert forall|k: u64| #[trigger] self.strategies.has(k) <==> self.strategy_list@.contains(k) by {
                assert(self.strategies.view().contains_key(k) == self.strategies.has(k));
                assert(before.strategies.view().contains_key(k) == before.strategies.has(k));
                if k == strategy_id {
                    assert(self.strategy_list@[self.strategy_list@.len() - 1] == k);
                }
                if before.strategy_list@.contains(k) {
                    let j = choose|j: int| 0 <= j < before.strategy_list@.len() && before.strategy_list@[j] == k;
                    assert(self.strategy_list@[j] == k);
                }
                if self.strategy_list@.contains(k) && k != strategy_id {
                    let j = choose|j: int| 0 <= j < self.strategy_list@.len() && self.strategy_list@[j] == k;
                    assert(j < before.strategy_list@.len());
                    assert(before.strategy_list@[j] == k);
                }
            }
            assert forall|k: u64| #[trigger] self.strategies.has(k) implies self.strategies.view()[k].id == k by {
                assert(self.strategies.view().contains_key(k));
                if k != strategy_id {
                    assert(before.strategies.view().contains_key(k));
                }
            }
        }
        Ok(())
    }
}


/// A strategy with its allocation set to its share of `total`.
pub open spec fn rebalanced(c: StrategyConfig, total: i128) -> StrategyConfig {
    StrategyConfig { allocated_amount: target_allocation(total as int, c.target_weight_bps as int) as i128, ..c }
}

impl YieldAggregatorContract {
    /// Why `rebalance` refuses, if it does.
    pub open spec fn rebalance_error(&self) -> Option<YieldError> {
        if self.admin.is_none() {
            Some(YieldError::NotInitialized)
        } else if exists|k: u64|
            #[trigger] self.strategies.view().contains_key(k) && !in_i128(
                self.total_deposits * self.strategies.view()[k].target_weight_bps,
            ) {
            Some(YieldError::ArithmeticOverflow)
        } else {
            None
        }
    }

    /// Sets every strategy's allocation to its target share of the
    /// deposits (admin only).
    pub fn rebalance(&mut self) -> (r: Result<(), YieldError>)
        requires
            old(self).wf(),
        ensures
            final(self).wf(),
            r is Ok <==> old(self).rebalance_error() is None,
            r matches Err(e) ==> old(self).rebalance_error() == Some(e),
            r is Err ==> *final(self) == *old(self),
            r is Ok ==> {
                &&& final(self).strategies.view() == Map::new(
                    |k: u64| old(self).strategies.view().contains_key(k),
                    |k: u64| rebalanced(old(self).strategies.view()[k], old(self).total_deposits),
                )
                &&& *final(self) == (YieldAggregatorContract { strategies: final(self).strategies, ..*old(self) })
            },
    {
        if self.admin.is_none() {
            return Err(YieldError::NotInitialized);
        }
        let total = self.total_deposits;
        let n = self.strategies.len();
        let mut i: usize = 0;
        while i < n
            invariant
                self.wf(),
                self.admin.is_some(),
                total == self.total_deposits,
                n == self.strategies.entries@.len(),
                i <= n,
                forall|j: int| 0 <= j < i ==> in_i128(total * (#[trigger] self.strategies.entries@[j]).1.target_weight_bps),
            decreases n - i,
        {
            let weight = self.strategies.entries[i].1.target_weight_bps;
            if total.checked_mul(weight as i128).is_none() {
                proof {
                    self.strategies.lemma_entry_in_view(i as int);
                    let k = self.strategies.entries@[i as int].0;
                    assert(self.strategies.view().contains_key(k));
                    assert(!in_i128(self.total_deposits * self.strategies.view()[k].target_weight_bps));
                }
                return Err(YieldError::ArithmeticOverflow);
            }
            i = i + 1;
        }
        proof {
            assert forall|k: u64| #[trigger] self.strategies.view().contains_key(k) implies in_i128(
                total * self.strategies.view()[k].target_weight_bps,
            ) by {
                self.strategies.lemma_view_has_entry(k);
                self.strategies.lemma_entry_in_view(self.strategies.pos(k));
            }
        }
        let ghost before = *self;
        let ghost old_view = self.strategies.view();
        let ghost keys = self.strategies.keys();
        let mut i: usize = 0;
        while i < n
            invariant
                self.wf(),
                before.wf(),
                old_view == before.strategies.view(),
                keys == before.strategies.keys(),
                self.strategies.keys() == keys,
                n == keys.len(),
                i <= n,
                self.strategies.entries@.len() == n,
                total == before.total_deposits,
                forall|k: u64| #[trigger] self.strategies.view().contains_key(k) <==> old_view.contains_key(k),
                forall|k: u64| #[trigger] old_view.contains_key(k) ==> in_i128(total * old_view[k].target_weight_bps),
                forall|j: int| 0 <= j < i ==> self.strategies.view()[#[trigger] keys[j]] == rebalanced(old_view[keys[j]], total),
                forall|j: int| i <= j < n ==> self.strategies.view()[#[trigger] keys[j]] == old_view[keys[j]],
                self.admin == before.admin,
                self.fee_recipient == before.fee_recipient,
                self.perf_fee_bps == before.perf_fee_bps,
                self.total_deposits == before.total_deposits,
                self.user_balances == before.user_balances,
                self.strategy_list == before.strategy_list,
            decreases n - i,
        {
            let (k, cfg) = self.strategies.entries[i];
            proof {
                self.strategies.lemma_entry_in_view(i as int);
                assert(keys[i as int] == k);
                before.strategies.lemma_entry_in_view(i as int);
            }
            let product = total * (cfg.target_weight_bps as i128);
            let target = div_pos(product, 10000);
            let ghost mid = self.strategies.view();
            self.strategies.set(k, StrategyConfig { allocated_amount: target, ..cfg });
            proof {
                assert forall|j: int| 0 <= j < n && j != i implies keys[j] != k by {
                    before.strategies.lemma_entry_in_view(j);
                }
                assert forall|k2: u64| #[trigger] self.strategies.has(k2) <==> self.strategy_list@.contains(k2) by {
                    assert(self.strategies.view().contains_key(k2) == self.strategies.has(k2));
                    assert(before.strategies.view().contains_key(k2) == before.strategies.has(k2));
                }
                assert forall|k2: u64| #[trigger] self.strategies.has(k2) implies self.strategies.view()[k2].id == k2 by {
                    assert(self.strategies.view().contains_key(k2));
                    assert(mid.contains_key(k2));
                    if k2 != k {
                        assert(self.strategies.view()[k2] == mid[k2]);
                        assert(mid.contains_key(k2) == old_view.contains_key(k2));
                        assert(before.strategies.has(k2));
                        before.strategies.lemma_view_has_entry(k2);
                        let j = before.strategies.pos(k2);
                        assert(keys[j] == k2);
                    }
                }
            }
            i = i + 1;
        }
        proof {
            assert forall|k: u64| #[trigger] old_view.contains_key(k) implies self.strategies.view()[k] == rebalanced(
                old_view[k],
                total,
            ) by {
                before.strategies.lemma_view_has_entry(k);
                let j = before.strategies.pos(k);
                assert(keys[j] == k);
            }
            assert(self.strategies.view() =~= Map::new(
                |k: u64| old_view.contains_key(k),
                |k: u64| rebalanced(old_view[k], total),
            ));
            assert forall|k: u64| #[trigger] self.strategies.has(k) <==> self.strategy_list@.contains(k) by {
                assert(self.strategies.view().contains_key(k) == self.strategies.has(k));
                assert(before.strategies.view().contains_key(k) == before.strategies.has(k));
            }
            assert forall|k: u64| #[trigger] self.strategies.has(k) implies self.strategies.view()[k].id == k by {
                assert(self.strategies.view().contains_key(k));
                assert(before.strategies.view().contains_key(k));
                assert(before.strategies.has(k));
            }
        }
        Ok(())
    }

    /// Credits one compounding round: 1% of the deposits, less the
    /// performance fee, is added to the deposit total.
    pub fn auto_compound(&mut self) -> (r: Result<(), YieldError>)
        requires
            old(self).wf(),
        ensures
            final(self).wf(),
            ({
                let y = compound_yield(old(self).total_deposits as int);
                let bps = match old(self).perf_fee_bps {
                    Some(b) => b as int,
                    None => 0,
                };
                let fee = performance_fee(y, bps);
                &&& r is Ok <==> in_i128(y * bps) && in_i128(y - fee) && in_i128(old(self).total_deposits + (y - fee))
                &&& r matches Err(e) ==> e == YieldError::ArithmeticOverflow
                &&& r is Err ==> *final(self) == *old(self)
                &&& r is Ok ==> *final(self) == (YieldAggregatorContract {
                    total_deposits: (old(self).total_deposits + (y - fee)) as i128,
                    ..*old(self)
                })
            }),
    {
        let total = self.total_deposits;
        let yield_earned = div_pos(total, 100);
        let bps: u32 = match self.perf_fee_bps {
            Some(b) => b,
            None => 0,
        };
        let gross = match yield_earned.checked_mul(bps as i128) {
            Some(v) => v,
            None => return Err(YieldError::ArithmeticOverflow),
        };
        let fee = div_pos(gross, 10000);
        let net = match yield_earned.checked_sub(fee) {
            Some(v) => v,
            None => return Err(YieldError::ArithmeticOverflow),
        };
        let new_total = match total.checked_add(net) {
            Some(v) => v,
            None => return Err(YieldError::ArithmeticOverflow),
        };
        self.total_deposits = new_total;
        Ok(())
    }

    /// Zeroes `to`'s balance, taking it off the deposit total (which does
    /// not go below zero); nothing happens when the balance is not positive.
    pub fn emergency_withdraw(&mut self, to: AccountId)
        requires
            old(self).wf(),
        ensures
            final(self).wf(),
            old(self).balance_of(to) <= 0 ==> *final(self) == *old(self),
            old(self).balance_of(to) > 0 ==> {
                let b = old(self).balance_of(to);
                &&& final(self).user_balances.view() == old(self).user_balances.view().insert(to, 0)
                &&& *final(self) == (YieldAggregatorContract {
                    user_balances: final(self).user_balances,
                    total_deposits: if old(self).total_deposits >= b {
                        (old(self).total_deposits - b) as i128
                    } else {
                        0
                    },
                    ..*old(self)
                })
            },
    {
        let current = self.read_balance(to);
        if current > 0 {
            self.user_balances.set(to, 0);
            let total = self.total_deposits;
            self.total_deposits = if total >= current {
                total - current
            } else {
                0
            };
        }
    }

    /// A strategy's target weight in basis points.
    pub fn get_strategy_allocation(&self, strategy_id: u64) -> (r: Result<u32, YieldError>)
        requires
            self.wf(),
        ensures
            r is Ok <==> self.strategies.view().contains_key(strategy_id),
            r matches Err(e) ==> e == YieldError::StrategyNotFound,
            r matches Ok(w) ==> w == self.strategies.view()[strategy_id].target_weight_bps,
    {
        match self.strategies.get(&strategy_id) {
            Some(c) => Ok(c.target_weight_bps),
            None => Err(YieldError::StrategyNotFound),
        }
    }

    pub fn get_user_balance(&self, user: AccountId) -> (r: i128)
        requires
            self.wf(),
        ensures
            r == self.balance_of(user),
    {
        self.read_balance(user)
    }

    pub fn get_total_deposits(&self) -> (r: i128)
        ensures
            r == self.total_deposits,
    {
        self.total_deposits
    }
}

/// Depositing an amount and withdrawing it again leaves every user's
/// balance and the deposit total as they were: `s1` is `s0` after a
/// deposit and `s2` is `s1` after the withdrawal, each as the entry points
/// state it.
pub proof fn lemma_deposit_withdraw_roundtrip(
    s0: YieldAggregatorContract,
    s1: YieldAggregatorContract,
    s2: YieldAggregatorContract,
    user: AccountId,
    amount: i128,
)
    requires
        s1.user_balances.view() == s0.user_balances.view().insert(user, (s0.balance_of(user) + amount) as i128),
        s1.total_deposits == s0.total_deposits + amount,
        s2.user_balances.view() == s1.user_balances.view().insert(user, (s1.balance_of(user) - amount) as i128),
        s2.total_deposits == s1.total_deposits - amount,
        in_i128(s0.balance_of(user) + amount),
    ensures
        forall|u: AccountId| #[trigger] s2.balance_of(u) == s0.balance_of(u),
        s2.total_deposits == s0.total_deposits,
{
}

/// Compounding never shrinks the deposits while the fee is at most 100%:
/// the net yield on a non-negative total is non-negative, and it is
/// positive once the total reaches 100 and the fee is below 100%.
pub proof fn lemma_compound_never_shrinks(total: int, perf_fee_bps: int)
    requires
        0 <= total,
        0 <= perf_fee_bps <= 10000,
    ensures
        compound_yield(total) - performance_fee(compound_yield(total), perf_fee_bps) >= 0,
        total >= 100 && perf_fee_bps < 10000 ==> compound_yield(total) - performance_fee(
            compound_yield(total),
            perf_fee_bps,
        ) > 0,
{
    let y = compound_yield(total);
    assert(y == total / 100);
    assert(y >= 0) by (nonlinear_arith)
        requires
            y == total / 100,
            total >= 0,
    ;
    let p = y * perf_fee_bps;
    assert(0 <= p <= y * 10000) by (nonlinear_arith)
        requires
            p == y * perf_fee_bps,
            y >= 0,
            0 <= perf_fee_bps <= 10000,
    ;
    let fee = performance_fee(y, perf_fee_bps);
    assert(fee == p / 10000 || p == 0);
    assert(fee <= y) by (nonlinear_arith)
        requires
            fee == p / 10000 || (p == 0 && fee == 0),
            0 <= p <= y * 10000,
    ;
    if total >= 100 && perf_fee_bps < 10000 {
        assert(y >= 1) by (nonlinear_arith)
            requires
                y == total / 100,
                total >= 100,
        ;
        assert(p < y * 10000) by (nonlinear_arith)
            requires
                p == y * perf_fee_bps,
                y >= 1,
                perf_fee_bps < 10000,
        ;
        assert(fee < y) by (nonlinear_arith)
            requires
                fee == p / 10000 || (p == 0 && fee == 0),
                0 <= p < y * 10000,
                y >= 1,
        ;
    }
}

} // verus!

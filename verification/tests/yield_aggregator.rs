use soroban_contracts::yield_aggregator::{YieldAggregatorContract, YieldError};

const ADMIN: u64 = 1;
const FEE_RECIPIENT: u64 = 2;
const USER: u64 = 3;
const LENDING: u64 = 10;
const AMM: u64 = 11;

#[test]
fn test_yield_aggregator_workflow() {
    let mut agg = YieldAggregatorContract::new();
    agg.initialize(ADMIN, FEE_RECIPIENT, 1000).unwrap();

    agg.add_strategy(LENDING, 6000).unwrap();
    agg.add_strategy(AMM, 4000).unwrap();

    agg.deposit(USER, 10000).unwrap();
    assert_eq!(agg.get_user_balance(USER), 10000);
    assert_eq!(agg.get_total_deposits(), 10000);

    agg.rebalance().unwrap();

    agg.auto_compound().unwrap();
    assert!(agg.get_total_deposits() > 10000);

    agg.withdraw(USER, 5000).unwrap();
    assert_eq!(agg.get_user_balance(USER), 5000);

    agg.emergency_withdraw(USER);
    assert_eq!(agg.get_user_balance(USER), 0);
}

#[test]
fn rebalance_allocates_by_weight() {
    let mut agg = YieldAggregatorContract::new();
    agg.initialize(ADMIN, FEE_RECIPIENT, 1000).unwrap();
    agg.add_strategy(LENDING, 6000).unwrap();
    agg.add_strategy(AMM, 4000).unwrap();
    agg.deposit(USER, 10001).unwrap();
    agg.rebalance().unwrap();
    assert_eq!(agg.strategies.get(&LENDING).unwrap().allocated_amount, 6000);
    assert_eq!(agg.strategies.get(&AMM).unwrap().allocated_amount, 4000);
    assert_eq!(agg.get_strategy_allocation(LENDING), Ok(6000));
    assert_eq!(agg.get_strategy_allocation(99), Err(YieldError::StrategyNotFound));
}

#[test]
fn compounding_adds_one_percent_net_of_fee() {
    let mut agg = YieldAggregatorContract::new();
    agg.initialize(ADMIN, FEE_RECIPIENT, 1000).unwrap();
    agg.deposit(USER, 10000).unwrap();
    agg.auto_compound().unwrap();
    // 1% of 10000 is 100; the 10% fee is 10.
    assert_eq!(agg.get_total_deposits(), 10090);
    agg.auto_compound().unwrap();
    // 1% of 10090 is 100; the fee is 10.
    assert_eq!(agg.get_total_deposits(), 10180);
}

#[test]
fn deposit_then_withdraw_restores_balances() {
    let mut agg = YieldAggregatorContract::new();
    agg.initialize(ADMIN, FEE_RECIPIENT, 0).unwrap();
    agg.deposit(4, 700).unwrap();
    agg.deposit(USER, 300).unwrap();
    agg.withdraw(USER, 300).unwrap();
    assert_eq!(agg.get_user_balance(USER), 0);
    assert_eq!(agg.get_user_balance(4), 700);
    assert_eq!(agg.get_total_deposits(), 700);
}

#[test]
fn refusals() {
    let mut agg = YieldAggregatorContract::new();
    assert_eq!(agg.add_strategy(LENDING, 1), Err(YieldError::NotInitialized));
    assert_eq!(agg.rebalance(), Err(YieldError::NotInitialized));
    agg.initialize(ADMIN, FEE_RECIPIENT, 1000).unwrap();
    assert_eq!(agg.initialize(ADMIN, FEE_RECIPIENT, 1000), Err(YieldError::AlreadyInitialized));
    assert_eq!(agg.deposit(USER, 0), Err(YieldError::NonPositiveAmount));
    assert_eq!(agg.withdraw(USER, 0), Err(YieldError::NonPositiveAmount));
    agg.deposit(USER, 10).unwrap();
    assert_eq!(agg.withdraw(USER, 11), Err(YieldError::InsufficientBalance));
    assert_eq!(agg.get_user_balance(USER), 10);
}

#[test]
fn emergency_withdraw_of_nothing_changes_nothing() {
    let mut agg = YieldAggregatorContract::new();
    agg.initialize(ADMIN, FEE_RECIPIENT, 1000).unwrap();
    agg.deposit(4, 50).unwrap();
    agg.emergency_withdraw(USER);
    assert_eq!(agg.get_total_deposits(), 50);
    assert_eq!(agg.get_user_balance(4), 50);
}

#[test]
fn deposit_overflow_is_refused() {
    let mut agg = YieldAggregatorContract::new();
    agg.deposit(USER, i128::MAX).unwrap();
    assert_eq!(agg.deposit(USER, 1), Err(YieldError::ArithmeticOverflow));
    assert_eq!(agg.get_total_deposits(), i128::MAX);
}

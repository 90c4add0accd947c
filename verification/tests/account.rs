//! The account ledger: tier table at construction and ledger updates.

use acticks::account::Account;
use acticks::order::OrderIntent;
use acticks::simulator::Simulator;

#[test]
fn initialization() {
    let cash_account = Account::new(1000);
    assert_eq!(cash_account.multiplier, 1);
    assert!(!cash_account.shorting_enabled);
    assert_eq!(cash_account.daytrading_buying_power, 0);
    assert_eq!(cash_account.regt_buying_power, cash_account.cash);

    let low_equity_account = Account::new(20000);
    assert_eq!(low_equity_account.multiplier, 2);
    assert!(low_equity_account.shorting_enabled);
    assert_eq!(low_equity_account.daytrading_buying_power, 0);
    assert_eq!(low_equity_account.regt_buying_power, 2 * low_equity_account.cash);

    let high_equity_account = Account::new(200000);
    assert_eq!(high_equity_account.multiplier, 4);
    assert!(high_equity_account.shorting_enabled);
    assert_eq!(high_equity_account.daytrading_buying_power, 4 * high_equity_account.cash);
    assert_eq!(high_equity_account.regt_buying_power, 2 * high_equity_account.cash);
}

#[test]
fn account_fields_at_start() {
    let a = Account::new(100000);
    assert_eq!(a.cash, 100000);
    assert_eq!(a.portfolio_value, 100000);
    assert_eq!(a.equity, 100000);
    assert_eq!(a.last_equity, 100000);
    assert_eq!(a.buying_power, 400000);
    assert_eq!(a.initial_margin, 0);
    assert_eq!(a.daytrade_count, 0);
    assert_eq!(a.long_market_value, 0);
    assert_eq!(a.short_market_value, 0);
    assert_eq!(a.currency, "USD");
}

#[test]
fn ledger_after_one_buy() {
    // One market buy of ten shares at the seeded price of 100.
    let mut sim = Simulator::new(100000, &vec!["AAPL".to_string()]);
    let oi = OrderIntent::new("AAPL").qty(10);
    sim.post_order(&oi, 1).unwrap();
    let a = sim.get_account();
    assert_eq!(a.cash, 99000);
    assert_eq!(a.long_market_value, 1000);
    assert_eq!(a.short_market_value, 0);
    // initial margin grows by half the cost; the day-trade counter ticks
    assert_eq!(a.initial_margin, 500);
    assert_eq!(a.daytrade_count, 1);
    // day-trading buying power is the remaining headroom times the multiplier
    assert_eq!(a.daytrading_buying_power, (100000 - 500) * 4);
    assert_eq!(a.regt_buying_power, 400000 / 2);
}

#[test]
fn set_cash_recreates_account() {
    let mut sim = Simulator::new(1000, &vec!["AAPL".to_string()]);
    sim.set_cash(30000);
    let a = sim.get_account();
    assert_eq!(a.cash, 30000);
    assert_eq!(a.multiplier, 4);
    assert!(a.shorting_enabled);
}

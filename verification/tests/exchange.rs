//! The exchange: the marketability table, parking, ticks and errors.

use acticks::asset::Asset;
use acticks::errors::Error;
use acticks::exchange::{is_marketable, Exchange, MarketStatus};
use acticks::order::{Order, OrderIntent, OrderType, Side};

fn order_with(ot: OrderType, side: Side) -> Order {
    let a = Asset::from_symbol("AAPL", 0);
    let oi = OrderIntent::new("AAPL").qty(1).side(side).order_type(ot);
    Order::from_intent(&oi, &a, 1, 0).0
}

#[test]
fn marketability_table() {
    // market orders always fill
    assert!(is_marketable(&order_with(OrderType::Market, Side::Buy), 100));
    assert!(is_marketable(&order_with(OrderType::Market, Side::Sell), 100));
    // limit buy: limit at or above the price
    assert!(is_marketable(&order_with(OrderType::Limit { limit_price: 100 }, Side::Buy), 99));
    assert!(is_marketable(&order_with(OrderType::Limit { limit_price: 100 }, Side::Buy), 100));
    assert!(!is_marketable(&order_with(OrderType::Limit { limit_price: 100 }, Side::Buy), 101));
    // limit sell: limit at or below the price
    assert!(is_marketable(&order_with(OrderType::Limit { limit_price: 100 }, Side::Sell), 101));
    assert!(!is_marketable(&order_with(OrderType::Limit { limit_price: 100 }, Side::Sell), 99));
    // stop buy: price has reached the stop from below
    assert!(is_marketable(&order_with(OrderType::Stop { stop_price: 95 }, Side::Buy), 96));
    assert!(!is_marketable(&order_with(OrderType::Stop { stop_price: 95 }, Side::Buy), 94));
    // stop sell: price has reached the stop from above
    assert!(is_marketable(&order_with(OrderType::Stop { stop_price: 95 }, Side::Sell), 94));
    assert!(!is_marketable(&order_with(OrderType::Stop { stop_price: 95 }, Side::Sell), 96));
    // stop limit: both constraints
    let sl_buy = OrderType::StopLimit { limit_price: 105, stop_price: 95 };
    assert!(is_marketable(&order_with(sl_buy, Side::Buy), 100));
    assert!(!is_marketable(&order_with(sl_buy, Side::Buy), 94));
    assert!(!is_marketable(&order_with(sl_buy, Side::Buy), 106));
    let sl_sell = OrderType::StopLimit { limit_price: 95, stop_price: 105 };
    assert!(is_marketable(&order_with(sl_sell, Side::Sell), 100));
    assert!(!is_marketable(&order_with(sl_sell, Side::Sell), 106));
    assert!(!is_marketable(&order_with(sl_sell, Side::Sell), 94));
}

#[test]
fn transmit_before_any_price_is_rejected() {
    let mut ex = Exchange::new(Vec::new());
    let o = order_with(OrderType::Market, Side::Buy);
    assert_eq!(ex.get_price("AAPL"), Err(Error::UninitializedPrice));
    match ex.transmit_order(o, 0) {
        Err(Error::UninitializedPrice) => {}
        _ => panic!("expected an uninitialized-price error"),
    }
    assert_eq!(ex.stored_orders.len(), 0);
}

#[test]
fn new_exchange_seeds_default_prices() {
    let assets = vec![Asset::from_symbol("AAPL", 0), Asset::from_symbol("MSFT", 1)];
    let ex = Exchange::new(assets);
    assert_eq!(ex.market_status(), MarketStatus::Open);
    assert!(ex.is_open());
    assert_eq!(ex.get_price("AAPL"), Ok(100));
    assert_eq!(ex.get_price("MSFT"), Ok(100));
    assert_eq!(ex.get_price("ZZZ"), Err(Error::UninitializedPrice));
}

#[test]
fn tick_fills_resting_orders_in_submission_order() {
    let assets = vec![Asset::from_symbol("AAPL", 0)];
    let mut ex = Exchange::new(assets);
    let a = order_with(OrderType::Limit { limit_price: 100 }, Side::Buy);
    let mut b = order_with(OrderType::Limit { limit_price: 100 }, Side::Buy);
    b.id = 2;
    let first = ex.update_price("AAPL", 105, 0);
    assert_eq!(first.len(), 0);
    assert_eq!(ex.transmit_order(a, 1).unwrap(), None);
    assert_eq!(ex.transmit_order(b, 2).unwrap(), None);
    assert_eq!(ex.stored_orders.len(), 2);
    let fills = ex.update_price("AAPL", 99, 3);
    assert_eq!(fills.len(), 2);
    assert_eq!(fills[0].order.id, 1);
    assert_eq!(fills[1].order.id, 2);
    assert_eq!(fills[0].price, 99);
    assert_eq!(fills[1].price, 99);
    assert_eq!(ex.stored_orders.len(), 0);
}

#[test]
fn fills_carry_signed_quantities() {
    let assets = vec![Asset::from_symbol("AAPL", 0)];
    let mut ex = Exchange::new(assets);
    let buy = {
        let a = Asset::from_symbol("AAPL", 0);
        let oi = OrderIntent::new("AAPL").qty(10).side(Side::Buy);
        Order::from_intent(&oi, &a, 1, 0).0
    };
    let sell = {
        let a = Asset::from_symbol("AAPL", 0);
        let oi = OrderIntent::new("AAPL").qty(4).side(Side::Sell);
        Order::from_intent(&oi, &a, 2, 0).0
    };
    let f1 = ex.transmit_order(buy, 1).unwrap().unwrap();
    assert_eq!(f1.qty, 10);
    assert_eq!(f1.price, 100);
    let f2 = ex.transmit_order(sell, 2).unwrap().unwrap();
    assert_eq!(f2.qty, -4);
}

#[test]
fn resting_orders_are_not_marketable() {
    let assets = vec![Asset::from_symbol("AAPL", 0)];
    let mut ex = Exchange::new(assets);
    ex.update_price("AAPL", 105, 0);
    let o = order_with(OrderType::Limit { limit_price: 100 }, Side::Buy);
    assert_eq!(ex.transmit_order(o, 1).unwrap(), None);
    let price = ex.get_price("AAPL").unwrap();
    for resting in &ex.stored_orders {
        assert!(!is_marketable(resting, price));
    }
}

#[test]
fn maintenance_rejects_orders() {
    let assets = vec![Asset::from_symbol("AAPL", 0)];
    let mut ex = Exchange::new(assets);
    ex.market_status = MarketStatus::Maintenance;
    let o = order_with(OrderType::Market, Side::Buy);
    assert_eq!(ex.transmit_order(o, 1), Err(Error::Other));
    assert_eq!(ex.stored_orders.len(), 0);
}

#[test]
fn closed_market_parks_everything() {
    let assets = vec![Asset::from_symbol("AAPL", 0)];
    let mut ex = Exchange::new(assets);
    ex.market_status = MarketStatus::Closed;
    let o = order_with(OrderType::Market, Side::Buy);
    assert_eq!(ex.transmit_order(o, 1).unwrap(), None);
    assert_eq!(ex.stored_orders.len(), 1);
}

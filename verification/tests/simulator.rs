//! End-to-end scenarios through the coordinator.

use acticks::errors::Error;
use acticks::market::Trade;
use acticks::order::{OrderClass, OrderIntent, OrderStatus, OrderType, Side};
use acticks::position::Side as PositionSide;
use acticks::simulator::Simulator;

fn one_symbol() -> Simulator {
    Simulator::new(100000, &vec!["AAPL".to_string()])
}

#[test]
fn single_market_buy() {
    // Initial cash 100000; AAPL at the seeded price of 100; market buy of 10.
    let mut sim = one_symbol();
    let oi = OrderIntent::new("AAPL").qty(10).side(Side::Buy);
    let ret = sim.post_order(&oi, 1).unwrap();
    let pos = sim.get_position("AAPL").unwrap();
    assert_eq!(pos.qty, 10);
    assert_eq!(pos.avg_entry_price, 100);
    assert_eq!(pos.cost_basis, 1000);
    assert_eq!(pos.market_value, 1000);
    assert_eq!(sim.get_account().cash, 99000);
    assert_eq!(sim.get_account().long_market_value, 1000);
    let stored = sim.get_order(ret.id).unwrap();
    assert_eq!(stored.status, OrderStatus::Filled);
    assert_eq!(stored.filled_avg_price, Some(100));
    assert_eq!(stored.filled_qty, 10);
}

#[test]
fn limit_buy_parks_then_fills_on_tick() {
    // Price 105; a limit buy at 100 parks; the tick to 99 fills it there.
    let mut sim = one_symbol();
    sim.price_tick("AAPL", 105, 1);
    let oi = OrderIntent::new("AAPL").qty(5).side(Side::Buy).order_type(OrderType::Limit {
        limit_price: 100,
    });
    sim.post_order(&oi, 2).unwrap();
    assert_eq!(sim.exchange.stored_orders.len(), 1);
    assert_eq!(sim.get_account().cash, 100000);
    assert!(sim.get_position("AAPL").is_err());
    sim.price_tick("AAPL", 99, 3);
    let pos = sim.get_position("AAPL").unwrap();
    assert_eq!(pos.qty, 5);
    assert_eq!(pos.cost_basis, 495);
    assert_eq!(pos.market_value, 495);
    assert_eq!(sim.get_account().cash, 99505);
    assert_eq!(sim.exchange.stored_orders.len(), 0);
}

#[test]
fn stop_sell_triggers() {
    // Position of 10 at cost basis 1000, price 100; a stop sell at 95
    // parks and fills when the price falls to 94.
    let mut sim = one_symbol();
    let buy = OrderIntent::new("AAPL").qty(10).side(Side::Buy);
    sim.post_order(&buy, 1).unwrap();
    assert_eq!(sim.get_position("AAPL").unwrap().cost_basis, 1000);
    assert_eq!(sim.get_account().cash, 99000);
    let stop = OrderIntent::new("AAPL").qty(10).side(Side::Sell).order_type(OrderType::Stop {
        stop_price: 95,
    });
    sim.post_order(&stop, 2).unwrap();
    assert_eq!(sim.exchange.stored_orders.len(), 1);
    sim.price_tick("AAPL", 94, 3);
    assert!(sim.get_position("AAPL").is_err());
    assert_eq!(sim.get_account().cash, 99000 + 940);
}

#[test]
fn cancel_race() {
    // A limit buy at 50 with the price at 100 parks; a cancel wins the
    // race, the later tick to 50 fills nothing, and a second cancel fails.
    let mut sim = one_symbol();
    let oi = OrderIntent::new("AAPL").qty(1).side(Side::Buy).order_type(OrderType::Limit {
        limit_price: 50,
    });
    let ret = sim.post_order(&oi, 1).unwrap();
    assert_eq!(sim.cancel_order(ret.id, 2), Ok(()));
    assert_eq!(sim.get_order(ret.id).unwrap().status, OrderStatus::Canceled);
    sim.price_tick("AAPL", 50, 3);
    assert!(sim.get_position("AAPL").is_err());
    assert_eq!(sim.get_order(ret.id).unwrap().status, OrderStatus::Canceled);
    assert_eq!(sim.cancel_order(ret.id, 4), Err(Error::Uncancelable));
}

#[test]
fn short_open_then_close() {
    // A market sell of 10 at price 100 opens a short; closing at 110 nets
    // a loss of 100.
    let mut sim = one_symbol();
    let sell = OrderIntent::new("AAPL").qty(10).side(Side::Sell);
    sim.post_order(&sell, 1).unwrap();
    {
        let pos = sim.get_position("AAPL").unwrap();
        assert_eq!(pos.qty, -10);
        assert_eq!(pos.side, PositionSide::Short);
        assert_eq!(pos.cost_basis, -1000);
    }
    assert_eq!(sim.get_account().short_market_value, -1000);
    assert_eq!(sim.get_account().cash, 101000);
    sim.price_tick("AAPL", 110, 2);
    let closing = sim.close_position("AAPL", 3).unwrap();
    assert_eq!(closing.side, Side::Buy);
    assert_eq!(closing.qty, 10);
    assert!(sim.get_position("AAPL").is_err());
    assert_eq!(sim.get_account().cash, 99900);
}

#[test]
fn multi_tick_fifo() {
    // Two equal limit buys fill in submission order on the same tick.
    let mut sim = one_symbol();
    sim.price_tick("AAPL", 105, 1);
    let a = OrderIntent::new("AAPL").qty(1).side(Side::Buy).order_type(OrderType::Limit {
        limit_price: 100,
    });
    let b = OrderIntent::new("AAPL").qty(1).side(Side::Buy).order_type(OrderType::Limit {
        limit_price: 100,
    });
    let ra = sim.post_order(&a, 2).unwrap();
    let rb = sim.post_order(&b, 3).unwrap();
    sim.price_tick("AAPL", 99, 4);
    let oa = sim.get_order(ra.id).unwrap().clone();
    let ob = sim.get_order(rb.id).unwrap().clone();
    assert_eq!(oa.status, OrderStatus::Filled);
    assert_eq!(ob.status, OrderStatus::Filled);
    assert!(oa.filled_at.unwrap() <= ob.filled_at.unwrap());
    assert!(ra.id < rb.id);
    assert_eq!(sim.get_position("AAPL").unwrap().qty, 2);
}

#[test]
fn round_trip_restores_cash_up_to_price_difference() {
    // Buy 10 at 100, sell 10 at 110: the position is gone and the cash
    // gained the difference times the quantity.
    let mut sim = one_symbol();
    sim.post_order(&OrderIntent::new("AAPL").qty(10).side(Side::Buy), 1).unwrap();
    sim.price_tick("AAPL", 110, 2);
    sim.post_order(&OrderIntent::new("AAPL").qty(10).side(Side::Sell), 3).unwrap();
    assert!(sim.get_position("AAPL").is_err());
    assert_eq!(sim.get_account().cash, 100000 - (100 - 110) * 10);
}

#[test]
fn marking_twice_with_the_same_price_changes_nothing() {
    let mut sim = one_symbol();
    sim.post_order(&OrderIntent::new("AAPL").qty(3).side(Side::Buy), 1).unwrap();
    sim.price_tick("AAPL", 104, 2);
    let once = sim.get_position("AAPL").unwrap().clone();
    sim.price_tick("AAPL", 104, 3);
    let twice = sim.get_position("AAPL").unwrap().clone();
    assert_eq!(once, twice);
}

#[test]
fn intake_errors() {
    let mut sim = one_symbol();
    // zero quantity is a bad request
    let zero = OrderIntent::new("AAPL");
    assert!(matches!(sim.post_order(&zero, 1), Err(Error::BadRequest)));
    // unknown symbols are not found
    let unknown = OrderIntent::new("ZZZ").qty(1);
    assert!(matches!(sim.post_order(&unknown, 2), Err(Error::NotFound)));
    assert!(matches!(sim.get_asset("ZZZ"), Err(Error::NotFound)));
    assert!(matches!(sim.get_position("ZZZ"), Err(Error::NotFound)));
    assert!(matches!(sim.get_order(99), Err(Error::NotFound)));
    assert!(matches!(sim.close_position("AAPL", 3), Err(Error::NotFound)));
    // nothing was persisted along the way
    assert_eq!(sim.get_orders().len(), 0);
}

#[test]
fn cancel_all_empties_the_resting_queue() {
    let mut sim = one_symbol();
    let park = OrderIntent::new("AAPL").qty(1).side(Side::Buy).order_type(OrderType::Limit {
        limit_price: 50,
    });
    let r1 = sim.post_order(&park, 1).unwrap();
    let r2 = sim.post_order(&park, 2).unwrap();
    assert_eq!(sim.exchange.stored_orders.len(), 2);
    sim.cancel_orders(3);
    assert_eq!(sim.exchange.stored_orders.len(), 0);
    assert_eq!(sim.get_order(r1.id).unwrap().status, OrderStatus::Canceled);
    assert_eq!(sim.get_order(r2.id).unwrap().status, OrderStatus::Canceled);
    sim.price_tick("AAPL", 40, 4);
    assert!(sim.get_position("AAPL").is_err());
}

#[test]
fn close_positions_closes_everything() {
    let mut sim = Simulator::new(100000, &vec!["AAPL".to_string(), "MSFT".to_string()]);
    sim.post_order(&OrderIntent::new("AAPL").qty(5).side(Side::Buy), 1).unwrap();
    sim.post_order(&OrderIntent::new("MSFT").qty(2).side(Side::Sell), 2).unwrap();
    assert_eq!(sim.get_positions().len(), 2);
    sim.close_positions(3);
    assert_eq!(sim.get_positions().len(), 0);
    assert_eq!(sim.get_account().cash, 100000);
}

#[test]
fn asset_and_clock_queries() {
    let sim = Simulator::new(1000, &vec!["AAPL".to_string(), "MSFT".to_string()]);
    assert_eq!(sim.get_assets().len(), 2);
    let a = sim.get_asset("MSFT").unwrap();
    assert_eq!(a.symbol, "MSFT");
    let by_id = sim.get_asset_by_id(a.id).unwrap();
    assert_eq!(by_id.symbol, "MSFT");
    let clock = sim.get_clock(7);
    assert_eq!(clock.timestamp, 7);
    assert!(clock.is_open);
}

#[test]
fn lookup_by_client_order_id() {
    let mut sim = one_symbol();
    let oi = OrderIntent::new("AAPL").qty(1).client_order_id("mine-1");
    sim.post_order(&oi, 1).unwrap();
    let o = sim.get_order_by_client_id("mine-1").unwrap();
    assert_eq!(o.qty, 1);
    assert!(matches!(sim.get_order_by_client_id("absent"), Err(Error::NotFound)));
}

#[test]
fn trade_stream_ticks_the_book() {
    let mut sim = one_symbol();
    sim.post_order(&OrderIntent::new("AAPL").qty(1).side(Side::Buy), 1).unwrap();
    let trades = vec![
        Trade::new("AAPL", 100, 1, 1599991200000),
        Trade::new("AAPL", 200, 1, 1599991200001),
    ];
    for t in &trades {
        sim.price_tick(t.symbol.as_str(), t.price, t.timestamp);
    }
    assert_eq!(sim.exchange.get_price("AAPL"), Ok(200));
    let pos = sim.get_position("AAPL").unwrap();
    assert_eq!(pos.current_price, 200);
    assert_eq!(pos.market_value, 200);
}

#[test]
fn filled_orders_are_never_mutated_further() {
    let mut sim = one_symbol();
    let ret = sim.post_order(&OrderIntent::new("AAPL").qty(2).side(Side::Buy), 1).unwrap();
    let filled = sim.get_order(ret.id).unwrap().clone();
    assert_eq!(filled.status, OrderStatus::Filled);
    assert_eq!(sim.cancel_order(ret.id, 2), Err(Error::Uncancelable));
    assert_eq!(sim.get_order(ret.id).unwrap(), &filled);
}

#[test]
fn malformed_one_triggers_other_is_a_bad_request() {
    let mut sim = one_symbol();
    let both_empty = OrderIntent::new("AAPL").qty(1).order_class(OrderClass::OTO {
        take_profit: None,
        stop_loss: None,
    });
    assert!(matches!(sim.post_order(&both_empty, 1), Err(Error::BadRequest)));
    assert_eq!(sim.get_orders().len(), 0);
}

#[test]
fn cost_basis_sums_the_fills() {
    let mut sim = one_symbol();
    sim.post_order(&OrderIntent::new("AAPL").qty(10).side(Side::Buy), 1).unwrap();
    sim.price_tick("AAPL", 110, 2);
    sim.post_order(&OrderIntent::new("AAPL").qty(5).side(Side::Buy), 3).unwrap();
    let pos = sim.get_position("AAPL").unwrap();
    assert_eq!(pos.qty, 15);
    assert_eq!(pos.cost_basis, 10 * 100 + 5 * 110);
}

#[test]
fn cash_and_market_value_are_conserved() {
    // cash + market value always equals the initial cash plus the
    // unrealized profit and loss, at the marked prices
    let mut sim = one_symbol();
    sim.post_order(&OrderIntent::new("AAPL").qty(10).side(Side::Buy), 1).unwrap();
    sim.price_tick("AAPL", 120, 2);
    let a = sim.get_account();
    let pos = sim.get_position("AAPL").unwrap();
    assert_eq!(a.cash + pos.market_value, 100000 + pos.unrealized_pl);
}

//! Order construction, the intent builder, and the cancel lifecycle.

use acticks::asset::Asset;
use acticks::errors::Error;
use acticks::order::{Order, OrderClass, OrderIntent, OrderStatus, OrderType, Side, StopLossSpec, TakeProfitSpec, TimeInForce};

#[test]
fn from_intent() {
    let a: Asset = Asset::from_symbol("TEST", 7);
    let oi: OrderIntent = OrderIntent::new(&a.symbol);
    let (o, _legs): (Order, Vec<Order>) = Order::from_intent(&oi, &a, 1, 0);
    assert_eq!(o.asset_id, a.id);
}

#[test]
fn from_builder() {
    let a: Asset = Asset::from_symbol("TEST", 0);
    let oi: OrderIntent = OrderIntent::new(&a.symbol)
        .qty(100)
        .side(Side::Sell)
        .order_type(OrderType::Limit { limit_price: 100 })
        .time_in_force(TimeInForce::FOK)
        .extended_hours(true)
        .client_order_id("TEST");
    let (o, _legs) = Order::from_intent(&oi, &a, 1, 0);
    assert_eq!(o.qty, 100);
    assert_eq!(o.side, Side::Sell);
    assert_eq!(o.order_type, OrderType::Limit { limit_price: 100 });
    assert_eq!(o.time_in_force, TimeInForce::FOK);
    assert!(o.extended_hours);
    assert_eq!(&o.client_order_id, "TEST");
}

#[test]
fn generated_client_order_id_is_the_server_id() {
    let a = Asset::from_symbol("TEST", 0);
    let oi = OrderIntent::new(&a.symbol).qty(1);
    let (o, _legs) = Order::from_intent(&oi, &a, 42, 0);
    assert_eq!(&o.client_order_id, "42");
}

#[test]
fn one_triggers_other_builds_a_held_leg() {
    let a = Asset::from_symbol("TEST", 0);
    let oi = OrderIntent::new(&a.symbol).qty(5).side(Side::Buy).order_class(OrderClass::OTO {
        take_profit: Some(TakeProfitSpec { limit_price: 120 }),
        stop_loss: None,
    });
    let (o, legs) = Order::from_intent(&oi, &a, 1, 9);
    assert_eq!(legs.len(), 1);
    assert_eq!(o.legs, Some(vec![2]));
    let leg = &legs[0];
    assert_eq!(leg.id, 2);
    assert_eq!(leg.status, OrderStatus::Held);
    assert_eq!(leg.side, Side::Sell);
    assert_eq!(leg.qty, 5);
    assert_eq!(leg.order_type, OrderType::Limit { limit_price: 120 });
}

#[test]
fn bracket_builds_two_held_legs() {
    let a = Asset::from_symbol("TEST", 0);
    let oi = OrderIntent::new(&a.symbol).qty(3).order_class(OrderClass::Bracket {
        take_profit: TakeProfitSpec { limit_price: 130 },
        stop_loss: StopLossSpec { stop_price: 90, limit_price: Some(89) },
    });
    let (o, legs) = Order::from_intent(&oi, &a, 10, 0);
    assert_eq!(o.legs, Some(vec![11, 12]));
    assert_eq!(legs.len(), 2);
    assert_eq!(legs[0].order_type, OrderType::Limit { limit_price: 130 });
    assert_eq!(legs[1].order_type, OrderType::StopLimit { limit_price: 89, stop_price: 90 });
    assert_eq!(legs[0].status, OrderStatus::Held);
    assert_eq!(legs[1].status, OrderStatus::Held);
}

#[test]
fn cancel_is_idempotent_after_first_success() {
    let a = Asset::from_symbol("TEST", 0);
    let oi = OrderIntent::new(&a.symbol).qty(1);
    let (mut o, _legs) = Order::from_intent(&oi, &a, 1, 0);
    assert_eq!(o.cancel(5), Ok(()));
    assert_eq!(o.status, OrderStatus::Canceled);
    assert_eq!(o.canceled_at, Some(5));
    let before = o.clone();
    assert_eq!(o.cancel(6), Err(Error::Uncancelable));
    assert_eq!(o, before);
}

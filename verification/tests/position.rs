//! The position aggregate: mark-to-market arithmetic.

use acticks::asset::{AssetClass, Exchange};
use acticks::position::{Position, Ratio, Side};

fn ratio_value(r: Ratio) -> f64 {
    (r.num as f64) / (r.den as f64)
}

#[test]
fn update_position() {
    let mut pos = Position {
        asset_id: 0,
        symbol: "Test".into(),
        exchange: Exchange::NYSE,
        asset_class: AssetClass::UsEquity,
        avg_entry_price: 80,
        qty: 1,
        side: Side::Long,
        market_value: 100,
        cost_basis: 80,
        unrealized_pl: 20,
        unrealized_plpc: Ratio { num: 20, den: 80 },
        unrealized_intraday_pl: 0,
        unrealized_intraday_plpc: Ratio { num: 0, den: 1 },
        current_price: 100,
        lastday_price: 100,
        change_today: Ratio { num: 0, den: 1 },
    };
    pos.update_with_price(105);
    assert_eq!(pos.market_value, 105);
    assert_eq!(pos.current_price, 105);
    assert!((ratio_value(pos.change_today) - 0.05).abs() < 0.001);
    assert_eq!(pos.unrealized_pl, 25);
    assert!((ratio_value(pos.unrealized_plpc) - 0.3125).abs() < 0.001);
    assert_eq!(pos.unrealized_intraday_pl, 5);
    assert!((ratio_value(pos.unrealized_intraday_plpc) - 0.05).abs() < 0.001);
}

#[test]
fn mark_is_idempotent() {
    let mut pos = Position {
        asset_id: 0,
        symbol: "Test".into(),
        exchange: Exchange::NYSE,
        asset_class: AssetClass::UsEquity,
        avg_entry_price: 80,
        qty: 4,
        side: Side::Long,
        market_value: 400,
        cost_basis: 320,
        unrealized_pl: 80,
        unrealized_plpc: Ratio { num: 80, den: 320 },
        unrealized_intraday_pl: 0,
        unrealized_intraday_plpc: Ratio { num: 0, den: 1 },
        current_price: 100,
        lastday_price: 100,
        change_today: Ratio { num: 0, den: 1 },
    };
    pos.update_with_price(97);
    let once = pos.clone();
    pos.update_with_price(97);
    assert_eq!(pos, once);
}

#[test]
fn mark_with_zero_denominators_yields_zero_ratios() {
    let mut pos = Position {
        asset_id: 0,
        symbol: "Test".into(),
        exchange: Exchange::NYSE,
        asset_class: AssetClass::UsEquity,
        avg_entry_price: 0,
        qty: 2,
        side: Side::Long,
        market_value: 0,
        cost_basis: 0,
        unrealized_pl: 0,
        unrealized_plpc: Ratio { num: 0, den: 1 },
        unrealized_intraday_pl: 0,
        unrealized_intraday_plpc: Ratio { num: 0, den: 1 },
        current_price: 0,
        lastday_price: 0,
        change_today: Ratio { num: 0, den: 1 },
    };
    pos.update_with_price(50);
    // last-day price and cost basis are zero: the ratios fall back to zero
    assert_eq!(pos.change_today, Ratio { num: 0, den: 1 });
    assert_eq!(pos.unrealized_plpc, Ratio { num: 0, den: 1 });
    assert_eq!(pos.unrealized_intraday_plpc, Ratio { num: 0, den: 1 });
    assert_eq!(pos.market_value, 100);
}

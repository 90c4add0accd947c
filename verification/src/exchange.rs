//! The synthetic exchange: a price book per symbol, a FIFO queue of resting
//! orders, the marketability rule, and fill emission.
//!
//! An order transmitted while the market accepts it either fills entirely at
//! the current price or rests; a price tick refreshes the book and fills, in
//! their original submission order, every resting order that the new price
//! makes marketable.  No partial fills exist.

use vstd::prelude::*;
use crate::asset::Asset;
use crate::errors::Error;
use crate::order::{Order, OrderType, Side};
use crate::utils::str_eq;

verus! {

/// The price every registered symbol starts at.
pub const DEFAULT_PRICE: u64 = 100;

/// The marketability table, the single source of truth: a market order is
/// always marketable; a limit buy when its limit is at or above the price,
/// a limit sell when at or below; a stop buy when the price has reached the
/// stop from below, a stop sell from above; a stop-limit order when both
/// its limit and its stop constraint hold.
pub open spec fn marketable_at(ot: OrderType, side: Side, price: u64) -> bool {
    match (ot, side) {
        (OrderType::Market, _) => true,
        (OrderType::Limit { limit_price }, Side::Buy) => limit_price >= price,
        (OrderType::Limit { limit_price }, Side::Sell) => limit_price <= price,
        (OrderType::Stop { stop_price }, Side::Buy) => stop_price <= price,
        (OrderType::Stop { stop_price }, Side::Sell) => stop_price >= price,
        (OrderType::StopLimit { limit_price, stop_price }, Side::Buy) => limit_price >= price
            && price >= stop_price,
        (OrderType::StopLimit { limit_price, stop_price }, Side::Sell) => limit_price <= price
            && price <= stop_price,
    }
}

/// Marketability of an order: its type and side decide, nothing else.
pub open spec fn marketable_spec(o: Order, price: u64) -> bool {
    marketable_at(o.order_type, o.side, price)
}

/// A full execution of an order at a price and time.  The quantity is
/// signed: positive for a buy, negative for a sell.
#[derive(Clone, Debug, PartialEq)]
pub struct TradeFill {
    pub time: u64,
    pub qty: i64,
    pub price: u64,
    pub order: Order,
}

/// The phase of the trading day.
#[derive(Clone, Copy, Debug, PartialEq, Eq, Structural)]
pub enum MarketStatus {
    PreOpen,
    Open,
    PostClose,
    Maintenance,
    Closed,
}

/// What the admission rule does with an arriving order.
pub enum Admission {
    Accept,
    Park,
    Reject,
}

/// Admission by market status and the order's extended-hours flag: open
/// accepts unconditionally, the extended sessions accept extended-hours
/// orders only and park the rest, maintenance rejects, closed parks.
pub open spec fn admission(s: MarketStatus, extended_hours: bool) -> Admission {
    match s {
        MarketStatus::Open => Admission::Accept,
        MarketStatus::PreOpen | MarketStatus::PostClose => if extended_hours {
            Admission::Accept
        } else {
            Admission::Park
        },
        MarketStatus::Maintenance => Admission::Reject,
        MarketStatus::Closed => Admission::Park,
    }
}

/// The signed quantity of a fill of `o`: the full order quantity, positive
/// for a buy and negative for a sell.
pub open spec fn signed_qty(o: Order) -> int {
    match o.side {
        Side::Buy => o.qty as int,
        Side::Sell => -(o.qty as int),
    }
}

/// The fill of `o` at `price` and time `now`.
pub open spec fn fill_of(o: Order, price: u64, now: u64) -> TradeFill {
    TradeFill { time: now, qty: signed_qty(o) as i64, price, order: o }
}

/// Decides marketability of `o` at `price` by the table: a market order
/// always; a limit buy at or under its limit; a limit sell at or over; a
/// stop buy once the price reaches the stop from below, a stop sell once it
/// reaches it from above; a stop-limit order when both constraints hold.
pub fn is_marketable(o: &Order, price: u64) -> (r: bool)
    ensures
        r == marketable_spec(*o, price),
{
    match (o.order_type, o.side) {
        (OrderType::Market, _) => true,
        (OrderType::Limit { limit_price }, Side::Buy) => limit_price >= price,
        (OrderType::Limit { limit_price }, Side::Sell) => limit_price <= price,
        (OrderType::Stop { stop_price }, Side::Buy) => stop_price <= price,
        (OrderType::Stop { stop_price }, Side::Sell) => stop_price >= price,
        (OrderType::StopLimit { limit_price, stop_price }, Side::Buy) => limit_price >= price
            && price >= stop_price,
        (OrderType::StopLimit { limit_price, stop_price }, Side::Sell) => limit_price <= price
            && price <= stop_price,
    }
}

/// One entry of the price book.
#[derive(Clone, Debug)]
pub struct PriceEntry {
    pub symbol: String,
    pub price: u64,
}

/// The index of the book entry for `sym`, or -1 when there is none.
pub open spec fn price_index(ps: Seq<PriceEntry>, sym: Seq<char>) -> int
    decreases ps.len(),
{
    if ps.len() == 0 {
        -1
    } else if ps[0].symbol@ == sym {
        0
    } else {
        let r = price_index(ps.drop_first(), sym);
        if r == -1 {
            -1
        } else {
            r + 1
        }
    }
}

/// The current price for `sym`, if the book holds one.
pub open spec fn price_of(ps: Seq<PriceEntry>, sym: Seq<char>) -> Option<u64> {
    let i = price_index(ps, sym);
    if i == -1 {
        None
    } else {
        Some(ps[i].price)
    }
}

/// `price_index` finds the first entry for the symbol, and -1 means
/// absence.
pub proof fn lemma_price_index(ps: Seq<PriceEntry>, sym: Seq<char>)
    ensures
        price_index(ps, sym) == -1 ==> forall|i: int|
            0 <= i < ps.len() ==> (#[trigger] ps[i]).symbol@ != sym,
        price_index(ps, sym) != -1 ==> {
            &&& 0 <= price_index(ps, sym) < ps.len()
            &&& ps[price_index(ps, sym)].symbol@ == sym
            &&& forall|i: int| 0 <= i < price_index(ps, sym) ==> (#[trigger] ps[i]).symbol@ != sym
        },
    decreases ps.len(),
{
    if ps.len() > 0 {
        let tail = ps.drop_first();
        lemma_price_index(tail, sym);
        assert(forall|i: int| 1 <= i < ps.len() ==> (#[trigger] ps[i]) == tail[i - 1]);
        if ps[0].symbol@ != sym {
            let r = price_index(tail, sym);
            if r == -1 {
                assert(forall|i: int| 0 <= i < ps.len() ==> (#[trigger] ps[i]).symbol@ != sym)
                    by {
                    assert(forall|i: int|
                        1 <= i < ps.len() ==> (#[trigger] ps[i]).symbol@ == tail[i - 1].symbol@);
                }
            } else {
                assert(ps[r + 1] == tail[r]);
                assert(forall|i: int| 0 <= i < r + 1 ==> (#[trigger] ps[i]).symbol@ != sym) by {
                    assert(forall|i: int|
                        1 <= i < ps.len() ==> (#[trigger] ps[i]).symbol@ == tail[i - 1].symbol@);
                }
            }
        }
    }
}

/// `price_index` returns `at` when `at` is the first index for `sym`.
proof fn lemma_price_index_found(ps: Seq<PriceEntry>, sym: Seq<char>, at: int)
    requires
        0 <= at < ps.len(),
        ps[at].symbol@ == sym,
        forall|j: int| 0 <= j < at ==> (#[trigger] ps[j]).symbol@ != sym,
    ensures
        price_index(ps, sym) == at,
    decreases ps.len(),
{
    if at > 0 {
        assert(forall|i: int| 1 <= i < ps.len() ==> (#[trigger] ps[i]) == ps.drop_first()[i - 1]);
        lemma_price_index_found(ps.drop_first(), sym, at - 1);
    }
}

/// Two books whose entries carry the same symbols index every symbol at the
/// same place.
pub proof fn lemma_price_index_same_symbols(a: Seq<PriceEntry>, b: Seq<PriceEntry>, sym: Seq<char>)
    requires
        a.len() == b.len(),
        forall|i: int| 0 <= i < a.len() ==> (#[trigger] a[i]).symbol@ == b[i].symbol@,
    ensures
        price_index(a, sym) == price_index(b, sym),
    decreases a.len(),
{
    if a.len() > 0 {
        assert(forall|i: int| 1 <= i < a.len() ==> (#[trigger] a[i]) == a.drop_first()[i - 1]);
        assert(forall|i: int| 1 <= i < b.len() ==> (#[trigger] b[i]) == b.drop_first()[i - 1]);
        assert(forall|i: int|
            0 <= i < a.drop_first().len() ==> (#[trigger] a.drop_first()[i]).symbol@
                == b.drop_first()[i].symbol@);
        lemma_price_index_same_symbols(a.drop_first(), b.drop_first(), sym);
    }
}

/// True when the tick for `sym` at `price` fills the resting order `o`.
pub open spec fn fills_on_tick(o: Order, sym: Seq<char>, price: u64) -> bool {
    o.symbol@ == sym && marketable_spec(o, price)
}

/// The resting orders that survive a tick for `sym` at `price`, in their
/// original order.
pub open spec fn kept_orders(rs: Seq<Order>, sym: Seq<char>, price: u64) -> Seq<Order>
    decreases rs.len(),
{
    if rs.len() == 0 {
        Seq::empty()
    } else {
        let rest = kept_orders(rs.drop_last(), sym, price);
        if fills_on_tick(rs.last(), sym, price) {
            rest
        } else {
            rest.push(rs.last())
        }
    }
}

/// The fills that a tick for `sym` at `price` at time `now` emits, in the
/// submission order of the filled orders.
pub open spec fn tick_fills(rs: Seq<Order>, sym: Seq<char>, price: u64, now: u64) -> Seq<TradeFill>
    decreases rs.len(),
{
    if rs.len() == 0 {
        Seq::empty()
    } else {
        let rest = tick_fills(rs.drop_last(), sym, price, now);
        if fills_on_tick(rs.last(), sym, price) {
            rest.push(fill_of(rs.last(), price, now))
        } else {
            rest
        }
    }
}

/// Every survivor of a tick is one of the old resting orders and is not
/// marketable at the tick price for the tick symbol.
pub proof fn lemma_kept_orders(rs: Seq<Order>, sym: Seq<char>, price: u64)
    ensures
        forall|k: int|
            0 <= k < kept_orders(rs, sym, price).len() ==> {
                &&& exists|j: int|
                    0 <= j < rs.len() && #[trigger] kept_orders(rs, sym, price)[k] == rs[j]
                &&& !fills_on_tick(kept_orders(rs, sym, price)[k], sym, price)
            },
    decreases rs.len(),
{
    if rs.len() > 0 {
        lemma_kept_orders(rs.drop_last(), sym, price);
        assert(forall|j: int|
            0 <= j < rs.len() - 1 ==> (#[trigger] rs.drop_last()[j]) == rs[j]);
        let kept = kept_orders(rs, sym, price);
        let rest = kept_orders(rs.drop_last(), sym, price);
        assert forall|k: int| 0 <= k < kept.len() implies {
            &&& exists|j: int| 0 <= j < rs.len() && #[trigger] kept[k] == rs[j]
            &&& !fills_on_tick(kept[k], sym, price)
        } by {
            if k < rest.len() {
                assert(kept[k] == rest[k]);
                let j = choose|j: int| 0 <= j < rs.drop_last().len() && rest[k] == rs.drop_last()[j];
                assert(kept[k] == rs[j]);
            } else {
                assert(kept[k] == rs.last());
                assert(kept[k] == rs[rs.len() - 1]);
            }
        }
    }
}

/// Every fill of a tick is the fill of one of the old resting orders.
pub proof fn lemma_tick_fills(rs: Seq<Order>, sym: Seq<char>, price: u64, now: u64)
    ensures
        forall|k: int|
            0 <= k < tick_fills(rs, sym, price, now).len() ==> exists|j: int|
                0 <= j < rs.len() && #[trigger] tick_fills(rs, sym, price, now)[k] == fill_of(
                    rs[j],
                    price,
                    now,
                ) && fills_on_tick(rs[j], sym, price),
    decreases rs.len(),
{
    if rs.len() > 0 {
        lemma_tick_fills(rs.drop_last(), sym, price, now);
        assert(forall|j: int|
            0 <= j < rs.len() - 1 ==> (#[trigger] rs.drop_last()[j]) == rs[j]);
        let fills = tick_fills(rs, sym, price, now);
        let rest = tick_fills(rs.drop_last(), sym, price, now);
        assert forall|k: int| 0 <= k < fills.len() implies exists|j: int|
            0 <= j < rs.len() && #[trigger] fills[k] == fill_of(rs[j], price, now) && fills_on_tick(
                rs[j],
                sym,
                price,
            ) by {
            if k < rest.len() {
                assert(fills[k] == rest[k]);
                let j = choose|j: int|
                    0 <= j < rs.drop_last().len() && rest[k] == fill_of(rs.drop_last()[j], price, now)
                        && fills_on_tick(rs.drop_last()[j], sym, price);
                assert(fills[k] == fill_of(rs[j], price, now));
            } else {
                assert(fills[k] == fill_of(rs[rs.len() - 1], price, now));
            }
        }
    }
}

/// Survivors of a tick keep pairwise distinct ids when the resting queue
/// had pairwise distinct ids.
pub proof fn lemma_kept_orders_distinct(rs: Seq<Order>, sym: Seq<char>, price: u64)
    requires
        forall|a: int, b: int| 0 <= a < b < rs.len() ==> rs[a].id != rs[b].id,
    ensures
        forall|a: int, b: int|
            0 <= a < b < kept_orders(rs, sym, price).len() ==> kept_orders(rs, sym, price)[a].id
                != kept_orders(rs, sym, price)[b].id,
    decreases rs.len(),
{
    if rs.len() > 0 {
        let head = rs.drop_last();
        assert(forall|j: int| 0 <= j < rs.len() - 1 ==> (#[trigger] head[j]) == rs[j]);
        lemma_kept_orders_distinct(head, sym, price);
        lemma_kept_orders(head, sym, price);
        let kept = kept_orders(rs, sym, price);
        let rest = kept_orders(head, sym, price);
        if !fills_on_tick(rs.last(), sym, price) {
            assert forall|a: int, b: int| 0 <= a < b < kept.len() implies kept[a].id
                != kept[b].id by {
                if b < rest.len() {
                    assert(kept[a] == rest[a] && kept[b] == rest[b]);
                } else {
                    assert(kept[b] == rs.last());
                    assert(kept[a] == rest[a]);
                    let j = choose|j: int| 0 <= j < head.len() && rest[a] == head[j];
                    assert(rs[j].id != rs[rs.len() - 1].id);
                }
            }
        }
    }
}

/// The resting queue without every order of id `id`, in original order.
pub open spec fn resting_without(rs: Seq<Order>, id: u64) -> Seq<Order>
    decreases rs.len(),
{
    if rs.len() == 0 {
        Seq::empty()
    } else {
        let rest = resting_without(rs.drop_last(), id);
        if rs.last().id == id {
            rest
        } else {
            rest.push(rs.last())
        }
    }
}

/// Every survivor of a removal is one of the old resting orders and does
/// not carry the removed id.
pub proof fn lemma_resting_without(rs: Seq<Order>, id: u64)
    ensures
        forall|k: int|
            0 <= k < resting_without(rs, id).len() ==> {
                &&& exists|j: int|
                    0 <= j < rs.len() && #[trigger] resting_without(rs, id)[k] == rs[j]
                &&& resting_without(rs, id)[k].id != id
            },
    decreases rs.len(),
{
    if rs.len() > 0 {
        lemma_resting_without(rs.drop_last(), id);
        assert(forall|j: int|
            0 <= j < rs.len() - 1 ==> (#[trigger] rs.drop_last()[j]) == rs[j]);
        let kept = resting_without(rs, id);
        let rest = resting_without(rs.drop_last(), id);
        assert forall|k: int| 0 <= k < kept.len() implies {
            &&& exists|j: int| 0 <= j < rs.len() && #[trigger] kept[k] == rs[j]
            &&& kept[k].id != id
        } by {
            if k < rest.len() {
                assert(kept[k] == rest[k]);
                let j = choose|j: int|
                    0 <= j < rs.drop_last().len() && rest[k] == rs.drop_last()[j];
                assert(kept[k] == rs[j]);
            } else {
                assert(kept[k] == rs[rs.len() - 1]);
            }
        }
    }
}

/// Survivors of a removal keep pairwise distinct ids when the resting
/// queue had pairwise distinct ids.
pub proof fn lemma_resting_without_distinct(rs: Seq<Order>, id: u64)
    requires
        forall|a: int, b: int| 0 <= a < b < rs.len() ==> rs[a].id != rs[b].id,
    ensures
        forall|a: int, b: int|
            0 <= a < b < resting_without(rs, id).len() ==> resting_without(rs, id)[a].id
                != resting_without(rs, id)[b].id,
    decreases rs.len(),
{
    if rs.len() > 0 {
        let head = rs.drop_last();
        assert(forall|j: int| 0 <= j < rs.len() - 1 ==> (#[trigger] head[j]) == rs[j]);
        lemma_resting_without_distinct(head, id);
        lemma_resting_without(head, id);
        let kept = resting_without(rs, id);
        let rest = resting_without(head, id);
        if rs.last().id != id {
            assert forall|a: int, b: int| 0 <= a < b < kept.len() implies kept[a].id
                != kept[b].id by {
                if b < rest.len() {
                    assert(kept[a] == rest[a] && kept[b] == rest[b]);
                } else {
                    assert(kept[b] == rs.last());
                    assert(kept[a] == rest[a]);
                    let j = choose|j: int| 0 <= j < head.len() && rest[a] == head[j];
                    assert(rs[j].id != rs[rs.len() - 1].id);
                }
            }
        }
    }
}

/// The price book, the resting queue and the market status.
pub struct Exchange {
    pub stored_orders: Vec<Order>,
    pub market_status: MarketStatus,
    pub assets: Vec<Asset>,
    pub prices: Vec<PriceEntry>,
}

impl Exchange {
    /// The book keys symbols uniquely, and while the market is open no
    /// resting order is marketable at the current price for its symbol.
    pub open spec fn wf(&self) -> bool {
        &&& forall|i: int, j: int|
            0 <= i < j < self.prices@.len() ==> self.prices@[i].symbol@ != self.prices@[j].symbol@
        &&& self.market_status == MarketStatus::Open ==> forall|k: int|
            0 <= k < self.stored_orders@.len() ==> match price_of(
                self.prices@,
                (#[trigger] self.stored_orders@[k]).symbol@,
            ) {
                Some(p) => !marketable_spec(self.stored_orders@[k], p),
                None => true,
            }
    }

    /// A fresh exchange over `assets`: open for trading, an empty resting
    /// queue, and every asset's price seeded at the default.
    pub fn new(assets: Vec<Asset>) -> (r: Exchange)
        requires
            forall|i: int, j: int|
                0 <= i < j < assets@.len() ==> assets@[i].symbol@ != assets@[j].symbol@,
        ensures
            r.wf(),
            r.market_status == MarketStatus::Open,
            r.stored_orders@.len() == 0,
            r.assets@ == assets@,
            r.prices@.len() == assets@.len(),
            forall|i: int|
                0 <= i < assets@.len() ==> (#[trigger] r.prices@[i]).symbol@ == assets@[i].symbol@
                    && r.prices@[i].price == DEFAULT_PRICE,
    {
        let mut prices: Vec<PriceEntry> = Vec::new();
        let n = assets.len();
        let mut i: usize = 0;
        while i < n
            invariant
                0 <= i <= n,
                n == assets@.len(),
                prices@.len() == i,
                forall|a: int, b: int|
                    0 <= a < b < assets@.len() ==> assets@[a].symbol@ != assets@[b].symbol@,
                forall|k: int|
                    0 <= k < i ==> (#[trigger] prices@[k]).symbol@ == assets@[k].symbol@
                        && prices@[k].price == DEFAULT_PRICE,
            decreases n - i,
        {
            prices.push(PriceEntry { symbol: assets[i].symbol.clone(), price: DEFAULT_PRICE });
            i = i + 1;
        }
        Exchange { stored_orders: Vec::new(), market_status: MarketStatus::Open, assets, prices }
    }

    /// Whether the market is open.
    pub fn is_open(&self) -> (r: bool)
        ensures
            r == (self.market_status == MarketStatus::Open),
    {
        match self.market_status {
            MarketStatus::Open => true,
            _ => false,
        }
    }

    /// The current market status.
    pub fn market_status(&self) -> (r: MarketStatus)
        ensures
            r == self.market_status,
    {
        self.market_status
    }

    /// The current price for a symbol, or `UninitializedPrice` when the
    /// book has never seen it.
    pub fn get_price(&self, symbol: &str) -> (r: Result<u64, Error>)
        ensures
            match price_of(self.prices@, symbol@) {
                Some(p) => r == Result::<u64, Error>::Ok(p),
                None => r == Result::<u64, Error>::Err(Error::UninitializedPrice),
            },
    {
        proof {
            lemma_price_index(self.prices@, symbol@);
        }
        let n = self.prices.len();
        let mut i: usize = 0;
        while i < n
            invariant
                0 <= i <= n,
                n == self.prices@.len(),
                forall|j: int| 0 <= j < i ==> (#[trigger] self.prices@[j]).symbol@ != symbol@,
            decreases n - i,
        {
            if str_eq(self.prices[i].symbol.as_str(), symbol) {
                proof {
                    lemma_price_index_found(self.prices@, symbol@, i as int);
                }
                return Ok(self.prices[i].price);
            }
            i = i + 1;
        }
        Err(Error::UninitializedPrice)
    }

    /// Emits the fill of `order` at `price` and time `now`.
    pub fn execute(&self, order: Order, price: u64, now: u64) -> (f: TradeFill)
        ensures
            f == fill_of(order, price, now),
    {
        let qty: i64 = match order.side {
            Side::Buy => order.qty as i64,
            Side::Sell => -(order.qty as i64),
        };
        TradeFill { time: now, qty, price, order }
    }

    /// Parks `order` in the resting queue.
    pub fn store(&mut self, order: Order)
        requires
            old(self).wf(),
            old(self).market_status == MarketStatus::Open ==> match price_of(
                old(self).prices@,
                order.symbol@,
            ) {
                Some(p) => !marketable_spec(order, p),
                None => true,
            },
        ensures
            final(self).wf(),
            final(self).stored_orders@ == old(self).stored_orders@.push(order),
            final(self).prices@ == old(self).prices@,
            final(self).market_status == old(self).market_status,
            final(self).assets@ == old(self).assets@,
    {
        self.stored_orders.push(order);
    }

    /// Fills `order` at the current price if it is marketable there,
    /// otherwise parks it.  Fails with `UninitializedPrice` when the book
    /// has no price for its symbol.
    pub fn execute_or_store(&mut self, order: Order, now: u64) -> (r: Result<
        Option<TradeFill>,
        Error,
    >)
        requires
            old(self).wf(),
        ensures
            final(self).wf(),
            final(self).prices@ == old(self).prices@,
            final(self).market_status == old(self).market_status,
            final(self).assets@ == old(self).assets@,
            match price_of(old(self).prices@, order.symbol@) {
                Some(p) => if marketable_spec(order, p) {
                    r == Result::<Option<TradeFill>, Error>::Ok(Some(fill_of(order, p, now)))
                        && final(self).stored_orders@ == old(self).stored_orders@
                } else {
                    r == Result::<Option<TradeFill>, Error>::Ok(None) && final(self).stored_orders@ == old(self).stored_orders@.push(order)
                },
                None => r == Result::<Option<TradeFill>, Error>::Err(Error::UninitializedPrice)
                    && final(self).stored_orders@ == old(self).stored_orders@,
            },
    {
        let price = match self.get_price(order.symbol.as_str()) {
            Ok(p) => p,
            Err(e) => {
                return Err(e);
            },
        };
        if is_marketable(&order, price) {
            Ok(Some(self.execute(order, price, now)))
        } else {
            self.store(order);
            Ok(None)
        }
    }

    /// Transmits an order.  Admission goes by market status and the
    /// extended-hours flag; an accepted order fills at the current price
    /// when marketable and rests otherwise; a parked order rests
    /// unconditionally; maintenance rejects.  Fails with
    /// `UninitializedPrice` when an accepted order's symbol has no price.
    pub fn transmit_order(&mut self, order: Order, now: u64) -> (r: Result<
        Option<TradeFill>,
        Error,
    >)
        requires
            old(self).wf(),
        ensures
            final(self).wf(),
            final(self).prices@ == old(self).prices@,
            final(self).market_status == old(self).market_status,
            final(self).assets@ == old(self).assets@,
            match admission(old(self).market_status, order.extended_hours) {
                Admission::Reject => r == Result::<Option<TradeFill>, Error>::Err(Error::Other)
                    && final(self).stored_orders@ == old(self).stored_orders@,
                Admission::Park => r == Result::<Option<TradeFill>, Error>::Ok(None) && final(self).stored_orders@ == old(self).stored_orders@.push(order),
                Admission::Accept => match price_of(old(self).prices@, order.symbol@) {
                    Some(p) => if marketable_spec(order, p) {
                        r == Result::<Option<TradeFill>, Error>::Ok(Some(fill_of(order, p, now)))
                            && final(self).stored_orders@ == old(self).stored_orders@
                    } else {
                        r == Result::<Option<TradeFill>, Error>::Ok(None) && final(self).stored_orders@ == old(self).stored_orders@.push(order)
                    },
                    None => r == Result::<Option<TradeFill>, Error>::Err(
                        Error::UninitializedPrice,
                    ) && final(self).stored_orders@ == old(self).stored_orders@,
                },
            },
    {
        let accepted = match (self.market_status, order.extended_hours) {
            (MarketStatus::Open, _) => true,
            (MarketStatus::PreOpen, true) => true,
            (MarketStatus::PostClose, true) => true,
            (MarketStatus::Maintenance, _) => {
                return Err(Error::Other);
            },
            _ => false,
        };
        if accepted {
            self.execute_or_store(order, now)
        } else {
            self.store(order);
            Ok(None)
        }
    }

    /// Upserts the price for `symbol`, then removes every resting order
    /// that the new price makes marketable for that symbol and emits their
    /// fills in submission order.
    pub fn update_price(&mut self, symbol: &str, price: u64, now: u64) -> (fills: Vec<TradeFill>)
        requires
            old(self).wf(),
        ensures
            final(self).wf(),
            final(self).market_status == old(self).market_status,
            final(self).assets@ == old(self).assets@,
            ({
                let j = price_index(old(self).prices@, symbol@);
                if j == -1 {
                    &&& final(self).prices@.len() == old(self).prices@.len() + 1
                    &&& forall|k: int|
                        0 <= k < old(self).prices@.len() ==> (#[trigger] final(self).prices@[k])
                            == old(self).prices@[k]
                    &&& final(self).prices@[old(self).prices@.len() as int].symbol@ == symbol@
                    &&& final(self).prices@[old(self).prices@.len() as int].price == price
                } else {
                    &&& final(self).prices@.len() == old(self).prices@.len()
                    &&& forall|k: int|
                        0 <= k < old(self).prices@.len() && k != j ==> (#[trigger] final(self).prices@[k]) == old(self).prices@[k]
                    &&& final(self).prices@[j].symbol@ == symbol@
                    &&& final(self).prices@[j].price == price
                }
            }),
            price_of(final(self).prices@, symbol@) == Some(price),
            final(self).stored_orders@ == kept_orders(old(self).stored_orders@, symbol@, price),
            fills@ == tick_fills(old(self).stored_orders@, symbol@, price, now),
    {
        proof {
            lemma_price_index(self.prices@, symbol@);
        }
        let ghost old_prices = self.prices@;
        // Upsert the price book entry.
        match self.price_pos(symbol) {
            Some(i) => {
                let entry = self.prices.remove(i);
                self.prices.insert(i, PriceEntry { symbol: entry.symbol, price });
                proof {
                    assert(self.prices@ =~= old_prices.update(
                        i as int,
                        PriceEntry { symbol: old_prices[i as int].symbol, price },
                    ));
                }
            },
            None => {
                self.prices.push(PriceEntry { symbol: symbol.to_owned(), price });
            },
        }
        let ghost new_prices = self.prices@;
        proof {
            let j = price_index(old_prices, symbol@);
            if j == -1 {
                lemma_price_index_found(new_prices, symbol@, old_prices.len() as int);
            } else {
                lemma_price_index_same_symbols(new_prices, old_prices, symbol@);
            }
            assert(price_of(new_prices, symbol@) == Some(price));
            assert(forall|a: int, b: int|
                0 <= a < b < new_prices.len() ==> new_prices[a].symbol@ != new_prices[b].symbol@)
                by {
                assert(forall|k: int|
                    0 <= k < new_prices.len() ==> (#[trigger] new_prices[k]).symbol@ == if j != -1
                        && k == j {
                        symbol@
                    } else if k < old_prices.len() {
                        old_prices[k].symbol@
                    } else {
                        symbol@
                    });
            }
        }
        // Drain the resting orders that the new price fills.
        let ghost old_resting = self.stored_orders@;
        let mut kept: Vec<Order> = Vec::new();
        let mut fills: Vec<TradeFill> = Vec::new();
        let mut k: usize = 0;
        let m = self.stored_orders.len();
        while k < m
            invariant
                0 <= k <= m,
                m == old_resting.len(),
                self.stored_orders@.len() == m - k,
                forall|t: int|
                    0 <= t < m - k ==> (#[trigger] self.stored_orders@[t]) == old_resting[k + t],
                kept@ == kept_orders(old_resting.subrange(0, k as int), symbol@, price),
                fills@ == tick_fills(old_resting.subrange(0, k as int), symbol@, price, now),
                self.prices@ == new_prices,
                self.market_status == old(self).market_status,
                self.assets@ == old(self).assets@,
            decreases m - k,
        {
            let o = self.stored_orders.remove(0);
            proof {
                assert(o == old_resting[k as int]);
                let sub = old_resting.subrange(0, k as int + 1);
                assert(sub.drop_last() =~= old_resting.subrange(0, k as int));
                assert(sub.last() == old_resting[k as int]);
            }
            if str_eq(o.symbol.as_str(), symbol) && is_marketable(&o, price) {
                fills.push(self.execute(o, price, now));
            } else {
                kept.push(o);
            }
            k = k + 1;
            proof {
                assert(forall|t: int|
                    0 <= t < m - k ==> (#[trigger] self.stored_orders@[t]) == old_resting[k + t]);
            }
        }
        proof {
            assert(old_resting.subrange(0, m as int) =~= old_resting);
        }
        self.stored_orders = kept;
        proof {
            lemma_kept_orders(old_resting, symbol@, price);
            let ks = kept_orders(old_resting, symbol@, price);
            assert(self.stored_orders@ == ks);
            assert(price_of(new_prices, symbol@) == Some(price));
            if self.market_status == MarketStatus::Open {
                assert forall|t: int| 0 <= t < self.stored_orders@.len() implies match price_of(
                    self.prices@,
                    (#[trigger] self.stored_orders@[t]).symbol@,
                ) {
                    Some(p) => !marketable_spec(self.stored_orders@[t], p),
                    None => true,
                } by {
                    let o = self.stored_orders@[t];
                    assert(o == ks[t]);
                    assert(!fills_on_tick(ks[t], symbol@, price));
                    if o.symbol@ == symbol@ {
                        assert(price_of(self.prices@, o.symbol@) == Some(price));
                        assert(!marketable_spec(o, price));
                    } else {
                        lemma_price_index_same_or_old(
                            old_prices,
                            new_prices,
                            o.symbol@,
                            symbol@,
                            price,
                        );
                        assert(price_of(self.prices@, o.symbol@) == price_of(
                            old_prices,
                            o.symbol@,
                        ));
                        let jj = choose|jj: int|
                            0 <= jj < old_resting.len() && ks[t] == old_resting[jj];
                        assert(old(self).stored_orders@[jj] == o);
                        assert(match price_of(old_prices, o.symbol@) {
                            Some(p) => !marketable_spec(o, p),
                            None => true,
                        });
                    }
                }
            }
        }
        fills
    }

    /// The index of the book entry for `symbol`, if any.
    fn price_pos(&self, symbol: &str) -> (r: Option<usize>)
        ensures
            match r {
                Some(i) => i == price_index(self.prices@, symbol@) && i < self.prices@.len(),
                None => price_index(self.prices@, symbol@) == -1,
            },
    {
        proof {
            lemma_price_index(self.prices@, symbol@);
        }
        let n = self.prices.len();
        let mut i: usize = 0;
        while i < n
            invariant
                0 <= i <= n,
                n == self.prices@.len(),
                forall|j: int| 0 <= j < i ==> (#[trigger] self.prices@[j]).symbol@ != symbol@,
            decreases n - i,
        {
            if str_eq(self.prices[i].symbol.as_str(), symbol) {
                proof {
                    lemma_price_index_found(self.prices@, symbol@, i as int);
                }
                return Some(i);
            }
            i = i + 1;
        }
        None
    }
}

/// A price upsert for `sym` leaves the lookup of every other symbol
/// unchanged.
pub proof fn lemma_price_index_same_or_old(
    before: Seq<PriceEntry>,
    after: Seq<PriceEntry>,
    other: Seq<char>,
    sym: Seq<char>,
    price: u64,
)
    requires
        other != sym,
        ({
            let j = price_index(before, sym);
            if j == -1 {
                &&& after.len() == before.len() + 1
                &&& forall|k: int| 0 <= k < before.len() ==> (#[trigger] after[k]) == before[k]
                &&& after[before.len() as int].symbol@ == sym
                &&& after[before.len() as int].price == price
            } else {
                &&& after.len() == before.len()
                &&& forall|k: int|
                    0 <= k < before.len() && k != j ==> (#[trigger] after[k]) == before[k]
                &&& after[j].symbol@ == sym
                &&& after[j].price == price
            }
        }),
    ensures
        price_of(after, other) == price_of(before, other),
{
    lemma_price_index(before, other);
    lemma_price_index(after, other);
    lemma_price_index(before, sym);
    let j = price_index(before, sym);
    let i = price_index(before, other);
    if i == -1 {
        if price_index(after, other) != -1 {
            let w = price_index(after, other);
            assert(after[w].symbol@ == other);
            if j == -1 {
                assert(w < before.len() ==> before[w].symbol@ == other);
                assert(w == before.len() ==> after[w].symbol@ == sym);
                assert(false);
            } else {
                assert(w != j ==> before[w].symbol@ == other);
                assert(w == j ==> after[w].symbol@ == sym);
                assert(false);
            }
        }
    } else {
        assert(before[i].symbol@ == other);
        assert(i != j);
        assert(after[i].symbol@ == other && after[i].price == before[i].price);
        assert(forall|k: int| 0 <= k < i ==> (#[trigger] after[k]).symbol@ != other) by {
            assert(forall|k: int|
                0 <= k < i && k != j ==> (#[trigger] after[k]) == before[k]);
            if 0 <= j < i {
                assert(after[j].symbol@ == sym);
            }
        }
        lemma_price_index_found(after, other, i);
    }
}

impl Exchange {
    /// Withdraws every resting order with id `id` from the queue, keeping
    /// the others in their submission order.
    pub fn remove_resting(&mut self, id: u64)
        requires
            old(self).wf(),
        ensures
            final(self).wf(),
            final(self).stored_orders@ == resting_without(old(self).stored_orders@, id),
            final(self).prices@ == old(self).prices@,
            final(self).market_status == old(self).market_status,
            final(self).assets@ == old(self).assets@,
    {
        let ghost old_resting = self.stored_orders@;
        let mut kept: Vec<Order> = Vec::new();
        let mut k: usize = 0;
        let m = self.stored_orders.len();
        while k < m
            invariant
                0 <= k <= m,
                m == old_resting.len(),
                self.stored_orders@.len() == m - k,
                forall|t: int|
                    0 <= t < m - k ==> (#[trigger] self.stored_orders@[t]) == old_resting[k + t],
                kept@ == resting_without(old_resting.subrange(0, k as int), id),
                self.prices@ == old(self).prices@,
                self.market_status == old(self).market_status,
                self.assets@ == old(self).assets@,
            decreases m - k,
        {
            let o = self.stored_orders.remove(0);
            proof {
                assert(o == old_resting[k as int]);
                let sub = old_resting.subrange(0, k as int + 1);
                assert(sub.drop_last() =~= old_resting.subrange(0, k as int));
                assert(sub.last() == old_resting[k as int]);
            }
            if o.id != id {
                kept.push(o);
            }
            k = k + 1;
            proof {
                assert(forall|t: int|
                    0 <= t < m - k ==> (#[trigger] self.stored_orders@[t]) == old_resting[k + t]);
            }
        }
        proof {
            assert(old_resting.subrange(0, m as int) =~= old_resting);
        }
        self.stored_orders = kept;
        proof {
            lemma_resting_without(old_resting, id);
            if self.market_status == MarketStatus::Open {
                assert forall|t: int| 0 <= t < self.stored_orders@.len() implies match price_of(
                    self.prices@,
                    (#[trigger] self.stored_orders@[t]).symbol@,
                ) {
                    Some(p) => !marketable_spec(self.stored_orders@[t], p),
                    None => true,
                } by {
                    let o = self.stored_orders@[t];
                    assert(o == resting_without(old_resting, id)[t]);
                    let j = choose|j: int| 0 <= j < old_resting.len() && o == old_resting[j];
                    assert(old(self).stored_orders@[j] == o);
                }
            }
        }
    }
}

impl Default for Exchange {
    /// An exchange over no assets at all.
    fn default() -> (r: Self)
        ensures
            r.wf(),
            r.market_status == MarketStatus::Open,
            r.stored_orders@.len() == 0,
            r.assets@.len() == 0,
            r.prices@.len() == 0,
    {
        Exchange::new(Vec::new())
    }
}

} // verus!

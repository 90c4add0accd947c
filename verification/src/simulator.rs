//! The coordinator: one in-process brokerage holding the four stores.
//!
//! An order intent becomes an order, is persisted, transmitted to the
//! exchange, and any resulting fill propagates through order store, account
//! ledger and position store, in that order.  A price tick refreshes the
//! book, marks positions to market, and propagates the fills of every
//! resting order the new price makes marketable, in submission order.

use vstd::prelude::*;
use crate::account::{account_after_fill, account_fill_fits, account_wf, Account};
use crate::asset::{asset_index, asset_symbol_known, lemma_asset_index, Asset, AssetManager};
use crate::clock::{get_clock, Clock};
use crate::errors::Error;
use crate::exchange::{
    fill_of, kept_orders, lemma_kept_orders, lemma_price_index, lemma_tick_fills, marketable_at,
    marketable_spec, price_index, price_of, tick_fills, Exchange, MarketStatus, TradeFill,
};
use crate::order::{
    canceled_order, class_well_formed, filled_order, legs_count, legs_spec, lemma_order_index,
    lemma_order_index_same_ids, order_index, order_like, order_wf, stamped, terminal,
    uncancelable, Order, OrderIntent, OrderManager, OrderStatus,
};
use crate::position::{
    fresh_position, lemma_pos_index, lemma_pos_index_found, lemma_sum_pl, marked_positions,
    pos_fill_fits, pos_index, positions_after_fill, sum_cost_basis, sum_market_value,
    sum_unrealized_pl, Position, PositionManager, MAX_MONEY,
};

verus! {

/// One applied fill, as the ghost ledger history remembers it.
pub struct FillRec {
    pub symbol: Seq<char>,
    pub qty: int,
    pub price: int,
}

/// The signed cost of a history of fills: the sum of quantity times price.
pub open spec fn total_cost(fs: Seq<FillRec>) -> int
    decreases fs.len(),
{
    if fs.len() == 0 {
        0
    } else {
        total_cost(fs.drop_last()) + fs.last().qty * fs.last().price
    }
}

/// The mutable books of the brokerage: orders, ledger, positions and the
/// ghost history of applied fills.
pub struct Books {
    pub orders: Seq<Order>,
    pub account: Account,
    pub positions: Seq<Position>,
    pub log: Seq<FillRec>,
}

/// The books after one fill propagates.  A fill whose order is absent or
/// already terminal is dropped whole.  Otherwise the order is marked
/// filled, the cost leaves the cash ledger, and the position for the
/// symbol advances; when the symbol has no registered asset the position
/// step is dropped and the earlier steps stand, as no step is rolled back.
pub open spec fn propagate_spec(b: Books, f: TradeFill, assets: Seq<Asset>) -> Books {
    let i = order_index(b.orders, f.order.id);
    if i == -1 || terminal(b.orders[i].status) {
        b
    } else {
        let orders1 = b.orders.update(i, filled_order(b.orders[i], f.price, f.time));
        let account1 = account_after_fill(b.account, f.qty as int, f.price as int);
        let log1 = b.log.push(
            FillRec { symbol: f.order.symbol@, qty: f.qty as int, price: f.price as int },
        );
        let ai = asset_index(assets, f.order.symbol@);
        if ai == -1 {
            Books { orders: orders1, account: account1, positions: b.positions, log: log1 }
        } else {
            Books {
                orders: orders1,
                account: account1,
                positions: positions_after_fill(
                    b.positions,
                    assets[ai].id,
                    assets[ai].exchange,
                    assets[ai].class,
                    f.order.symbol,
                    f.qty as int,
                    f.price,
                ),
                log: log1,
            }
        }
    }
}

/// The books after a sequence of fills propagates, first to last.
pub open spec fn propagate_all_spec(b: Books, fs: Seq<TradeFill>, assets: Seq<Asset>) -> Books
    decreases fs.len(),
{
    if fs.len() == 0 {
        b
    } else {
        propagate_all_spec(propagate_spec(b, fs[0], assets), fs.drop_first(), assets)
    }
}

/// The arithmetic of one fill stays within the ledgers' caps, and the fill
/// does not target an order still resting on the exchange.
pub open spec fn fill_fits(b: Books, f: TradeFill, assets: Seq<Asset>, resting: Seq<Order>) -> bool {
    let i = order_index(b.orders, f.order.id);
    i == -1 || terminal(b.orders[i].status) || {
        &&& f.qty != 0
        &&& -4294967295 <= f.qty <= 4294967295
        &&& account_fill_fits(b.account, f.qty as int, f.price as int)
        &&& asset_index(assets, f.order.symbol@) != -1 ==> pos_fill_fits(
            b.positions,
            f.order.symbol@,
            f.qty as int,
            f.price,
        )
        &&& forall|k: int| 0 <= k < resting.len() ==> (#[trigger] resting[k]).id != f.order.id
    }
}

/// Every fill of the sequence fits, each against the books the fills
/// before it leave behind.
pub open spec fn all_fills_fit(
    b: Books,
    fs: Seq<TradeFill>,
    assets: Seq<Asset>,
    resting: Seq<Order>,
) -> bool
    decreases fs.len(),
{
    fs.len() == 0 || {
        &&& fill_fits(b, fs[0], assets, resting)
        &&& all_fills_fit(propagate_spec(b, fs[0], assets), fs.drop_first(), assets, resting)
    }
}

/// The deterministic brokerage: the four stores, the id counter, and the
/// ghost history of applied fills.
pub struct Simulator {
    pub account: Account,
    pub orders: OrderManager,
    pub positions: PositionManager,
    pub exchange: Exchange,
    pub assets: AssetManager,
    pub next_order_id: u64,
    pub fills: Ghost<Seq<FillRec>>,
}

impl Simulator {
    /// The books of this brokerage.
    pub open spec fn books(&self) -> Books {
        Books {
            orders: self.orders.orders@,
            account: self.account,
            positions: self.positions.positions@,
            log: self.fills@,
        }
    }

    /// The invariant every operation preserves: the four stores are well
    /// formed; the market is open; order ids stay below the id counter;
    /// every order is for at least one share of a registered asset; every
    /// registered asset has a price; every resting order is a live,
    /// non-terminal order of the store, resting at most once; and the cash
    /// is the initial cash less the cost of every applied fill.
    pub open spec fn wf(&self) -> bool {
        &&& account_wf(self.account)
        &&& self.orders.wf()
        &&& self.positions.wf()
        &&& self.exchange.wf()
        &&& self.assets.wf()
        &&& self.exchange.market_status == MarketStatus::Open
        &&& forall|i: int|
            0 <= i < self.orders.orders@.len() ==> (#[trigger] self.orders.orders@[i]).id
                < self.next_order_id
        &&& forall|i: int|
            0 <= i < self.orders.orders@.len() ==> (#[trigger] self.orders.orders@[i]).qty >= 1
        &&& forall|i: int|
            0 <= i < self.orders.orders@.len() ==> assigned_status(
                (#[trigger] self.orders.orders@[i]).status,
            )
        &&& forall|i: int|
            0 <= i < self.orders.orders@.len() ==> asset_symbol_known(
                self.assets.assets@,
                (#[trigger] self.orders.orders@[i]).symbol@,
            )
        &&& forall|i: int|
            0 <= i < self.positions.positions@.len() ==> asset_symbol_known(
                self.assets.assets@,
                (#[trigger] self.positions.positions@[i]).symbol@,
            )
        &&& forall|i: int|
            0 <= i < self.assets.assets@.len() ==> price_index(
                self.exchange.prices@,
                (#[trigger] self.assets.assets@[i]).symbol@,
            ) != -1
        &&& forall|k: int|
            0 <= k < self.exchange.stored_orders@.len() ==> {
                let i = order_index(
                    self.orders.orders@,
                    (#[trigger] self.exchange.stored_orders@[k]).id,
                );
                &&& i != -1
                &&& !terminal(self.orders.orders@[i].status)
                &&& self.exchange.stored_orders@[k].qty >= 1
                &&& asset_symbol_known(
                    self.assets.assets@,
                    self.exchange.stored_orders@[k].symbol@,
                )
            }
        &&& forall|a: int, b: int|
            0 <= a < b < self.exchange.stored_orders@.len()
                ==> self.exchange.stored_orders@[a].id != self.exchange.stored_orders@[b].id
        &&& self.account.cash == self.account.last_equity - total_cost(self.fills@)
        &&& self.account.equity == self.account.last_equity
    }

    /// A fresh brokerage over `symbols`, holding `cash`, with every symbol
    /// registered as an asset and priced at the exchange default.
    pub fn new(cash: i128, symbols: &Vec<String>) -> (r: Simulator)
        requires
            0 <= cash <= MAX_MONEY,
            forall|i: int, j: int|
                0 <= i < j < symbols@.len() ==> symbols@[i]@ != symbols@[j]@,
        ensures
            r.wf(),
            r.account.cash == cash,
            r.account.equity == cash,
            r.account.last_equity == cash,
            r.orders.orders@.len() == 0,
            r.positions.positions@.len() == 0,
            r.exchange.stored_orders@.len() == 0,
            r.assets.assets@.len() == symbols@.len(),
            forall|i: int|
                0 <= i < symbols@.len() ==> (#[trigger] r.assets.assets@[i]).symbol@
                    == symbols@[i]@,
            forall|i: int|
                0 <= i < symbols@.len() ==> price_of(
                    r.exchange.prices@,
                    (#[trigger] r.assets.assets@[i]).symbol@,
                ) == Some(crate::exchange::DEFAULT_PRICE),
            r.fills@.len() == 0,
    {
        let account = Account::new(cash);
        let mut assets = AssetManager::new();
        assets.set_assets(symbols);
        let mut listed: Vec<Asset> = Vec::new();
        let n = assets.assets.len();
        let mut i: usize = 0;
        while i < n
            invariant
                0 <= i <= n,
                n == assets.assets@.len(),
                listed@.len() == i,
                forall|k: int| 0 <= k < i ==> (#[trigger] listed@[k]) == assets.assets@[k],
            decreases n - i,
        {
            let a = assets.assets[i].clone_asset();
            listed.push(a);
            i = i + 1;
        }
        proof {
            assert(listed@ =~= assets.assets@);
        }
        let exchange = Exchange::new(listed);
        let r = Simulator {
            account,
            orders: OrderManager::new(),
            positions: PositionManager::new(),
            exchange,
            assets,
            next_order_id: 1,
            fills: Ghost(Seq::empty()),
        };
        proof {
            assert forall|k: int| 0 <= k < r.assets.assets@.len() implies price_index(
                r.exchange.prices@,
                (#[trigger] r.assets.assets@[k]).symbol@,
            ) != -1 by {
                lemma_price_index(r.exchange.prices@, r.assets.assets@[k].symbol@);
                assert(r.exchange.prices@[k].symbol@ == r.assets.assets@[k].symbol@);
            }
            assert forall|k: int| 0 <= k < symbols@.len() implies price_of(
                r.exchange.prices@,
                (#[trigger] r.assets.assets@[k]).symbol@,
            ) == Some(crate::exchange::DEFAULT_PRICE) by {
                lemma_price_index(r.exchange.prices@, r.assets.assets@[k].symbol@);
                let w = price_index(r.exchange.prices@, r.assets.assets@[k].symbol@);
                assert(r.exchange.prices@[w].symbol@ == r.assets.assets@[k].symbol@);
                assert(r.exchange.prices@[w].symbol@ == r.exchange.prices@[k].symbol@);
                assert(w == k);
                assert(r.exchange.prices@[k].price == crate::exchange::DEFAULT_PRICE);
            }
        }
        r
    }

    /// The ledger snapshot.
    pub fn get_account(&self) -> (r: &Account)
        ensures
            r == &self.account,
    {
        &self.account
    }

    /// Recreates the ledger with `cash` (a testing affordance); positions
    /// and orders survive, and the fill history restarts.
    pub fn set_cash(&mut self, cash: i128)
        requires
            old(self).wf(),
            0 <= cash <= MAX_MONEY,
        ensures
            final(self).wf(),
            final(self).account.cash == cash,
            final(self).account.equity == cash,
            final(self).account.last_equity == cash,
            final(self).orders == old(self).orders,
            final(self).positions == old(self).positions,
            final(self).exchange == old(self).exchange,
            final(self).assets == old(self).assets,
            final(self).next_order_id == old(self).next_order_id,
            final(self).fills@.len() == 0,
    {
        self.account = Account::new(cash);
        proof {
            self.fills@ = Seq::empty();
        }
    }

    /// All orders, in insertion order.
    pub fn get_orders(&self) -> (r: &Vec<Order>)
        ensures
            r == &self.orders.orders,
    {
        self.orders.list()
    }

    /// Looks an order up by its server id.
    pub fn get_order(&self, id: u64) -> (r: Result<&Order, Error>)
        requires
            self.wf(),
        ensures
            match r {
                Ok(o) => order_index(self.orders.orders@, id) >= 0 && *o == self.orders.orders@[
                    order_index(self.orders.orders@, id)
                ],
                Err(e) => e == Error::NotFound && order_index(self.orders.orders@, id) == -1,
            },
    {
        match self.orders.get(id) {
            Some(o) => Ok(o),
            None => Err(Error::NotFound),
        }
    }

    /// Looks an order up by its client order id; the first match wins.
    pub fn get_order_by_client_id(&self, client_id: &str) -> (r: Result<&Order, Error>)
        ensures
            match r {
                Ok(o) => o.client_order_id@ == client_id@ && exists|i: int|
                    0 <= i < self.orders.orders@.len() && self.orders.orders@[i] == *o,
                Err(e) => e == Error::NotFound && forall|i: int|
                    0 <= i < self.orders.orders@.len()
                        ==> (#[trigger] self.orders.orders@[i]).client_order_id@ != client_id@,
            },
    {
        match self.orders.get_by_client_id(client_id) {
            Some(o) => Ok(o),
            None => Err(Error::NotFound),
        }
    }

    /// All positions.
    pub fn get_positions(&self) -> (r: &Vec<Position>)
        ensures
            r == &self.positions.positions,
    {
        self.positions.list()
    }

    /// The position for a symbol.
    pub fn get_position(&self, symbol: &str) -> (r: Result<&Position, Error>)
        ensures
            match r {
                Ok(p) => pos_index(self.positions.positions@, symbol@) >= 0 && *p
                    == self.positions.positions@[pos_index(self.positions.positions@, symbol@)],
                Err(e) => e == Error::NotFound && pos_index(self.positions.positions@, symbol@)
                    == -1,
            },
    {
        match self.positions.get(symbol) {
            Some(p) => Ok(p),
            None => Err(Error::NotFound),
        }
    }

    /// All registered assets.
    pub fn get_assets(&self) -> (r: &Vec<Asset>)
        ensures
            r == &self.assets.assets,
    {
        self.assets.get_assets()
    }

    /// Looks an asset up by its symbol.
    pub fn get_asset(&self, symbol: &str) -> (r: Result<&Asset, Error>)
        ensures
            match r {
                Ok(a) => a.symbol@ == symbol@ && exists|i: int|
                    0 <= i < self.assets.assets@.len() && self.assets.assets@[i] == *a,
                Err(e) => e == Error::NotFound && !asset_symbol_known(
                    self.assets.assets@,
                    symbol@,
                ),
            },
    {
        match self.assets.get_asset_by_symbol(symbol) {
            Some(a) => Ok(a),
            None => Err(Error::NotFound),
        }
    }

    /// Looks an asset up by its id.
    pub fn get_asset_by_id(&self, id: u64) -> (r: Result<&Asset, Error>)
        ensures
            match r {
                Ok(a) => a.id == id && exists|i: int|
                    0 <= i < self.assets.assets@.len() && self.assets.assets@[i] == *a,
                Err(e) => e == Error::NotFound && forall|i: int|
                    0 <= i < self.assets.assets@.len() ==> (#[trigger] self.assets.assets@[i]).id
                        != id,
            },
    {
        match self.assets.get_asset_by_id(id) {
            Some(a) => Ok(a),
            None => Err(Error::NotFound),
        }
    }

    /// The clock snapshot at time `now`.
    pub fn get_clock(&self, now: u64) -> (c: Clock)
        ensures
            c.timestamp == now,
            c.is_open,
    {
        get_clock(now)
    }

    /// Propagates one fill through the stores, in the fixed order: order
    /// store, account ledger, position store.  A fill whose order is
    /// unknown is dropped whole with `NotFound`; one whose order is
    /// already terminal with `Other`.  When the symbol has no registered
    /// asset, the position step alone is dropped with `NotFound`; the
    /// earlier steps stand, as no step is rolled back.
    pub fn update_from_fill(&mut self, fill: TradeFill) -> (r: Result<(), Error>)
        requires
            old(self).wf(),
            fill_fits(
                old(self).books(),
                fill,
                old(self).assets.assets@,
                old(self).exchange.stored_orders@,
            ),
        ensures
            final(self).wf(),
            final(self).books() == propagate_spec(
                old(self).books(),
                fill,
                old(self).assets.assets@,
            ),
            final(self).exchange == old(self).exchange,
            final(self).assets == old(self).assets,
            final(self).next_order_id == old(self).next_order_id,
            ({
                let i = order_index(old(self).orders.orders@, fill.order.id);
                if i == -1 {
                    r == Result::<(), Error>::Err(Error::NotFound)
                } else if terminal(old(self).orders.orders@[i].status) {
                    r == Result::<(), Error>::Err(Error::Other)
                } else if asset_index(old(self).assets.assets@, fill.order.symbol@) == -1 {
                    r == Result::<(), Error>::Err(Error::NotFound)
                } else {
                    r == Result::<(), Error>::Ok(())
                }
            }),
    {
        proof {
            lemma_order_index(self.orders.orders@, fill.order.id);
            lemma_asset_index(self.assets.assets@, fill.order.symbol@);
        }
        let ghost i = order_index(old(self).orders.orders@, fill.order.id);
        match self.orders.apply_fill(fill.order.id, fill.price, fill.time) {
            Ok(()) => {},
            Err(e) => {
                return Err(e);
            },
        }
        proof {
            assert(self.orders.orders@ == old(self).orders.orders@.update(
                i,
                filled_order(old(self).orders.orders@[i], fill.price, fill.time),
            ));
            assert(forall|k: int|
                0 <= k < self.orders.orders@.len() ==> (#[trigger] self.orders.orders@[k]).id
                    == old(self).orders.orders@[k].id);
            assert(forall|k: int|
                0 <= k < self.orders.orders@.len() ==> (#[trigger] self.orders.orders@[k]).qty
                    == old(self).orders.orders@[k].qty);
            assert(forall|k: int|
                0 <= k < self.orders.orders@.len() ==> (#[trigger] self.orders.orders@[k]).symbol@
                    == old(self).orders.orders@[k].symbol@);
        }
        self.account.apply_fill(fill.qty, fill.price);
        proof {
            self.fills@ = self.fills@.push(
                FillRec {
                    symbol: fill.order.symbol@,
                    qty: fill.qty as int,
                    price: fill.price as int,
                },
            );
            assert(self.fills@.drop_last() =~= old(self).fills@);
            assert(total_cost(self.fills@) == total_cost(old(self).fills@) + fill.qty
                * fill.price);
            assert(i != -1 && !terminal(old(self).orders.orders@[i].status));
            assert(forall|k: int|
                0 <= k < old(self).exchange.stored_orders@.len() ==> (#[trigger] old(
                    self,
                ).exchange.stored_orders@[k]).id != fill.order.id);
            assert(self.exchange == old(self).exchange);
            assert(old(self).orders.orders@[i].id == fill.order.id);
            assert forall|k: int|
                0 <= k < self.exchange.stored_orders@.len() implies {
                let w = order_index(
                    self.orders.orders@,
                    (#[trigger] self.exchange.stored_orders@[k]).id,
                );
                &&& w != -1
                &&& !terminal(self.orders.orders@[w].status)
            } by {
                let rid = self.exchange.stored_orders@[k].id;
                assert(old(self).exchange.stored_orders@[k].id == rid);
                lemma_order_index_same_ids(
                    self.orders.orders@,
                    old(self).orders.orders@,
                    rid,
                );
                let w = order_index(old(self).orders.orders@, rid);
                lemma_order_index(old(self).orders.orders@, rid);
                assert(w != -1 && !terminal(old(self).orders.orders@[w].status));
                assert(old(self).orders.orders@[w].id == rid);
                assert(rid != fill.order.id);
                assert(w != i);
                assert(self.orders.orders@[w] == old(self).orders.orders@[w]);
            }
        }
        let (aid, venue, aclass) = match self.assets.get_asset_by_symbol(
            fill.order.symbol.as_str(),
        ) {
            Some(a) => {
                proof {
                    let w = choose|w: int|
                        0 <= w < self.assets.assets@.len() && self.assets.assets@[w] == *a;
                    let ai = asset_index(self.assets.assets@, fill.order.symbol@);
                    assert(self.assets.assets@[w].symbol@ == fill.order.symbol@);
                    assert(ai != -1 && self.assets.assets@[ai].symbol@ == fill.order.symbol@);
                    assert(w == ai);
                    assert(self.assets.assets@[ai] == *a);
                }
                (a.id, a.exchange, a.class)
            },
            None => {
                return Err(Error::NotFound);
            },
        };
        self.positions.apply_fill(aid, venue, aclass, fill.order.symbol.clone(), fill.qty, fill.price);
        proof {
            let ai = asset_index(old(self).assets.assets@, fill.order.symbol@);
            assert forall|k: int|
                0 <= k < self.positions.positions@.len() implies asset_symbol_known(
                self.assets.assets@,
                (#[trigger] self.positions.positions@[k]).symbol@,
            ) by {
                crate::position::lemma_fill_symbols(
                    old(self).positions.positions@,
                    aid,
                    venue,
                    aclass,
                    fill.order.symbol,
                    fill.qty as int,
                    fill.price,
                );
            }
        }
        Ok(())
    }

    /// The books with the position for `sym`, if any, marked to market at
    /// `price`.
    pub open spec fn marked_books(&self, sym: Seq<char>, price: u64) -> Books {
        Books { positions: marked_positions(self.positions.positions@, sym, price), ..self.books() }
    }

    /// Applies a price tick: upserts the book price for `symbol`, marks the
    /// position for that symbol to market, and propagates the fill of every
    /// resting order the new price makes marketable, in submission order.
    pub fn price_tick(&mut self, symbol: &str, price: u64, now: u64)
        requires
            old(self).wf(),
            all_fills_fit(
                old(self).marked_books(symbol@, price),
                tick_fills(old(self).exchange.stored_orders@, symbol@, price, now),
                old(self).assets.assets@,
                kept_orders(old(self).exchange.stored_orders@, symbol@, price),
            ),
        ensures
            final(self).wf(),
            final(self).exchange.stored_orders@ == kept_orders(
                old(self).exchange.stored_orders@,
                symbol@,
                price,
            ),
            price_of(final(self).exchange.prices@, symbol@) == Some(price),
            forall|s: Seq<char>|
                s != symbol@ ==> price_of(final(self).exchange.prices@, s) == price_of(
                    old(self).exchange.prices@,
                    s,
                ),
            final(self).exchange.market_status == old(self).exchange.market_status,
            final(self).exchange.assets@ == old(self).exchange.assets@,
            final(self).books() == propagate_all_spec(
                old(self).marked_books(symbol@, price),
                tick_fills(old(self).exchange.stored_orders@, symbol@, price, now),
                old(self).assets.assets@,
            ),
            final(self).assets == old(self).assets,
            final(self).next_order_id == old(self).next_order_id,
    {
        let ghost old_resting = self.exchange.stored_orders@;
        let ghost old_prices = self.exchange.prices@;
        let ghost assets0 = self.assets.assets@;
        let ghost all = tick_fills(old_resting, symbol@, price, now);
        let ghost b_marked = self.marked_books(symbol@, price);
        let mut fills = self.exchange.update_price(symbol, price, now);
        let ghost new_prices = self.exchange.prices@;
        self.positions.mark(symbol, price);
        proof {
            lemma_tick_fills(old_resting, symbol@, price, now);
            lemma_kept_orders(old_resting, symbol@, price);
            crate::exchange::lemma_kept_orders_distinct(old_resting, symbol@, price);
            // the assets keep their prices after the upsert
            assert forall|k: int| 0 <= k < self.assets.assets@.len() implies price_index(
                self.exchange.prices@,
                (#[trigger] self.assets.assets@[k]).symbol@,
            ) != -1 by {
                let s = self.assets.assets@[k].symbol@;
                if s != symbol@ {
                    crate::exchange::lemma_price_index_same_or_old(
                        old_prices,
                        new_prices,
                        s,
                        symbol@,
                        price,
                    );
                }
            }
            // every survivor is still a live order of the store
            assert forall|k: int|
                0 <= k < self.exchange.stored_orders@.len() implies {
                let w = order_index(
                    self.orders.orders@,
                    (#[trigger] self.exchange.stored_orders@[k]).id,
                );
                &&& w != -1
                &&& !terminal(self.orders.orders@[w].status)
                &&& self.exchange.stored_orders@[k].qty >= 1
                &&& asset_symbol_known(
                    self.assets.assets@,
                    self.exchange.stored_orders@[k].symbol@,
                )
            } by {
                let r = self.exchange.stored_orders@[k];
                assert(r == kept_orders(old_resting, symbol@, price)[k]);
                let j = choose|j: int| 0 <= j < old_resting.len() && r == old_resting[j];
                assert(old(self).exchange.stored_orders@[j] == r);
            }
            // marking changes no symbol, so symbols stay known
            crate::position::lemma_pos_index(old(self).positions.positions@, symbol@);
            let pi = pos_index(old(self).positions.positions@, symbol@);
            if pi != -1 {
                assert(self.positions.positions@ == old(self).positions.positions@.update(
                    pi,
                    crate::position::marked(old(self).positions.positions@[pi], price),
                ));
            }
            assert(forall|k: int|
                0 <= k < self.positions.positions@.len()
                    ==> (#[trigger] self.positions.positions@[k]).symbol@ == old(
                    self,
                ).positions.positions@[k].symbol@);
            assert(self.books() == b_marked);
            assert(fills@ == all);
        }
        let ghost ex1 = self.exchange;
        let ghost nid = self.next_order_id;
        let ghost am = self.assets;
        while fills.len() > 0
            invariant
                self.wf(),
                self.exchange == ex1,
                self.assets == am,
                self.assets.assets@ == assets0,
                self.next_order_id == nid,
                propagate_all_spec(self.books(), fills@, assets0) == propagate_all_spec(
                    b_marked,
                    all,
                    assets0,
                ),
                all_fills_fit(self.books(), fills@, assets0, self.exchange.stored_orders@),
            decreases fills@.len(),
        {
            let ghost pre_fills = fills@;
            let ghost pre_books = self.books();
            let f = fills.remove(0);
            proof {
                assert(f == pre_fills[0]);
                assert(fills@ =~= pre_fills.drop_first());
                assert(fill_fits(pre_books, f, assets0, self.exchange.stored_orders@));
            }
            let _ = self.update_from_fill(f);
            proof {
                assert(self.books() == propagate_spec(pre_books, f, assets0));
                assert(propagate_all_spec(pre_books, pre_fills, assets0) == propagate_all_spec(
                    self.books(),
                    fills@,
                    assets0,
                ));
            }
        }
        proof {
            assert(propagate_all_spec(self.books(), fills@, assets0) == self.books());
            assert forall|s: Seq<char>| s != symbol@ implies price_of(self.exchange.prices@, s)
                == price_of(old_prices, s) by {
                crate::exchange::lemma_price_index_same_or_old(
                    old_prices,
                    new_prices,
                    s,
                    symbol@,
                    price,
                );
            }
        }
    }

    /// A well-formed intent for at least one share.
    pub open spec fn intent_valid(oi: OrderIntent) -> bool {
        oi.qty >= 1 && class_well_formed(oi.order_class)
    }

    /// The signed quantity the intent trades: positive buying, negative
    /// selling.
    pub open spec fn intent_signed(oi: OrderIntent) -> int {
        match oi.side {
            crate::order::Side::Buy => oi.qty as int,
            crate::order::Side::Sell => -(oi.qty as int),
        }
    }

    /// The arithmetic of the fill an intent may trigger at the current
    /// price stays within the ledgers' caps.
    pub open spec fn post_fits(&self, oi: OrderIntent) -> bool {
        ||| !Self::intent_valid(oi)
        ||| match price_of(self.exchange.prices@, oi.symbol@) {
            None => true,
            Some(p) => marketable_at(oi.order_type, oi.side, p) ==> {
                &&& account_fill_fits(self.account, Self::intent_signed(oi), p as int)
                &&& pos_fill_fits(
                    self.positions.positions@,
                    oi.symbol@,
                    Self::intent_signed(oi),
                    p,
                )
            },
        }
    }

    /// Accepts an order intent: resolves the asset, builds the order and
    /// its child legs, persists them, transmits the order to the exchange,
    /// and propagates the immediate fill if the order is marketable at the
    /// current price.  Returns the order as created, before the submission
    /// stamps.  A zero quantity or a malformed class is `BadRequest`; an
    /// unknown symbol is `NotFound`; a missing price is
    /// `UninitializedPrice`, and the order is then not persisted.
    #[verifier::rlimit(100)]
    pub fn post_order(&mut self, oi: &OrderIntent, now: u64) -> (r: Result<Order, Error>)
        requires
            old(self).wf(),
            old(self).next_order_id + 3 <= u64::MAX,
            old(self).post_fits(*oi),
        ensures
            final(self).wf(),
            final(self).assets == old(self).assets,
            final(self).exchange.prices@ == old(self).exchange.prices@,
            final(self).exchange.market_status == old(self).exchange.market_status,
            ({
                let ai = asset_index(old(self).assets.assets@, oi.symbol@);
                let id = old(self).next_order_id;
                let n0 = old(self).orders.orders@.len() as int;
                let q = Self::intent_signed(*oi);
                if !Self::intent_valid(*oi) {
                    r == Result::<Order, Error>::Err(Error::BadRequest) && *final(self) == *old(
                        self,
                    )
                } else if ai == -1 {
                    r == Result::<Order, Error>::Err(Error::NotFound) && *final(self) == *old(self)
                } else {
                    match price_of(old(self).exchange.prices@, oi.symbol@) {
                        None => r == Result::<Order, Error>::Err(Error::UninitializedPrice)
                            && *final(self) == *old(self),
                        Some(p) => {
                            &&& final(self).next_order_id == id + 1 + legs_count(oi.order_class)
                            &&& r matches Ok(ret) && {
                                &&& ret.id == id
                                &&& match oi.client_order_id {
                                    Some(c) => ret.client_order_id@ == c@,
                                    None => ret.client_order_id@ == crate::utils::dec_rep(
                                        id as int,
                                    ),
                                }
                                &&& ret.created_at == Some(now)
                                &&& ret.submitted_at is None
                                &&& ret.updated_at is None
                                &&& ret.asset_id == old(self).assets.assets@[ai].id
                                &&& ret.symbol@ == oi.symbol@
                                &&& ret.asset_class == old(self).assets.assets@[ai].class
                                &&& ret.qty == oi.qty
                                &&& ret.filled_qty == 0
                                &&& ret.order_type == oi.order_type
                                &&& ret.side == oi.side
                                &&& ret.time_in_force == oi.time_in_force
                                &&& ret.filled_avg_price is None
                                &&& ret.status == OrderStatus::New
                                &&& ret.extended_hours == oi.extended_hours
                                &&& final(self).orders.orders@.len() == n0 + 1 + legs_count(
                                    oi.order_class,
                                )
                                &&& forall|k: int|
                                    0 <= k < n0 ==> final(self).orders.orders@[k] == old(
                                        self,
                                    ).orders.orders@[k]
                                &&& legs_spec(
                                    oi.order_class,
                                    final(self).orders.orders@.subrange(
                                        n0 + 1,
                                        n0 + 1 + legs_count(oi.order_class),
                                    ),
                                    *oi,
                                    old(self).assets.assets@[ai],
                                    (id + 1) as u64,
                                    now,
                                )
                                &&& if marketable_at(oi.order_type, oi.side, p) {
                                    &&& order_like(
                                        filled_order(stamped(ret, now), p, now),
                                        final(self).orders.orders@[n0],
                                    )
                                    &&& final(self).account == account_after_fill(
                                        old(self).account,
                                        q,
                                        p as int,
                                    )
                                    &&& final(self).positions.positions@ == positions_after_fill(
                                        old(self).positions.positions@,
                                        old(self).assets.assets@[ai].id,
                                        old(self).assets.assets@[ai].exchange,
                                        old(self).assets.assets@[ai].class,
                                        ret.symbol,
                                        q,
                                        p,
                                    )
                                    &&& final(self).fills@ == old(self).fills@.push(
                                        FillRec { symbol: oi.symbol@, qty: q, price: p as int },
                                    )
                                    &&& final(self).exchange.stored_orders@ == old(
                                        self,
                                    ).exchange.stored_orders@
                                } else {
                                    &&& order_like(
                                        stamped(ret, now),
                                        final(self).orders.orders@[n0],
                                    )
                                    &&& final(self).account == old(self).account
                                    &&& final(self).positions.positions@ == old(
                                        self,
                                    ).positions.positions@
                                    &&& final(self).fills@ == old(self).fills@
                                    &&& final(self).exchange.stored_orders@.len() == old(
                                        self,
                                    ).exchange.stored_orders@.len() + 1
                                    &&& forall|k: int|
                                        0 <= k < old(self).exchange.stored_orders@.len()
                                            ==> final(self).exchange.stored_orders@[k] == old(
                                            self,
                                        ).exchange.stored_orders@[k]
                                    &&& order_like(
                                        stamped(ret, now),
                                        final(self).exchange.stored_orders@[old(
                                            self,
                                        ).exchange.stored_orders@.len() as int],
                                    )
                                }
                            }
                        },
                    }
                }
            }),
    {
        if oi.qty == 0 {
            return Err(Error::BadRequest);
        }
        if !oi.order_class.well_formed() {
            return Err(Error::BadRequest);
        }
        proof {
            lemma_asset_index(self.assets.assets@, oi.symbol@);
        }
        let ghost ai = asset_index(self.assets.assets@, oi.symbol@);
        let id = self.next_order_id;
        let (parent, mut legs): (Order, Vec<Order>) = match self.assets.get_asset_by_symbol(
            oi.symbol.as_str(),
        ) {
            Some(a) => {
                proof {
                    let w = choose|w: int|
                        0 <= w < self.assets.assets@.len() && self.assets.assets@[w] == *a;
                    assert(self.assets.assets@[w].symbol@ == oi.symbol@);
                    assert(ai != -1 && self.assets.assets@[ai].symbol@ == oi.symbol@);
                    assert(w == ai);
                    assert(self.assets.assets@[ai] == *a);
                }
                Order::from_intent(oi, a, id, now)
            },
            None => {
                return Err(Error::NotFound);
            },
        };
        let p = match self.exchange.get_price(oi.symbol.as_str()) {
            Ok(p) => p,
            Err(_) => {
                return Err(Error::UninitializedPrice);
            },
        };
        let mut parent = parent;
        let ret = parent.clone_order();
        parent.submitted_at = Some(now);
        parent.updated_at = Some(now);
        let transmitted = parent.clone_order();
        let ghost n0 = self.orders.orders@.len() as int;
        let ghost base = self.orders.orders@;
        let nlegs = legs.len();
        proof {
            assert(legs_count(oi.order_class) == nlegs);
            assert(forall|k: int| 0 <= k < base.len() ==> (#[trigger] base[k]).id < id);
        }
        self.next_order_id = id + 1 + (nlegs as u64);
        self.orders.insert(parent);
        let ghost base1 = self.orders.orders@;
        let ghost legs0 = legs@;
        let mut k: usize = 0;
        while k < nlegs
            invariant
                0 <= k <= nlegs,
                nlegs == legs0.len(),
                legs@ == legs0.subrange(k as int, nlegs as int),
                base1.len() == n0 + 1,
                self.orders.orders@.len() == n0 + 1 + k,
                forall|m: int|
                    0 <= m < n0 + 1 ==> (#[trigger] self.orders.orders@[m]) == base1[m],
                forall|m: int|
                    0 <= m < k ==> (#[trigger] self.orders.orders@[n0 + 1 + m]) == legs0[m],
                self.orders.wf(),
                forall|m: int|
                    0 <= m < self.orders.orders@.len() ==> (#[trigger] self.orders.orders@[m]).id
                        < id + 1 + k,
                forall|m: int|
                    0 <= m < nlegs ==> (#[trigger] legs0[m]).id == id + 1 + m && order_wf(
                        legs0[m],
                    ),
                self.exchange == old(self).exchange,
                self.assets == old(self).assets,
                self.account == old(self).account,
                self.positions == old(self).positions,
                self.fills@ == old(self).fills@,
                self.next_order_id == id + 1 + nlegs,
            decreases nlegs - k,
        {
            let l = legs.remove(0);
            proof {
                assert(l == legs0[k as int]);
                assert(legs@ =~= legs0.subrange(k as int + 1, nlegs as int));
            }
            self.orders.insert(l);
            k = k + 1;
        }
        proof {
            // The store now holds the old orders, then the stamped parent,
            // then the legs.
            assert forall|m: int|
                0 <= m < nlegs implies #[trigger] (self.orders.orders@.subrange(
                n0 + 1,
                n0 + 1 + nlegs,
            )[m]) == legs0[m] by {
                assert(self.orders.orders@.subrange(n0 + 1, n0 + 1 + nlegs)[m]
                    == self.orders.orders@[n0 + 1 + m]);
                assert(self.orders.orders@[n0 + 1 + m] == legs0[m]);
            }
            assert(self.orders.orders@.subrange(n0 + 1, n0 + 1 + nlegs) =~= legs0);
            assert(legs_spec(
                oi.order_class,
                self.orders.orders@.subrange(n0 + 1, n0 + 1 + nlegs),
                *oi,
                old(self).assets.assets@[ai],
                (id + 1) as u64,
                now,
            ));
            assert(forall|m: int|
                0 <= m < n0 ==> (#[trigger] self.orders.orders@[m]) == base[m]);
            assert(order_like(stamped(ret, now), self.orders.orders@[n0]));
            assert(order_like(stamped(ret, now), transmitted));
            // The simulator invariant holds on the extended store.
            assert forall|m: int|
                0 <= m < self.orders.orders@.len() implies (#[trigger] self.orders.orders@[m]).qty
                >= 1 && asset_symbol_known(
                self.assets.assets@,
                self.orders.orders@[m].symbol@,
            ) by {
                if m < n0 {
                    assert(self.orders.orders@[m] == base[m]);
                }
            }
            assert forall|k2: int|
                0 <= k2 < self.exchange.stored_orders@.len() implies {
                let w = order_index(
                    self.orders.orders@,
                    (#[trigger] self.exchange.stored_orders@[k2]).id,
                );
                &&& w != -1
                &&& !terminal(self.orders.orders@[w].status)
            } by {
                let rid = self.exchange.stored_orders@[k2].id;
                lemma_order_index(base, rid);
                let w = order_index(base, rid);
                assert(w != -1 && base[w].id == rid && !terminal(base[w].status));
                assert(self.orders.orders@[w] == base[w]);
                crate::order::lemma_order_index_found(self.orders.orders@, rid, w);
            }
            assert(self.wf());
            // The fresh order is found right after the old ones.
            crate::order::lemma_order_index_found(self.orders.orders@, id, n0);
            assert(order_index(self.orders.orders@, id) == n0);
        }
        let ghost b1 = self.books();
        let ghost pre_exchange = self.exchange;
        let fill_opt = match self.exchange.transmit_order(transmitted, now) {
            Ok(x) => x,
            Err(_) => {
                proof {
                    assert(false);
                }
                None
            },
        };
        match fill_opt {
            None => {
                // Parked: the order was not marketable at the current price.
                proof {
                    assert(!marketable_at(oi.order_type, oi.side, p));
                    assert(self.exchange.stored_orders@ == pre_exchange.stored_orders@.push(
                        transmitted,
                    ));
                    assert forall|k2: int|
                        0 <= k2 < self.exchange.stored_orders@.len() implies {
                        let w = order_index(
                            self.orders.orders@,
                            (#[trigger] self.exchange.stored_orders@[k2]).id,
                        );
                        &&& w != -1
                        &&& !terminal(self.orders.orders@[w].status)
                        &&& self.exchange.stored_orders@[k2].qty >= 1
                        &&& asset_symbol_known(
                            self.assets.assets@,
                            self.exchange.stored_orders@[k2].symbol@,
                        )
                    } by {
                        if k2 < pre_exchange.stored_orders@.len() {
                            assert(self.exchange.stored_orders@[k2]
                                == pre_exchange.stored_orders@[k2]);
                        } else {
                            assert(self.exchange.stored_orders@[k2] == transmitted);
                            assert(order_index(self.orders.orders@, id) == n0);
                        }
                    }
                    assert forall|a2: int, b2: int|
                        0 <= a2 < b2 < self.exchange.stored_orders@.len() implies self.exchange
                        .stored_orders@[a2].id != self.exchange.stored_orders@[b2].id by {
                        if b2 == pre_exchange.stored_orders@.len() as int {
                            let rid = pre_exchange.stored_orders@[a2].id;
                            lemma_order_index(base, rid);
                            let w = order_index(base, rid);
                            assert(w != -1 && base[w].id == rid);
                            assert(rid < id);
                        }
                    }
                    assert(self.wf());
                }
                Ok(ret)
            },
            Some(fill) => {
                proof {
                    assert(marketable_at(oi.order_type, oi.side, p));
                    assert(fill == crate::exchange::fill_of(transmitted, p, now));
                    assert(fill.qty == Self::intent_signed(*oi));
                    assert(order_index(b1.orders, fill.order.id) == n0);
                    assert(!terminal(b1.orders[n0].status));
                    assert(account_fill_fits(b1.account, fill.qty as int, fill.price as int));
                    assert forall|k2: int|
                        0 <= k2 < self.exchange.stored_orders@.len() implies (
                    #[trigger] self.exchange.stored_orders@[k2]).id != fill.order.id by {
                        let rid = self.exchange.stored_orders@[k2].id;
                        lemma_order_index(base, rid);
                        let w = order_index(base, rid);
                        assert(w != -1 && base[w].id == rid);
                        assert(base[w].id < id);
                    }
                    assert(fill_fits(b1, fill, self.assets.assets@, self.exchange.stored_orders@));
                }
                let _ = self.update_from_fill(fill);
                proof {
                    assert(self.books() == propagate_spec(b1, fill, old(self).assets.assets@));
                    assert(order_index(b1.orders, fill.order.id) == n0);
                    assert(order_like(
                        filled_order(stamped(ret, now), p, now),
                        self.orders.orders@[n0],
                    ));
                    assert(self.positions.positions@ == positions_after_fill(
                        old(self).positions.positions@,
                        old(self).assets.assets@[ai].id,
                        old(self).assets.assets@[ai].exchange,
                        old(self).assets.assets@[ai].class,
                        ret.symbol,
                        Self::intent_signed(*oi),
                        p,
                    ));
                }
                Ok(ret)
            },
        }
    }

    /// Cancels the order with id `id` at time `now`, and withdraws it from
    /// the exchange's resting queue, so that no later tick can fill it.
    /// `NotFound` when the order is absent; `Uncancelable` when it is
    /// already filled, expired or canceled.
    pub fn cancel_order(&mut self, id: u64, now: u64) -> (r: Result<(), Error>)
        requires
            old(self).wf(),
        ensures
            final(self).wf(),
            final(self).account == old(self).account,
            final(self).positions == old(self).positions,
            final(self).assets == old(self).assets,
            final(self).fills@ == old(self).fills@,
            final(self).next_order_id == old(self).next_order_id,
            final(self).exchange.prices@ == old(self).exchange.prices@,
            final(self).exchange.market_status == old(self).exchange.market_status,
            ({
                let i = order_index(old(self).orders.orders@, id);
                if i == -1 {
                    r == Result::<(), Error>::Err(Error::NotFound) && final(self).orders.orders@
                        == old(self).orders.orders@ && final(self).exchange == old(self).exchange
                } else if uncancelable(old(self).orders.orders@[i].status) {
                    r == Result::<(), Error>::Err(Error::Uncancelable)
                        && final(self).orders.orders@ == old(self).orders.orders@
                        && final(self).exchange == old(self).exchange
                } else {
                    &&& r == Result::<(), Error>::Ok(())
                    &&& final(self).orders.orders@ == old(self).orders.orders@.update(
                        i,
                        canceled_order(old(self).orders.orders@[i], now),
                    )
                    &&& final(self).exchange.stored_orders@ == crate::exchange::resting_without(
                        old(self).exchange.stored_orders@,
                        id,
                    )
                }
            }),
    {
        proof {
            lemma_order_index(self.orders.orders@, id);
        }
        let r = self.orders.cancel(id, now);
        match r {
            Ok(()) => {},
            Err(e) => {
                return Err(e);
            },
        }
        let ghost i = order_index(old(self).orders.orders@, id);
        self.exchange.remove_resting(id);
        proof {
            crate::exchange::lemma_resting_without(old(self).exchange.stored_orders@, id);
            crate::exchange::lemma_resting_without_distinct(
                old(self).exchange.stored_orders@,
                id,
            );
            assert(forall|k: int|
                0 <= k < self.orders.orders@.len() ==> (#[trigger] self.orders.orders@[k]).id
                    == old(self).orders.orders@[k].id);
            assert(forall|k: int|
                0 <= k < self.orders.orders@.len() ==> (#[trigger] self.orders.orders@[k]).qty
                    == old(self).orders.orders@[k].qty);
            assert(forall|k: int|
                0 <= k < self.orders.orders@.len() ==> (#[trigger] self.orders.orders@[k]).symbol@
                    == old(self).orders.orders@[k].symbol@);
            assert forall|k: int|
                0 <= k < self.exchange.stored_orders@.len() implies {
                let w = order_index(
                    self.orders.orders@,
                    (#[trigger] self.exchange.stored_orders@[k]).id,
                );
                &&& w != -1
                &&& !terminal(self.orders.orders@[w].status)
                &&& self.exchange.stored_orders@[k].qty >= 1
                &&& asset_symbol_known(
                    self.assets.assets@,
                    self.exchange.stored_orders@[k].symbol@,
                )
            } by {
                let o = self.exchange.stored_orders@[k];
                assert(o == crate::exchange::resting_without(
                    old(self).exchange.stored_orders@,
                    id,
                )[k]);
                let j = choose|j: int|
                    0 <= j < old(self).exchange.stored_orders@.len() && o == old(
                        self,
                    ).exchange.stored_orders@[j];
                let rid = o.id;
                assert(rid != id);
                lemma_order_index_same_ids(self.orders.orders@, old(self).orders.orders@, rid);
                lemma_order_index(old(self).orders.orders@, rid);
                let w = order_index(old(self).orders.orders@, rid);
                assert(w != -1 && old(self).orders.orders@[w].id == rid);
                assert(old(self).orders.orders@[i].id == id);
                assert(w != i);
                assert(self.orders.orders@[w] == old(self).orders.orders@[w]);
            }
        }
        Ok(())
    }

    /// Cancels every cancelable order at time `now`, silently skipping the
    /// rest, and empties the exchange's resting queue.
    pub fn cancel_orders(&mut self, now: u64)
        requires
            old(self).wf(),
        ensures
            final(self).wf(),
            final(self).account == old(self).account,
            final(self).positions == old(self).positions,
            final(self).assets == old(self).assets,
            final(self).fills@ == old(self).fills@,
            final(self).next_order_id == old(self).next_order_id,
            final(self).exchange.prices@ == old(self).exchange.prices@,
            final(self).exchange.market_status == old(self).exchange.market_status,
            final(self).exchange.stored_orders@.len() == 0,
            final(self).orders.orders@.len() == old(self).orders.orders@.len(),
            forall|i: int|
                0 <= i < old(self).orders.orders@.len() ==> final(self).orders.orders@[i]
                    == if uncancelable((#[trigger] old(self).orders.orders@[i]).status) {
                    old(self).orders.orders@[i]
                } else {
                    canceled_order(old(self).orders.orders@[i], now)
                },
    {
        self.orders.cancel_all(now);
        self.exchange.stored_orders = Vec::new();
        proof {
            assert(forall|k: int|
                0 <= k < self.orders.orders@.len() ==> (#[trigger] self.orders.orders@[k]).id
                    == old(self).orders.orders@[k].id);
            assert(forall|k: int|
                0 <= k < self.orders.orders@.len() ==> (#[trigger] self.orders.orders@[k]).qty
                    == old(self).orders.orders@[k].qty);
            assert(forall|k: int|
                0 <= k < self.orders.orders@.len() ==> (#[trigger] self.orders.orders@[k]).symbol@
                    == old(self).orders.orders@[k].symbol@);
        }
    }

    /// The arithmetic of closing the position at `symbol`, if one exists,
    /// stays within the ledgers' caps.
    pub open spec fn close_fits(&self, sym: Seq<char>) -> bool {
        let i = pos_index(self.positions.positions@, sym);
        i != -1 ==> {
            let pos = self.positions.positions@[i];
            &&& -4294967295 <= pos.qty <= 4294967295
            &&& match price_of(self.exchange.prices@, sym) {
                Some(p) => {
                    &&& account_fill_fits(self.account, -pos.qty, p as int)
                    &&& pos_fill_fits(self.positions.positions@, sym, -pos.qty, p)
                },
                None => true,
            }
        }
    }

    /// Closes the position for `symbol` by submitting an opposing market
    /// order for its full quantity, which fills at once at the current
    /// price and removes the position.  `NotFound` when no position
    /// exists.
    pub fn close_position(&mut self, symbol: &str, now: u64) -> (r: Result<Order, Error>)
        requires
            old(self).wf(),
            old(self).next_order_id + 3 <= u64::MAX,
            old(self).close_fits(symbol@),
        ensures
            final(self).wf(),
            final(self).assets == old(self).assets,
            final(self).exchange.prices@ == old(self).exchange.prices@,
            final(self).exchange.market_status == old(self).exchange.market_status,
            final(self).exchange.stored_orders@ == old(self).exchange.stored_orders@,
            ({
                let i = pos_index(old(self).positions.positions@, symbol@);
                if i == -1 {
                    r == Result::<Order, Error>::Err(Error::NotFound) && *final(self) == *old(self)
                } else {
                    let pos = old(self).positions.positions@[i];
                    let p = price_of(old(self).exchange.prices@, symbol@).unwrap();
                    &&& price_of(old(self).exchange.prices@, symbol@) is Some
                    &&& r matches Ok(ret) && {
                        &&& ret.id == old(self).next_order_id
                        &&& ret.symbol@ == symbol@
                        &&& ret.qty == if pos.qty >= 0 {
                            pos.qty as int
                        } else {
                            -(pos.qty as int)
                        }
                        &&& ret.side == (if pos.qty > 0 {
                            crate::order::Side::Sell
                        } else {
                            crate::order::Side::Buy
                        })
                        &&& ret.order_type == crate::order::OrderType::Market
                        &&& ret.status == OrderStatus::New
                        &&& final(self).positions.positions@ == old(
                            self,
                        ).positions.positions@.remove(i)
                        &&& final(self).account == account_after_fill(
                            old(self).account,
                            -pos.qty,
                            p as int,
                        )
                        &&& final(self).orders.orders@.len() == old(self).orders.orders@.len() + 1
                        &&& forall|k: int|
                            0 <= k < old(self).orders.orders@.len()
                                ==> final(self).orders.orders@[k] == old(self).orders.orders@[k]
                        &&& order_like(
                            filled_order(stamped(ret, now), p, now),
                            final(self).orders.orders@[old(self).orders.orders@.len() as int],
                        )
                        &&& final(self).fills@ == old(self).fills@.push(
                            FillRec { symbol: symbol@, qty: -pos.qty, price: p as int },
                        )
                        &&& final(self).next_order_id == old(self).next_order_id + 1
                    }
                }
            }),
    {
        proof {
            crate::position::lemma_pos_index(self.positions.positions@, symbol@);
            lemma_asset_index(self.assets.assets@, symbol@);
        }
        let (pqty, pside): (i64, crate::position::Side) = match self.positions.get(symbol) {
            Some(pos) => (pos.qty, pos.side),
            None => {
                return Err(Error::NotFound);
            },
        };
        let ghost i = pos_index(old(self).positions.positions@, symbol@);
        let order_side = match pside {
            crate::position::Side::Long => crate::order::Side::Sell,
            crate::position::Side::Short => crate::order::Side::Buy,
        };
        let qty_abs: u32 = if pqty >= 0 {
            pqty as u32
        } else {
            (-pqty) as u32
        };
        let intent = OrderIntent::new(symbol).qty(qty_abs).side(order_side);
        proof {
            assert(Self::intent_valid(intent));
            assert(Self::intent_signed(intent) == -pqty);
            // the position's symbol is a registered asset, so it has a price
            let ai = asset_index(self.assets.assets@, symbol@);
            assert(asset_symbol_known(self.assets.assets@, symbol@));
            assert(ai != -1);
            assert(price_index(self.exchange.prices@, self.assets.assets@[ai].symbol@) != -1);
            lemma_price_index(self.exchange.prices@, symbol@);
            assert(price_of(self.exchange.prices@, symbol@) is Some);
            assert(self.post_fits(intent));
        }
        let r = self.post_order(&intent, now);
        match r {
            Ok(ret) => {
                proof {
                    let p = price_of(old(self).exchange.prices@, symbol@).unwrap();
                    assert(marketable_at(intent.order_type, intent.side, p));
                    assert(self.positions.positions@ == positions_after_fill(
                        old(self).positions.positions@,
                        old(self).assets.assets@[
                            asset_index(old(self).assets.assets@, symbol@)
                        ].id,
                        old(self).assets.assets@[
                            asset_index(old(self).assets.assets@, symbol@)
                        ].exchange,
                        old(self).assets.assets@[
                            asset_index(old(self).assets.assets@, symbol@)
                        ].class,
                        ret.symbol,
                        -pqty,
                        p,
                    ));
                    assert(old(self).positions.positions@[i].qty + (-pqty) == 0);
                    assert(self.positions.positions@ == old(self).positions.positions@.remove(i));
                }
                Ok(ret)
            },
            Err(_) => {
                proof {
                    assert(false);
                }
                Err(Error::Other)
            },
        }
    }

    /// Closes every position, front to back, submitting one opposing
    /// market order per position.
    pub fn close_positions(&mut self, now: u64)
        requires
            old(self).wf(),
            old(self).next_order_id + 3 + old(self).positions.positions@.len() <= u64::MAX,
            closes_fit(
                old(self).account,
                old(self).positions.positions@,
                old(self).exchange.prices@,
            ),
        ensures
            final(self).wf(),
            final(self).positions.positions@.len() == 0,
            final(self).account == closed_account(
                old(self).account,
                old(self).positions.positions@,
                old(self).exchange.prices@,
            ),
            final(self).assets == old(self).assets,
            final(self).exchange.prices@ == old(self).exchange.prices@,
            final(self).exchange.market_status == old(self).exchange.market_status,
            final(self).exchange.stored_orders@ == old(self).exchange.stored_orders@,
            final(self).orders.orders@.len() == old(self).orders.orders@.len() + old(
                self,
            ).positions.positions@.len(),
    {
        let ghost n_pos = self.positions.positions@.len();
        let ghost acct0 = self.account;
        let ghost pos0 = self.positions.positions@;
        let ghost prices0 = self.exchange.prices@;
        while self.positions.positions.len() > 0
            invariant
                self.wf(),
                self.assets == old(self).assets,
                self.exchange.prices@ == prices0,
                prices0 == old(self).exchange.prices@,
                self.exchange.market_status == old(self).exchange.market_status,
                self.exchange.stored_orders@ == old(self).exchange.stored_orders@,
                closes_fit(self.account, self.positions.positions@, prices0),
                closed_account(self.account, self.positions.positions@, prices0)
                    == closed_account(acct0, pos0, prices0),
                acct0 == old(self).account,
                pos0 == old(self).positions.positions@,
                self.next_order_id + 3 + self.positions.positions@.len() <= u64::MAX,
                self.orders.orders@.len() + self.positions.positions@.len()
                    == old(self).orders.orders@.len() + pos0.len(),
            decreases self.positions.positions@.len(),
        {
            let ghost pre = *self;
            let sym = self.positions.positions[0].symbol.clone();
            proof {
                assert(pos_index(self.positions.positions@, sym@) == 0);
                assert(self.close_fits(sym@));
            }
            let _ = self.close_position(sym.as_str(), now);
            proof {
                assert(self.positions.positions@ == pre.positions.positions@.remove(0));
                let p = price_of(prices0, sym@).unwrap();
                assert(self.account == account_after_fill(
                    pre.account,
                    -pre.positions.positions@[0].qty,
                    p as int,
                ));
            }
        }
    }
}

/// The arithmetic of closing every position, front to back, stays within
/// the ledgers' caps; each close fills at the current price of its symbol.
pub open spec fn closes_fit(
    account: Account,
    positions: Seq<Position>,
    prices: Seq<crate::exchange::PriceEntry>,
) -> bool
    decreases positions.len(),
{
    positions.len() == 0 || {
        let pos = positions[0];
        let po = price_of(prices, pos.symbol@);
        &&& po is Some
        &&& -4294967295 <= pos.qty <= 4294967295
        &&& account_fill_fits(account, -pos.qty, po.unwrap() as int)
        &&& pos_fill_fits(positions, pos.symbol@, -pos.qty, po.unwrap())
        &&& closes_fit(
            account_after_fill(account, -pos.qty, po.unwrap() as int),
            positions.remove(0),
            prices,
        )
    }
}

/// The ledger after closing every position, front to back, each at the
/// current price of its symbol.
pub open spec fn closed_account(
    account: Account,
    positions: Seq<Position>,
    prices: Seq<crate::exchange::PriceEntry>,
) -> Account
    decreases positions.len(),
{
    if positions.len() == 0 {
        account
    } else {
        closed_account(
            account_after_fill(
                account,
                -positions[0].qty,
                price_of(prices, positions[0].symbol@).unwrap() as int,
            ),
            positions.remove(0),
            prices,
        )
    }
}

/// The order states this coordinator ever assigns: orders are created new,
/// child legs are held, and an order ends filled or canceled.
pub open spec fn assigned_status(s: OrderStatus) -> bool {
    ||| s == OrderStatus::New
    ||| s == OrderStatus::Held
    ||| s == OrderStatus::Filled
    ||| s == OrderStatus::Canceled
}

/// Terminal orders are never mutated further: in a well-formed brokerage a
/// terminal order is also uncancelable, so by the contracts of `cancel`
/// and `apply_fill` every later lifecycle operation returns an error and
/// leaves the order unchanged.
pub proof fn lemma_terminal_absorbing(sim: &Simulator, i: int)
    requires
        sim.wf(),
        0 <= i < sim.orders.orders@.len(),
        terminal(sim.orders.orders@[i].status),
    ensures
        uncancelable(sim.orders.orders@[i].status),
{
}

/// Conservation of value: while the summed cost basis of the open
/// positions carries the cost of every applied fill, the cash plus the
/// summed market value equals the initial cash plus the summed unrealized
/// profit and loss, at the prices the positions were last marked at.
pub proof fn lemma_cash_conservation(sim: &Simulator)
    requires
        sim.wf(),
        sum_cost_basis(sim.positions.positions@) == total_cost(sim.fills@),
    ensures
        sim.account.cash + sum_market_value(sim.positions.positions@) == sim.account.last_equity
            + sum_unrealized_pl(sim.positions.positions@),
{
    lemma_sum_pl(sim.positions.positions@);
}

/// Round trip: buying a quantity and then selling it back, at any two
/// prices, leaves no position behind, and the cash changes by the price
/// difference times the quantity.
pub proof fn lemma_round_trip(
    ps: Seq<Position>,
    a: Account,
    asset_id: u64,
    venue: crate::asset::Exchange,
    class: crate::asset::AssetClass,
    symbol: String,
    n: u32,
    p1: u64,
    p2: u64,
)
    requires
        pos_index(ps, symbol@) == -1,
        n >= 1,
        account_fill_fits(a, n as int, p1 as int),
        account_fill_fits(account_after_fill(a, n as int, p1 as int), -(n as int), p2 as int),
    ensures
        positions_after_fill(
            positions_after_fill(ps, asset_id, venue, class, symbol, n as int, p1),
            asset_id,
            venue,
            class,
            symbol,
            -(n as int),
            p2,
        ) == ps,
        account_after_fill(
            account_after_fill(a, n as int, p1 as int),
            -(n as int),
            p2 as int,
        ).cash == a.cash - (p1 - p2) * n,
{
    lemma_pos_index(ps, symbol@);
    let fresh = fresh_position(asset_id, venue, class, symbol, n as int, p1);
    let ps1 = positions_after_fill(ps, asset_id, venue, class, symbol, n as int, p1);
    assert(ps1 == ps.push(fresh));
    assert(ps1[ps.len() as int] == fresh);
    assert(fresh.symbol@ == symbol@);
    lemma_pos_index_found(ps1, symbol@, ps.len() as int);
    assert(fresh.qty == n as int);
    let ps2 = positions_after_fill(ps1, asset_id, venue, class, symbol, -(n as int), p2);
    assert(ps2 == ps1.remove(ps.len() as int));
    assert(ps2 =~= ps);
    let a1 = account_after_fill(a, n as int, p1 as int);
    let a2 = account_after_fill(a1, -(n as int), p2 as int);
    assert(a1.cash == a.cash - (p1 as int) * (n as int));
    assert((p2 as int) * (-(n as int)) == -((p2 as int) * (n as int))) by (nonlinear_arith);
    assert(a2.cash == a1.cash + (p2 as int) * (n as int));
    assert(a.cash - (p1 as int) * (n as int) + (p2 as int) * (n as int) == a.cash - (
    (p1 as int) - (p2 as int)) * (n as int)) by (nonlinear_arith);
}

/// No resting order is marketable: in a well-formed brokerage every order
/// parked on the exchange has a current price for its symbol, and is not
/// marketable at that price.
pub proof fn lemma_no_marketable_resting(sim: &Simulator, k: int)
    requires
        sim.wf(),
        0 <= k < sim.exchange.stored_orders@.len(),
    ensures
        price_of(sim.exchange.prices@, sim.exchange.stored_orders@[k].symbol@) is Some,
        !marketable_spec(
            sim.exchange.stored_orders@[k],
            price_of(sim.exchange.prices@, sim.exchange.stored_orders@[k].symbol@).unwrap(),
        ),
{
    let sym = sim.exchange.stored_orders@[k].symbol@;
    lemma_asset_index(sim.assets.assets@, sym);
    let ai = asset_index(sim.assets.assets@, sym);
    assert(asset_symbol_known(sim.assets.assets@, sym));
    assert(ai != -1);
    assert(price_index(sim.exchange.prices@, sim.assets.assets@[ai].symbol@) != -1);
    assert(sim.assets.assets@[ai].symbol@ == sym);
    lemma_price_index(sim.exchange.prices@, sym);
}

} // verus!

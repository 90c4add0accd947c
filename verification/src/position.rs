//! Positions: the per-symbol aggregate of quantity, cost basis and
//! mark-to-market fields, and the store that maintains one position per
//! symbol.
//!
//! Quantities are signed: positive long, negative short.  A position whose
//! quantity returns to zero is removed from the store.  Ratios such as
//! `change_today` are kept exact as numerator/denominator pairs; a zero
//! denominator yields the zero ratio.

use vstd::prelude::*;
use crate::asset::{AssetClass, Exchange};
use crate::utils::str_eq;

verus! {

/// Largest money amount (a price times a quantity, or a sum of such) the
/// ledgers accept; keeps every computation inside `i128`.
pub const MAX_MONEY: i128 = 1000000000000000000000000000000;

/// Largest absolute position quantity the store accepts.
pub const MAX_POSITION_QTY: i64 = 1000000000000000;

/// Whether a holding is long or short.
#[derive(Clone, Copy, Debug, PartialEq, Eq, Structural)]
pub enum Side {
    Long,
    Short,
}

/// An exact ratio; the zero ratio stands for a ratio whose denominator
/// would be zero.
#[derive(Clone, Copy, Debug, PartialEq, Eq, Structural)]
pub struct Ratio {
    pub num: i128,
    pub den: i128,
}

/// The zero ratio.
pub open spec fn zero_ratio() -> Ratio {
    Ratio { num: 0, den: 1 }
}

/// `num / den` as an exact ratio, or zero when the denominator is zero.
pub open spec fn ratio_of(num: int, den: int) -> Ratio {
    if den == 0 {
        zero_ratio()
    } else {
        Ratio { num: num as i128, den: den as i128 }
    }
}

/// A per-symbol holding.
#[derive(Clone, Debug, PartialEq)]
pub struct Position {
    pub asset_id: u64,
    pub symbol: String,
    pub exchange: Exchange,
    pub asset_class: AssetClass,
    pub avg_entry_price: u64,
    pub qty: i64,
    pub side: Side,
    pub market_value: i128,
    pub cost_basis: i128,
    pub unrealized_pl: i128,
    pub unrealized_plpc: Ratio,
    pub unrealized_intraday_pl: i128,
    pub unrealized_intraday_plpc: Ratio,
    pub current_price: u64,
    pub lastday_price: u64,
    pub change_today: Ratio,
}

/// The side a quantity implies.
pub open spec fn side_of(q: int) -> Side {
    if q > 0 {
        Side::Long
    } else {
        Side::Short
    }
}

/// A well-formed position: present only while the quantity is non-zero, the
/// side follows the sign, the market value is quantity times current price,
/// the profit-and-loss is market value minus cost basis, and quantity and
/// cost basis stay within the caps.
pub open spec fn position_wf(p: Position) -> bool {
    &&& p.qty != 0
    &&& -MAX_POSITION_QTY <= p.qty <= MAX_POSITION_QTY
    &&& -MAX_MONEY <= p.cost_basis <= MAX_MONEY
    &&& p.side == side_of(p.qty as int)
    &&& p.market_value == p.qty * p.current_price
    &&& p.unrealized_pl == p.market_value - p.cost_basis
}

/// The position after a mark-to-market at `price`: the market value, the
/// unrealized figures and the day-change ratio are refreshed; quantity,
/// cost basis and the last-day price stay.
pub open spec fn marked(p: Position, price: u64) -> Position {
    let mv = p.qty * price;
    let pl = mv - p.cost_basis;
    let ipl = p.qty * (price - p.lastday_price);
    Position {
        market_value: mv as i128,
        current_price: price,
        change_today: ratio_of(price - p.lastday_price, p.lastday_price as int),
        unrealized_pl: pl as i128,
        unrealized_plpc: ratio_of(pl, p.cost_basis as int),
        unrealized_intraday_pl: ipl as i128,
        unrealized_intraday_plpc: ratio_of(ipl, p.qty * p.lastday_price),
        ..p
    }
}

/// A fresh position opened by a fill of signed quantity `q` at price `p`:
/// entry, current and last-day price are the fill price and the unrealized
/// figures are zero.
pub open spec fn fresh_position(
    asset_id: u64,
    venue: Exchange,
    class: AssetClass,
    symbol: String,
    q: int,
    p: u64,
) -> Position {
    Position {
        asset_id,
        symbol,
        exchange: venue,
        asset_class: class,
        avg_entry_price: p,
        qty: q as i64,
        side: side_of(q),
        market_value: (q * p) as i128,
        cost_basis: (q * p) as i128,
        unrealized_pl: 0,
        unrealized_plpc: zero_ratio(),
        unrealized_intraday_pl: 0,
        unrealized_intraday_plpc: zero_ratio(),
        current_price: p,
        lastday_price: p,
        change_today: zero_ratio(),
    }
}

/// The index of the position for `sym`, or -1 when there is none.
pub open spec fn pos_index(ps: Seq<Position>, sym: Seq<char>) -> int
    decreases ps.len(),
{
    if ps.len() == 0 {
        -1
    } else if ps[0].symbol@ == sym {
        0
    } else {
        let r = pos_index(ps.drop_first(), sym);
        if r == -1 {
            -1
        } else {
            r + 1
        }
    }
}

/// `pos_index` finds the first position for the symbol, and -1 means
/// absence.
pub proof fn lemma_pos_index(ps: Seq<Position>, sym: Seq<char>)
    ensures
        pos_index(ps, sym) == -1 ==> forall|i: int|
            0 <= i < ps.len() ==> (#[trigger] ps[i]).symbol@ != sym,
        pos_index(ps, sym) != -1 ==> {
            &&& 0 <= pos_index(ps, sym) < ps.len()
            &&& ps[pos_index(ps, sym)].symbol@ == sym
            &&& forall|i: int| 0 <= i < pos_index(ps, sym) ==> (#[trigger] ps[i]).symbol@ != sym
        },
    decreases ps.len(),
{
    if ps.len() > 0 {
        let tail = ps.drop_first();
        lemma_pos_index(tail, sym);
        assert(forall|i: int| 1 <= i < ps.len() ==> (#[trigger] ps[i]) == tail[i - 1]);
        if ps[0].symbol@ != sym {
            let r = pos_index(tail, sym);
            if r == -1 {
                assert(forall|i: int| 0 <= i < ps.len() ==> (#[trigger] ps[i]).symbol@ != sym)
                    by {
                    assert(forall|i: int|
                        1 <= i < ps.len() ==> (#[trigger] ps[i]).symbol@ == tail[i - 1].symbol@);
                }
            } else {
                assert(ps[r + 1] == tail[r]);
                assert(forall|i: int| 0 <= i < r + 1 ==> (#[trigger] ps[i]).symbol@ != sym) by {
                    assert(forall|i: int|
                        1 <= i < ps.len() ==> (#[trigger] ps[i]).symbol@ == tail[i - 1].symbol@);
                }
            }
        }
    }
}

/// `pos_index` returns `at` when `at` is the first index for `sym`.
pub proof fn lemma_pos_index_found(ps: Seq<Position>, sym: Seq<char>, at: int)
    requires
        0 <= at < ps.len(),
        ps[at].symbol@ == sym,
        forall|j: int| 0 <= j < at ==> (#[trigger] ps[j]).symbol@ != sym,
    ensures
        pos_index(ps, sym) == at,
    decreases ps.len(),
{
    if at > 0 {
        assert(forall|i: int| 1 <= i < ps.len() ==> (#[trigger] ps[i]) == ps.drop_first()[i - 1]);
        lemma_pos_index_found(ps.drop_first(), sym, at - 1);
    }
}

/// The store after a fill of signed quantity `q` at price `p` for `symbol`:
/// an absent position is opened fresh; an existing one has the quantity and
/// cost basis advanced and is re-marked at the fill price, or is removed
/// when the quantity returns to zero.
pub open spec fn positions_after_fill(
    ps: Seq<Position>,
    asset_id: u64,
    venue: Exchange,
    class: AssetClass,
    symbol: String,
    q: int,
    p: u64,
) -> Seq<Position> {
    let i = pos_index(ps, symbol@);
    if i == -1 {
        ps.push(fresh_position(asset_id, venue, class, symbol, q, p))
    } else {
        let pos = ps[i];
        let nq = pos.qty + q;
        if nq == 0 {
            ps.remove(i)
        } else {
            ps.update(
                i,
                marked(
                    Position {
                        qty: nq as i64,
                        cost_basis: (pos.cost_basis + q * p) as i128,
                        side: side_of(nq),
                        ..pos
                    },
                    p,
                ),
            )
        }
    }
}

/// The store after a mark-to-market of `sym` at `price`: the position for
/// `sym`, if any, is re-marked; everything else stays.
pub open spec fn marked_positions(ps: Seq<Position>, sym: Seq<char>, price: u64) -> Seq<Position> {
    let i = pos_index(ps, sym);
    if i == -1 {
        ps
    } else {
        ps.update(i, marked(ps[i], price))
    }
}

/// The sum of the market values of a set of positions.
pub open spec fn sum_market_value(ps: Seq<Position>) -> int
    decreases ps.len(),
{
    if ps.len() == 0 {
        0
    } else {
        sum_market_value(ps.drop_last()) + ps.last().market_value
    }
}

/// The sum of the cost bases of a set of positions.
pub open spec fn sum_cost_basis(ps: Seq<Position>) -> int
    decreases ps.len(),
{
    if ps.len() == 0 {
        0
    } else {
        sum_cost_basis(ps.drop_last()) + ps.last().cost_basis
    }
}

/// The sum of the unrealized profit-and-loss of a set of positions.
pub open spec fn sum_unrealized_pl(ps: Seq<Position>) -> int
    decreases ps.len(),
{
    if ps.len() == 0 {
        0
    } else {
        sum_unrealized_pl(ps.drop_last()) + ps.last().unrealized_pl
    }
}

/// Over well-formed positions, the summed unrealized profit-and-loss is the
/// summed market value minus the summed cost basis.
pub proof fn lemma_sum_pl(ps: Seq<Position>)
    requires
        forall|i: int| 0 <= i < ps.len() ==> position_wf(#[trigger] ps[i]),
    ensures
        sum_unrealized_pl(ps) == sum_market_value(ps) - sum_cost_basis(ps),
    decreases ps.len(),
{
    if ps.len() > 0 {
        assert(forall|i: int|
            0 <= i < ps.len() - 1 ==> (#[trigger] ps.drop_last()[i]) == ps[i]);
        lemma_sum_pl(ps.drop_last());
        assert(position_wf(ps[ps.len() - 1]));
    }
}

/// Every position after a fill either carries the fill's symbol or the
/// symbol of a position that was already there.
pub proof fn lemma_fill_symbols(
    ps: Seq<Position>,
    asset_id: u64,
    venue: Exchange,
    class: AssetClass,
    symbol: String,
    q: int,
    p: u64,
)
    ensures
        forall|k: int|
            0 <= k < positions_after_fill(ps, asset_id, venue, class, symbol, q, p).len() ==> {
                ||| (#[trigger] positions_after_fill(ps, asset_id, venue, class, symbol, q, p)[k]).symbol@
                    == symbol@
                ||| exists|j: int|
                    0 <= j < ps.len() && positions_after_fill(
                        ps,
                        asset_id,
                        venue,
                        class,
                        symbol,
                        q,
                        p,
                    )[k].symbol@ == ps[j].symbol@
            },
{
    let r = positions_after_fill(ps, asset_id, venue, class, symbol, q, p);
    let i = pos_index(ps, symbol@);
    lemma_pos_index(ps, symbol@);
    if i == -1 {
        assert(forall|k: int| 0 <= k < ps.len() ==> (#[trigger] r[k]) == ps[k]);
        assert(r[ps.len() as int].symbol@ == symbol@);
    } else if ps[i].qty + q == 0 {
        assert(forall|k: int|
            0 <= k < r.len() ==> (#[trigger] r[k]) == if k < i {
                ps[k]
            } else {
                ps[k + 1]
            });
    } else {
        assert(forall|k: int| 0 <= k < r.len() && k != i ==> (#[trigger] r[k]) == ps[k]);
        assert(r[i].symbol@ == ps[i].symbol@);
    }
}

/// The arithmetic of a fill stays within the caps.
pub open spec fn pos_fill_fits(ps: Seq<Position>, sym: Seq<char>, q: int, p: u64) -> bool {
    let i = pos_index(ps, sym);
    &&& q != 0
    &&& -4294967295 <= q <= 4294967295
    &&& if i == -1 {
        &&& -MAX_POSITION_QTY <= q <= MAX_POSITION_QTY
        &&& -MAX_MONEY <= q * p <= MAX_MONEY
    } else {
        &&& -MAX_POSITION_QTY <= ps[i].qty + q <= MAX_POSITION_QTY
        &&& -MAX_MONEY <= ps[i].cost_basis + q * p <= MAX_MONEY
    }
}

impl Position {
    /// Marks this position to market at `price`.
    pub fn update_with_price(&mut self, price: u64)
        requires
            -MAX_POSITION_QTY <= old(self).qty <= MAX_POSITION_QTY,
            -MAX_MONEY <= old(self).cost_basis <= MAX_MONEY,
        ensures
            *final(self) == marked(*old(self), price),
    {
        proof {
            lemma_mark_products_fit(old(self).qty as int, old(self).cost_basis as int, price);
        }
        let qty = self.qty as i128;
        let mv: i128 = qty * (price as i128);
        let diff: i128 = (price as i128) - (self.lastday_price as i128);
        let pl: i128 = mv - self.cost_basis;
        let ipl: i128 = qty * diff;
        let iden: i128 = qty * (self.lastday_price as i128);
        self.market_value = mv;
        self.current_price = price;
        self.change_today = ratio_from(diff, self.lastday_price as i128);
        self.unrealized_pl = pl;
        self.unrealized_plpc = ratio_from(pl, self.cost_basis);
        self.unrealized_intraday_pl = ipl;
        self.unrealized_intraday_plpc = ratio_from(ipl, iden);
    }
}

/// The products and differences of a mark stay inside `i128` while the
/// quantity and cost basis respect the caps.
proof fn lemma_mark_products_fit(qty: int, cb: int, price: u64)
    requires
        -MAX_POSITION_QTY <= qty <= MAX_POSITION_QTY,
        -MAX_MONEY <= cb <= MAX_MONEY,
    ensures
        i128::MIN <= qty * price <= i128::MAX,
        i128::MIN <= qty * price - cb <= i128::MAX,
        forall|d: int|
            -18446744073709551615 <= d <= 18446744073709551615 ==> i128::MIN <= #[trigger] (qty
                * d) <= i128::MAX,
{
    assert forall|d: int| -18446744073709551615 <= d <= 18446744073709551615 implies i128::MIN
        <= #[trigger] (qty * d) <= i128::MAX by {
        assert(-18446744073709551615000000000000000 <= qty * d
            <= 18446744073709551615000000000000000) by (nonlinear_arith)
            requires
                -MAX_POSITION_QTY <= qty <= MAX_POSITION_QTY,
                -18446744073709551615 <= d <= 18446744073709551615,
        ;
    }
    assert(i128::MIN <= qty * price <= i128::MAX) by (nonlinear_arith)
        requires
            -MAX_POSITION_QTY <= qty <= MAX_POSITION_QTY,
            0 <= price <= 18446744073709551615,
    ;
    assert(i128::MIN <= qty * price - cb <= i128::MAX) by (nonlinear_arith)
        requires
            -MAX_POSITION_QTY <= qty <= MAX_POSITION_QTY,
            0 <= price <= 18446744073709551615,
            -MAX_MONEY <= cb <= MAX_MONEY,
    ;
}

/// The executable counterpart of `ratio_of`.
fn ratio_from(num: i128, den: i128) -> (r: Ratio)
    ensures
        r == ratio_of(num as int, den as int),
{
    if den == 0 {
        Ratio { num: 0, den: 1 }
    } else {
        Ratio { num, den }
    }
}

/// Marking twice at the same price is the same as marking once: a mark
/// changes none of the inputs the mark formulas read.
pub proof fn lemma_mark_idempotent(p: Position, price: u64)
    ensures
        marked(marked(p, price), price) == marked(p, price),
{
}

/// The per-symbol aggregate store: at most one position per symbol.
pub struct PositionManager {
    pub positions: Vec<Position>,
}

impl PositionManager {
    /// Symbols are pairwise distinct and every position is well formed.
    pub open spec fn wf(&self) -> bool {
        &&& forall|i: int, j: int|
            0 <= i < j < self.positions@.len() ==> self.positions@[i].symbol@
                != self.positions@[j].symbol@
        &&& forall|i: int| 0 <= i < self.positions@.len() ==> position_wf(#[trigger] self.positions@[i])
    }

    /// An empty store.
    pub fn new() -> (r: PositionManager)
        ensures
            r.wf(),
            r.positions@.len() == 0,
    {
        PositionManager { positions: Vec::new() }
    }

    /// All positions.
    pub fn list(&self) -> (r: &Vec<Position>)
        ensures
            r == &self.positions,
    {
        &self.positions
    }

    /// Looks the position for a symbol up.
    pub fn get(&self, symbol: &str) -> (r: Option<&Position>)
        ensures
            match r {
                Some(p) => {
                    &&& pos_index(self.positions@, symbol@) >= 0
                    &&& *p == self.positions@[pos_index(self.positions@, symbol@)]
                    &&& p.symbol@ == symbol@
                },
                None => pos_index(self.positions@, symbol@) == -1,
            },
    {
        proof {
            lemma_pos_index(self.positions@, symbol@);
        }
        let n = self.positions.len();
        let mut i: usize = 0;
        while i < n
            invariant
                0 <= i <= n,
                n == self.positions@.len(),
                forall|j: int| 0 <= j < i ==> (#[trigger] self.positions@[j]).symbol@ != symbol@,
            decreases n - i,
        {
            if str_eq(self.positions[i].symbol.as_str(), symbol) {
                proof {
                    lemma_pos_index_found(self.positions@, symbol@, i as int);
                }
                return Some(&self.positions[i]);
            }
            i = i + 1;
        }
        None
    }

    /// Marks the position for `symbol`, if any, to market at `price`.
    pub fn mark(&mut self, symbol: &str, price: u64)
        requires
            old(self).wf(),
        ensures
            final(self).wf(),
            final(self).positions@ == marked_positions(old(self).positions@, symbol@, price),
    {
        proof {
            lemma_pos_index(self.positions@, symbol@);
        }
        let n = self.positions.len();
        let mut i: usize = 0;
        while i < n
            invariant
                0 <= i <= n,
                n == self.positions@.len(),
                forall|j: int| 0 <= j < i ==> (#[trigger] self.positions@[j]).symbol@ != symbol@,
                self.positions@ == old(self).positions@,
                old(self).wf(),
            decreases n - i,
        {
            if str_eq(self.positions[i].symbol.as_str(), symbol) {
                proof {
                    lemma_pos_index_found(self.positions@, symbol@, i as int);
                }
                let ghost pre = self.positions@;
                let mut p = self.positions.remove(i);
                p.update_with_price(price);
                self.positions.insert(i, p);
                proof {
                    assert(self.positions@ =~= pre.update(
                        i as int,
                        marked(pre[i as int], price),
                    ));
                    lemma_mark_products_fit(
                        pre[i as int].qty as int,
                        pre[i as int].cost_basis as int,
                        price,
                    );
                    assert(forall|k: int|
                        0 <= k < self.positions@.len() ==> (#[trigger] self.positions@[k]).symbol@
                            == pre[k].symbol@);
                    assert(forall|k: int|
                        0 <= k < self.positions@.len() ==> position_wf(
                            #[trigger] self.positions@[k],
                        ));
                }
                return ;
            }
            i = i + 1;
        }
    }

    /// Applies a fill of signed quantity `q` at price `p` for `symbol`,
    /// opening, advancing or removing the position for that symbol.
    pub fn apply_fill(
        &mut self,
        asset_id: u64,
        venue: Exchange,
        class: AssetClass,
        symbol: String,
        q: i64,
        p: u64,
    )
        requires
            old(self).wf(),
            pos_fill_fits(old(self).positions@, symbol@, q as int, p),
        ensures
            final(self).wf(),
            final(self).positions@ == positions_after_fill(
                old(self).positions@,
                asset_id,
                venue,
                class,
                symbol,
                q as int,
                p,
            ),
    {
        proof {
            lemma_pos_index(self.positions@, symbol@);
        }
        let n = self.positions.len();
        let mut i: usize = 0;
        while i < n
            invariant
                0 <= i <= n,
                n == self.positions@.len(),
                forall|j: int| 0 <= j < i ==> (#[trigger] self.positions@[j]).symbol@ != symbol@,
                self.positions@ == old(self).positions@,
                old(self).wf(),
                pos_fill_fits(old(self).positions@, symbol@, q as int, p),
            decreases n - i,
        {
            if str_eq(self.positions[i].symbol.as_str(), symbol.as_str()) {
                proof {
                    lemma_pos_index_found(self.positions@, symbol@, i as int);
                }
                let ghost pre = self.positions@;
                let mut pos = self.positions.remove(i);
                let nq: i128 = (pos.qty as i128) + (q as i128);
                if nq == 0 {
                    proof {
                        assert(self.positions@ =~= pre.remove(i as int));
                        lemma_remove_keeps_wf(pre, i as int);
                    }
                    return ;
                }
                proof {
                    lemma_mark_products_fit(pos.qty as int, pos.cost_basis as int, p);
                    assert(-MAX_MONEY <= (q as int) * (p as int) <= MAX_MONEY) by {
                        assert(pre[i as int].cost_basis + (q as int) * p <= MAX_MONEY);
                        assert(-MAX_MONEY <= pre[i as int].cost_basis + (q as int) * p);
                        assert(-4294967295 <= q as int <= 4294967295);
                        assert(-79228162495817593519834398720 <= (q as int) * (p as int)
                            <= 79228162495817593519834398720) by (nonlinear_arith)
                            requires
                                -4294967295 <= q as int <= 4294967295,
                                0 <= p as int <= 18446744073709551615,
                        ;
                    }
                }
                pos.qty = nq as i64;
                pos.cost_basis = pos.cost_basis + (q as i128) * (p as i128);
                pos.side = if nq > 0 {
                    Side::Long
                } else {
                    Side::Short
                };
                pos.update_with_price(p);
                self.positions.insert(i, pos);
                proof {
                    assert(self.positions@ =~= pre.update(
                        i as int,
                        marked(
                            Position {
                                qty: (pre[i as int].qty + q) as i64,
                                cost_basis: (pre[i as int].cost_basis + (q as int) * p) as i128,
                                side: side_of(pre[i as int].qty + q),
                                ..pre[i as int]
                            },
                            p,
                        ),
                    ));
                    lemma_mark_products_fit(
                        pre[i as int].qty + q,
                        pre[i as int].cost_basis + (q as int) * p,
                        p,
                    );
                    assert(forall|k: int|
                        0 <= k < self.positions@.len() ==> (#[trigger] self.positions@[k]).symbol@
                            == pre[k].symbol@);
                    assert(forall|k: int|
                        0 <= k < self.positions@.len() ==> position_wf(
                            #[trigger] self.positions@[k],
                        ));
                }
                return ;
            }
            i = i + 1;
        }
        let ghost pre = self.positions@;
        proof {
            lemma_mark_products_fit(q as int, 0, p);
        }
        let mv: i128 = (q as i128) * (p as i128);
        let fresh = Position {
            asset_id,
            symbol,
            exchange: venue,
            asset_class: class,
            avg_entry_price: p,
            qty: q,
            side: if q > 0 {
                Side::Long
            } else {
                Side::Short
            },
            market_value: mv,
            cost_basis: mv,
            unrealized_pl: 0,
            unrealized_plpc: Ratio { num: 0, den: 1 },
            unrealized_intraday_pl: 0,
            unrealized_intraday_plpc: Ratio { num: 0, den: 1 },
            current_price: p,
            lastday_price: p,
            change_today: Ratio { num: 0, den: 1 },
        };
        self.positions.push(fresh);
        proof {
            assert(forall|k: int|
                0 <= k < pre.len() ==> (#[trigger] self.positions@[k]) == pre[k]);
            assert(forall|k: int|
                0 <= k < self.positions@.len() ==> position_wf(#[trigger] self.positions@[k]));
        }
    }
}

/// Removing an element keeps symbols distinct and positions well formed.
proof fn lemma_remove_keeps_wf(ps: Seq<Position>, i: int)
    requires
        0 <= i < ps.len(),
        forall|a: int, b: int| 0 <= a < b < ps.len() ==> ps[a].symbol@ != ps[b].symbol@,
        forall|a: int| 0 <= a < ps.len() ==> position_wf(#[trigger] ps[a]),
    ensures
        forall|a: int, b: int|
            0 <= a < b < ps.remove(i).len() ==> ps.remove(i)[a].symbol@ != ps.remove(i)[b].symbol@,
        forall|a: int| 0 <= a < ps.remove(i).len() ==> position_wf(#[trigger] ps.remove(i)[a]),
{
    let r = ps.remove(i);
    assert(forall|a: int|
        0 <= a < r.len() ==> (#[trigger] r[a]) == if a < i {
            ps[a]
        } else {
            ps[a + 1]
        });
}

/// Every position of a well-formed store is held in a non-zero quantity
/// and carries a market value of exactly quantity times current price.
pub proof fn lemma_position_invariants(pm: &PositionManager)
    requires
        pm.wf(),
    ensures
        forall|i: int|
            0 <= i < pm.positions@.len() ==> {
                &&& (#[trigger] pm.positions@[i]).qty != 0
                &&& pm.positions@[i].market_value == pm.positions@[i].qty
                    * pm.positions@[i].current_price
            },
{
}

/// Two stores whose positions carry the same symbols index every symbol at
/// the same place.
pub proof fn lemma_pos_index_same_symbols(a: Seq<Position>, b: Seq<Position>, sym: Seq<char>)
    requires
        a.len() == b.len(),
        forall|i: int| 0 <= i < a.len() ==> (#[trigger] a[i]).symbol@ == b[i].symbol@,
    ensures
        pos_index(a, sym) == pos_index(b, sym),
    decreases a.len(),
{
    if a.len() > 0 {
        assert(forall|i: int| 1 <= i < a.len() ==> (#[trigger] a[i]) == a.drop_first()[i - 1]);
        assert(forall|i: int| 1 <= i < b.len() ==> (#[trigger] b[i]) == b.drop_first()[i - 1]);
        assert(forall|i: int|
            0 <= i < a.drop_first().len() ==> (#[trigger] a.drop_first()[i]).symbol@
                == b.drop_first()[i].symbol@);
        lemma_pos_index_same_symbols(a.drop_first(), b.drop_first(), sym);
    }
}

/// The summed signed quantity of a sequence of (quantity, price) fills.
pub open spec fn fills_qty(fs: Seq<(int, u64)>) -> int
    decreases fs.len(),
{
    if fs.len() == 0 {
        0
    } else {
        fs[0].0 + fills_qty(fs.drop_first())
    }
}

/// The summed signed cost of a sequence of (quantity, price) fills.
pub open spec fn fills_cost(fs: Seq<(int, u64)>) -> int
    decreases fs.len(),
{
    if fs.len() == 0 {
        0
    } else {
        fs[0].0 * fs[0].1 + fills_cost(fs.drop_first())
    }
}

/// The store after a sequence of fills for one symbol, first to last.
pub open spec fn apply_fills(
    ps: Seq<Position>,
    asset_id: u64,
    venue: Exchange,
    class: AssetClass,
    symbol: String,
    fs: Seq<(int, u64)>,
) -> Seq<Position>
    decreases fs.len(),
{
    if fs.len() == 0 {
        ps
    } else {
        apply_fills(
            positions_after_fill(ps, asset_id, venue, class, symbol, fs[0].0, fs[0].1),
            asset_id,
            venue,
            class,
            symbol,
            fs.drop_first(),
        )
    }
}

/// Starting from quantity `q0` and cost basis `c0`, every fill of the
/// sequence is non-zero, keeps the running quantity away from zero, and
/// keeps the running figures within the caps.
pub open spec fn fills_ok(q0: int, c0: int, fs: Seq<(int, u64)>) -> bool
    decreases fs.len(),
{
    fs.len() == 0 || {
        let q = fs[0].0;
        let p = fs[0].1;
        &&& q != 0
        &&& -4294967295 <= q <= 4294967295
        &&& q0 + q != 0
        &&& -MAX_POSITION_QTY <= q0 + q <= MAX_POSITION_QTY
        &&& -MAX_MONEY <= c0 + q * p <= MAX_MONEY
        &&& fills_ok(q0 + q, c0 + q * p, fs.drop_first())
    }
}

/// An existing position advanced by fills that never flatten it tracks
/// them exactly: its quantity grows by their summed quantity and its cost
/// basis by their summed signed cost, and it stays where it was.
pub proof fn lemma_position_tracks_fills(
    ps: Seq<Position>,
    asset_id: u64,
    venue: Exchange,
    class: AssetClass,
    symbol: String,
    fs: Seq<(int, u64)>,
)
    requires
        pos_index(ps, symbol@) != -1,
        fills_ok(
            ps[pos_index(ps, symbol@)].qty as int,
            ps[pos_index(ps, symbol@)].cost_basis as int,
            fs,
        ),
    ensures
        ({
            let i = pos_index(ps, symbol@);
            let r = apply_fills(ps, asset_id, venue, class, symbol, fs);
            &&& pos_index(r, symbol@) == i
            &&& r.len() == ps.len()
            &&& r[i].qty == ps[i].qty + fills_qty(fs)
            &&& r[i].cost_basis == ps[i].cost_basis + fills_cost(fs)
        }),
    decreases fs.len(),
{
    lemma_pos_index(ps, symbol@);
    let i = pos_index(ps, symbol@);
    if fs.len() > 0 {
        let q = fs[0].0;
        let p = fs[0].1;
        let ps1 = positions_after_fill(ps, asset_id, venue, class, symbol, q, p);
        assert(ps[i].qty + q != 0);
        let nq = ps[i].qty + q;
        let updated = marked(
            Position {
                qty: nq as i64,
                cost_basis: (ps[i].cost_basis + q * p) as i128,
                side: side_of(nq),
                ..ps[i]
            },
            p,
        );
        assert(ps1 == ps.update(i, updated));
        assert(updated.qty == nq && updated.cost_basis == ps[i].cost_basis + q * p);
        assert(forall|k: int|
            0 <= k < ps1.len() ==> (#[trigger] ps1[k]).symbol@ == ps[k].symbol@);
        lemma_pos_index_same_symbols(ps1, ps, symbol@);
        assert(pos_index(ps1, symbol@) == i);
        lemma_position_tracks_fills(ps1, asset_id, venue, class, symbol, fs.drop_first());
    }
}

/// A position built from scratch by fills that never flatten it carries
/// exactly their summed quantity and summed signed cost: the cost basis is
/// the total of signed quantity times price over the fills, as long as the
/// position never closes along the way.
pub proof fn lemma_cost_basis_tracks_fills(
    ps: Seq<Position>,
    asset_id: u64,
    venue: Exchange,
    class: AssetClass,
    symbol: String,
    fs: Seq<(int, u64)>,
)
    requires
        pos_index(ps, symbol@) == -1,
        fs.len() >= 1,
        fs[0].0 != 0,
        -4294967295 <= fs[0].0 <= 4294967295,
        -MAX_POSITION_QTY <= fs[0].0 <= MAX_POSITION_QTY,
        -MAX_MONEY <= fs[0].0 * fs[0].1 <= MAX_MONEY,
        fills_ok(fs[0].0, fs[0].0 * fs[0].1, fs.drop_first()),
    ensures
        ({
            let r = apply_fills(ps, asset_id, venue, class, symbol, fs);
            let j = pos_index(r, symbol@);
            &&& j != -1
            &&& r[j].qty == fills_qty(fs)
            &&& r[j].cost_basis == fills_cost(fs)
        }),
{
    lemma_pos_index(ps, symbol@);
    let q = fs[0].0;
    let p = fs[0].1;
    let fresh = fresh_position(asset_id, venue, class, symbol, q, p);
    let ps1 = positions_after_fill(ps, asset_id, venue, class, symbol, q, p);
    assert(ps1 == ps.push(fresh));
    assert(ps1[ps.len() as int] == fresh);
    assert(fresh.symbol@ == symbol@);
    lemma_pos_index_found(ps1, symbol@, ps.len() as int);
    assert(pos_index(ps1, symbol@) == ps.len());
    assert(fresh.qty == q && fresh.cost_basis == q * p);
    lemma_position_tracks_fills(ps1, asset_id, venue, class, symbol, fs.drop_first());
    assert(apply_fills(ps, asset_id, venue, class, symbol, fs) == apply_fills(
        ps1,
        asset_id,
        venue,
        class,
        symbol,
        fs.drop_first(),
    ));
}

} // verus!

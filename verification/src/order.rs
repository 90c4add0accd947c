//! Orders: client intents, the authoritative order record, its lifecycle
//! state machine, and the order store.
//!
//! An order is created from an intent, may rest on the exchange, and ends in
//! one of the terminal states.  Fills are all-or-nothing: `filled_qty` is
//! either zero or the full requested quantity.

use vstd::prelude::*;
use crate::asset::{Asset, AssetClass};
use crate::errors::Error;
use crate::utils::{dec_rep, str_eq, to_string};

verus! {

/// Which way an order trades.
#[derive(Clone, Copy, Debug, PartialEq, Eq, Structural)]
pub enum Side {
    Buy,
    Sell,
}

impl Side {
    /// The opposite side.
    pub fn neg(self) -> (r: Side)
        ensures
            r == neg_side(self),
    {
        match self {
            Side::Buy => Side::Sell,
            Side::Sell => Side::Buy,
        }
    }
}

impl Default for Side {
    fn default() -> (r: Self)
        ensures
            r == Side::Buy,
    {
        Side::Buy
    }
}

/// The opposite of a side.
pub open spec fn neg_side(s: Side) -> Side {
    match s {
        Side::Buy => Side::Sell,
        Side::Sell => Side::Buy,
    }
}

/// The pricing rule of an order.
#[derive(Clone, Copy, Debug, PartialEq, Eq, Structural)]
pub enum OrderType {
    Market,
    Limit { limit_price: u64 },
    Stop { stop_price: u64 },
    StopLimit { limit_price: u64, stop_price: u64 },
}

impl Default for OrderType {
    fn default() -> (r: Self)
        ensures
            r == OrderType::Market,
    {
        OrderType::Market
    }
}

/// How long an order stays eligible.
#[derive(Clone, Copy, Debug, PartialEq, Eq, Structural)]
pub enum TimeInForce {
    DAY,
    GTC,
    OPG,
    CLS,
    IOC,
    FOK,
}

impl Default for TimeInForce {
    fn default() -> (r: Self)
        ensures
            r == TimeInForce::DAY,
    {
        TimeInForce::DAY
    }
}

/// The lifecycle state of an order.
#[derive(Clone, Copy, Debug, PartialEq, Eq, Structural)]
pub enum OrderStatus {
    Accepted,
    AcceptedForBidding,
    Calculated,
    Canceled,
    DoneForDay,
    Expired,
    Filled,
    Held,
    New,
    PartiallyFilled,
    PendingCancel,
    PendingNew,
    PendingReplace,
    Rejected,
    Replaced,
    Stopped,
    Suspended,
}

impl Default for OrderStatus {
    fn default() -> (r: Self)
        ensures
            r == OrderStatus::New,
    {
        OrderStatus::New
    }
}

/// The absorbing states of the lifecycle: once reached, the order is never
/// mutated again.
pub open spec fn terminal(s: OrderStatus) -> bool {
    ||| s == OrderStatus::Filled
    ||| s == OrderStatus::Canceled
    ||| s == OrderStatus::Expired
    ||| s == OrderStatus::Rejected
    ||| s == OrderStatus::Replaced
}

/// The states on which a cancel request fails.
pub open spec fn uncancelable(s: OrderStatus) -> bool {
    ||| s == OrderStatus::Filled
    ||| s == OrderStatus::Expired
    ||| s == OrderStatus::Canceled
}

/// Take-profit sub-specification of a multi-leg order class.
#[derive(Clone, Copy, Debug, PartialEq, Eq, Structural)]
pub struct TakeProfitSpec {
    pub limit_price: u64,
}

/// Stop-loss sub-specification of a multi-leg order class.
#[derive(Clone, Copy, Debug, PartialEq)]
pub struct StopLossSpec {
    pub stop_price: u64,
    pub limit_price: Option<u64>,
}

/// Simple order, or one of the multi-leg classes.
#[derive(Clone, Copy, Debug, PartialEq)]
pub enum OrderClass {
    Simple,
    Bracket { take_profit: TakeProfitSpec, stop_loss: StopLossSpec },
    OCO { take_profit: TakeProfitSpec, stop_loss: StopLossSpec },
    OTO { take_profit: Option<TakeProfitSpec>, stop_loss: Option<StopLossSpec> },
}

impl Default for OrderClass {
    fn default() -> (r: Self)
        ensures
            r == OrderClass::Simple,
    {
        OrderClass::Simple
    }
}

/// A well-formed order class: a one-triggers-other order carries exactly one
/// of the two sub-specifications.
pub open spec fn class_well_formed(c: OrderClass) -> bool {
    match c {
        OrderClass::OTO { take_profit, stop_loss } => {
            ||| (take_profit is Some && stop_loss is None)
            ||| (take_profit is None && stop_loss is Some)
        },
        _ => true,
    }
}

/// How many child legs a class constructs.
pub open spec fn legs_count(c: OrderClass) -> int {
    match c {
        OrderClass::Simple => 0,
        OrderClass::Bracket { .. } => 2,
        OrderClass::OCO { .. } => 2,
        OrderClass::OTO { .. } => 1,
    }
}

/// The order type of a take-profit leg.
pub open spec fn take_profit_type(tp: TakeProfitSpec) -> OrderType {
    OrderType::Limit { limit_price: tp.limit_price }
}

/// The order type of a stop-loss leg.
pub open spec fn stop_loss_type(sl: StopLossSpec) -> OrderType {
    match sl.limit_price {
        Some(l) => OrderType::StopLimit { limit_price: l, stop_price: sl.stop_price },
        None => OrderType::Stop { stop_price: sl.stop_price },
    }
}

/// A client request to open an order.
#[derive(Clone, Debug, PartialEq)]
pub struct OrderIntent {
    pub symbol: String,
    pub qty: u32,
    pub side: Side,
    pub order_type: OrderType,
    pub time_in_force: TimeInForce,
    pub extended_hours: bool,
    pub client_order_id: Option<String>,
    pub order_class: OrderClass,
}

impl OrderIntent {
    /// A fresh intent for a symbol, with all other fields at their defaults.
    pub fn new(symbol: &str) -> (r: OrderIntent)
        ensures
            r.symbol@ == symbol@,
            r.qty == 0,
            r.side == Side::Buy,
            r.order_type == OrderType::Market,
            r.time_in_force == TimeInForce::DAY,
            !r.extended_hours,
            r.client_order_id is None,
            r.order_class == OrderClass::Simple,
    {
        OrderIntent {
            symbol: symbol.to_owned(),
            qty: 0,
            side: Side::Buy,
            order_type: OrderType::Market,
            time_in_force: TimeInForce::DAY,
            extended_hours: false,
            client_order_id: None,
            order_class: OrderClass::Simple,
        }
    }

    /// Sets the quantity.
    pub fn qty(self, qty: u32) -> (r: OrderIntent)
        ensures
            r == (OrderIntent { qty, ..self }),
    {
        OrderIntent { qty, ..self }
    }

    /// Sets the side.
    pub fn side(self, side: Side) -> (r: OrderIntent)
        ensures
            r == (OrderIntent { side, ..self }),
    {
        OrderIntent { side, ..self }
    }

    /// Sets the order type.
    pub fn order_type(self, order_type: OrderType) -> (r: OrderIntent)
        ensures
            r == (OrderIntent { order_type, ..self }),
    {
        OrderIntent { order_type, ..self }
    }

    /// Sets the time in force.
    pub fn time_in_force(self, time_in_force: TimeInForce) -> (r: OrderIntent)
        ensures
            r == (OrderIntent { time_in_force, ..self }),
    {
        OrderIntent { time_in_force, ..self }
    }

    /// Sets the extended-hours flag.
    pub fn extended_hours(self, extended_hours: bool) -> (r: OrderIntent)
        ensures
            r == (OrderIntent { extended_hours, ..self }),
    {
        OrderIntent { extended_hours, ..self }
    }

    /// Sets the client order id.
    pub fn client_order_id(self, client_order_id: &str) -> (r: OrderIntent)
        ensures
            r.client_order_id matches Some(c) && c@ == client_order_id@,
            r == (OrderIntent { client_order_id: r.client_order_id, ..self }),
    {
        OrderIntent { client_order_id: Some(client_order_id.to_owned()), ..self }
    }

    /// Sets the order class.
    pub fn order_class(self, order_class: OrderClass) -> (r: OrderIntent)
        ensures
            r == (OrderIntent { order_class, ..self }),
    {
        OrderIntent { order_class, ..self }
    }
}

/// The authoritative, mutable order record.
#[derive(Clone, Debug, PartialEq)]
pub struct Order {
    pub id: u64,
    pub client_order_id: String,
    pub created_at: Option<u64>,
    pub updated_at: Option<u64>,
    pub submitted_at: Option<u64>,
    pub filled_at: Option<u64>,
    pub expired_at: Option<u64>,
    pub canceled_at: Option<u64>,
    pub failed_at: Option<u64>,
    pub replaced_at: Option<u64>,
    pub replaced_by: Option<u64>,
    pub replaces: Option<u64>,
    pub asset_id: u64,
    pub symbol: String,
    pub asset_class: AssetClass,
    pub qty: u32,
    pub filled_qty: u32,
    pub order_type: OrderType,
    pub side: Side,
    pub time_in_force: TimeInForce,
    pub filled_avg_price: Option<u64>,
    pub status: OrderStatus,
    pub extended_hours: bool,
    pub legs: Option<Vec<u64>>,
}

/// A well-formed order: fills are all-or-nothing, and an order reported
/// filled carries a fill price and the full quantity.
pub open spec fn order_wf(o: Order) -> bool {
    &&& o.filled_qty == 0 || o.filled_qty == o.qty
    &&& o.status == OrderStatus::Filled ==> o.filled_qty == o.qty && o.filled_avg_price is Some
}

/// The order after a full fill at `price` at time `t`.
pub open spec fn filled_order(o: Order, price: u64, t: u64) -> Order {
    Order {
        filled_qty: o.qty,
        updated_at: Some(t),
        filled_at: Some(t),
        filled_avg_price: Some(price),
        status: OrderStatus::Filled,
        ..o
    }
}

/// The order as the coordinator persists it: stamped as submitted and
/// updated at time `t`.
pub open spec fn stamped(o: Order, t: u64) -> Order {
    Order { submitted_at: Some(t), updated_at: Some(t), ..o }
}

/// The order after a successful cancel at time `t`.
pub open spec fn canceled_order(o: Order, t: u64) -> Order {
    Order {
        status: OrderStatus::Canceled,
        canceled_at: Some(t),
        updated_at: Some(t),
        ..o
    }
}

/// A child leg as constructed for a multi-leg class: held, unfilled, for the
/// full parent quantity on the opposite side.
pub open spec fn leg_spec(
    l: Order,
    oi: OrderIntent,
    a: Asset,
    ot: OrderType,
    id: u64,
    now: u64,
) -> bool {
    &&& l.id == id
    &&& l.client_order_id@ == dec_rep(id as int)
    &&& l.created_at == Some(now)
    &&& l.submitted_at == Some(now)
    &&& l.updated_at is None
    &&& l.filled_at is None
    &&& l.expired_at is None
    &&& l.canceled_at is None
    &&& l.failed_at is None
    &&& l.replaced_at is None
    &&& l.replaced_by is None
    &&& l.replaces is None
    &&& l.asset_id == a.id
    &&& l.symbol@ == oi.symbol@
    &&& l.asset_class == a.class
    &&& l.qty == oi.qty
    &&& l.filled_qty == 0
    &&& l.order_type == ot
    &&& l.side == neg_side(oi.side)
    &&& l.time_in_force == oi.time_in_force
    &&& l.filled_avg_price is None
    &&& l.status == OrderStatus::Held
    &&& !l.extended_hours
    &&& l.legs is None
}

/// The legs that a class constructs, starting at id `first_id`: a bracket or
/// one-cancels-other order gets a take-profit leg and a stop-loss leg, a
/// one-triggers-other order gets its single sub-specification as a leg.
pub open spec fn legs_spec(
    c: OrderClass,
    legs: Seq<Order>,
    oi: OrderIntent,
    a: Asset,
    first_id: u64,
    now: u64,
) -> bool {
    match c {
        OrderClass::Simple => legs.len() == 0,
        OrderClass::Bracket { take_profit, stop_loss } => {
            &&& legs.len() == 2
            &&& leg_spec(legs[0], oi, a, take_profit_type(take_profit), first_id, now)
            &&& leg_spec(legs[1], oi, a, stop_loss_type(stop_loss), (first_id + 1) as u64, now)
        },
        OrderClass::OCO { take_profit, stop_loss } => {
            &&& legs.len() == 2
            &&& leg_spec(legs[0], oi, a, take_profit_type(take_profit), first_id, now)
            &&& leg_spec(legs[1], oi, a, stop_loss_type(stop_loss), (first_id + 1) as u64, now)
        },
        OrderClass::OTO { take_profit, stop_loss } => {
            &&& legs.len() == 1
            &&& match (take_profit, stop_loss) {
                (Some(tp), None) => leg_spec(legs[0], oi, a, take_profit_type(tp), first_id, now),
                (None, Some(sl)) => leg_spec(legs[0], oi, a, stop_loss_type(sl), first_id, now),
                _ => false,
            }
        },
    }
}

/// Builds one child leg.
fn make_leg(oi: &OrderIntent, a: &Asset, ot: OrderType, id: u64, now: u64) -> (l: Order)
    ensures
        leg_spec(l, *oi, *a, ot, id, now),
{
    Order {
        id,
        client_order_id: to_string(id),
        created_at: Some(now),
        updated_at: None,
        submitted_at: Some(now),
        filled_at: None,
        expired_at: None,
        canceled_at: None,
        failed_at: None,
        replaced_at: None,
        replaced_by: None,
        replaces: None,
        asset_id: a.id,
        symbol: oi.symbol.clone(),
        asset_class: a.class,
        qty: oi.qty,
        filled_qty: 0,
        order_type: ot,
        side: oi.side.neg(),
        time_in_force: oi.time_in_force,
        filled_avg_price: None,
        status: OrderStatus::Held,
        extended_hours: false,
        legs: None,
    }
}

impl OrderClass {
    /// Decides whether this class is well formed.
    pub fn well_formed(&self) -> (r: bool)
        ensures
            r == class_well_formed(*self),
    {
        match self {
            OrderClass::OTO { take_profit, stop_loss } => {
                (take_profit.is_some() && stop_loss.is_none()) || (take_profit.is_none()
                    && stop_loss.is_some())
            },
            _ => true,
        }
    }

    /// Constructs the child legs of this class, in state `Held`, with ids
    /// `first_id`, `first_id + 1`, ...  A simple order has none.
    pub fn to_order(&self, oi: &OrderIntent, a: &Asset, first_id: u64, now: u64) -> (r: Option<
        Vec<Order>,
    >)
        requires
            class_well_formed(*self),
            first_id + legs_count(*self) <= u64::MAX,
        ensures
            match r {
                Some(legs) => legs_count(*self) > 0 && legs_spec(
                    *self,
                    legs@,
                    *oi,
                    *a,
                    first_id,
                    now,
                ),
                None => legs_count(*self) == 0,
            },
    {
        match *self {
            OrderClass::Simple => None,
            OrderClass::Bracket { take_profit, stop_loss } => {
                let tp_leg = make_leg(
                    oi,
                    a,
                    OrderType::Limit { limit_price: take_profit.limit_price },
                    first_id,
                    now,
                );
                let sl_leg = make_leg(oi, a, stop_loss_order_type(&stop_loss), first_id + 1, now);
                let mut v: Vec<Order> = Vec::new();
                v.push(tp_leg);
                v.push(sl_leg);
                Some(v)
            },
            OrderClass::OCO { take_profit, stop_loss } => {
                let tp_leg = make_leg(
                    oi,
                    a,
                    OrderType::Limit { limit_price: take_profit.limit_price },
                    first_id,
                    now,
                );
                let sl_leg = make_leg(oi, a, stop_loss_order_type(&stop_loss), first_id + 1, now);
                let mut v: Vec<Order> = Vec::new();
                v.push(tp_leg);
                v.push(sl_leg);
                Some(v)
            },
            OrderClass::OTO { take_profit, stop_loss } => {
                let ot = match (take_profit, stop_loss) {
                    (Some(tp), None) => OrderType::Limit { limit_price: tp.limit_price },
                    (None, Some(sl)) => stop_loss_order_type(&sl),
                    _ => {
                        proof {
                            assert(false);
                        }
                        OrderType::Market
                    },
                };
                let leg = make_leg(oi, a, ot, first_id, now);
                let mut v: Vec<Order> = Vec::new();
                v.push(leg);
                Some(v)
            },
        }
    }
}

/// The executable counterpart of `stop_loss_type`.
fn stop_loss_order_type(sl: &StopLossSpec) -> (r: OrderType)
    ensures
        r == stop_loss_type(*sl),
{
    match sl.limit_price {
        Some(l) => OrderType::StopLimit { limit_price: l, stop_price: sl.stop_price },
        None => OrderType::Stop { stop_price: sl.stop_price },
    }
}

impl Order {
    /// Builds the authoritative record for an intent, in state `New`, with
    /// server id `id`, together with the child legs of its class (ids
    /// `id + 1`, ...).  A missing client order id is generated from the
    /// server id.
    pub fn from_intent(oi: &OrderIntent, a: &Asset, id: u64, now: u64) -> (r: (Order, Vec<Order>))
        requires
            class_well_formed(oi.order_class),
            id + 1 + legs_count(oi.order_class) <= u64::MAX,
        ensures
            r.0.id == id,
            match oi.client_order_id {
                Some(c) => r.0.client_order_id@ == c@,
                None => r.0.client_order_id@ == dec_rep(id as int),
            },
            r.0.created_at == Some(now),
            r.0.updated_at is None,
            r.0.submitted_at is None,
            r.0.filled_at is None,
            r.0.expired_at is None,
            r.0.canceled_at is None,
            r.0.failed_at is None,
            r.0.replaced_at is None,
            r.0.replaced_by is None,
            r.0.replaces is None,
            r.0.asset_id == a.id,
            r.0.symbol@ == oi.symbol@,
            r.0.asset_class == a.class,
            r.0.qty == oi.qty,
            r.0.filled_qty == 0,
            r.0.order_type == oi.order_type,
            r.0.side == oi.side,
            r.0.time_in_force == oi.time_in_force,
            r.0.filled_avg_price is None,
            r.0.status == OrderStatus::New,
            r.0.extended_hours == oi.extended_hours,
            legs_spec(oi.order_class, r.1@, *oi, *a, (id + 1) as u64, now),
            match r.0.legs {
                Some(ids) => {
                    &&& legs_count(oi.order_class) > 0
                    &&& ids@.len() == r.1@.len()
                    &&& forall|k: int| 0 <= k < ids@.len() ==> ids@[k] == id + 1 + k
                },
                None => legs_count(oi.order_class) == 0 && r.1@.len() == 0,
            },
    {
        let client_order_id = match &oi.client_order_id {
            Some(s) => s.clone(),
            None => to_string(id),
        };
        let legs = oi.order_class.to_order(oi, a, id + 1, now);
        let (leg_ids, leg_orders): (Option<Vec<u64>>, Vec<Order>) = match legs {
            Some(v) => {
                let mut ids: Vec<u64> = Vec::new();
                let n = v.len();
                let mut k: usize = 0;
                while k < n
                    invariant
                        0 <= k <= n,
                        n == v@.len(),
                        ids@.len() == k,
                        forall|m: int| 0 <= m < k ==> ids@[m] == v@[m].id,
                    decreases n - k,
                {
                    ids.push(v[k].id);
                    k = k + 1;
                }
                (Some(ids), v)
            },
            None => (None, Vec::new()),
        };
        let order = Order {
            id,
            client_order_id,
            created_at: Some(now),
            updated_at: None,
            submitted_at: None,
            filled_at: None,
            expired_at: None,
            canceled_at: None,
            failed_at: None,
            replaced_at: None,
            replaced_by: None,
            replaces: None,
            asset_id: a.id,
            symbol: oi.symbol.clone(),
            asset_class: a.class,
            qty: oi.qty,
            filled_qty: 0,
            order_type: oi.order_type,
            side: oi.side,
            time_in_force: oi.time_in_force,
            filled_avg_price: None,
            status: OrderStatus::New,
            extended_hours: oi.extended_hours,
            legs: leg_ids,
        };
        (order, leg_orders)
    }

    /// Cancels this order.  Fails with `Uncancelable`, leaving the order
    /// unchanged, exactly when the status is `Filled`, `Expired` or
    /// `Canceled`; otherwise marks it `Canceled` at time `now`.
    pub fn cancel(&mut self, now: u64) -> (r: Result<(), Error>)
        ensures
            if uncancelable(old(self).status) {
                r == Result::<(), Error>::Err(Error::Uncancelable) && *final(self) == *old(self)
            } else {
                r == Result::<(), Error>::Ok(()) && *final(self) == canceled_order(*old(self), now)
            },
    {
        match self.status {
            OrderStatus::Filled | OrderStatus::Expired | OrderStatus::Canceled => Err(
                Error::Uncancelable,
            ),
            _ => {
                self.status = OrderStatus::Canceled;
                self.canceled_at = Some(now);
                self.updated_at = Some(now);
                Ok(())
            },
        }
    }
}

/// Cancellation is idempotent after the first success: a successful cancel
/// leaves the order in a state on which `cancel` fails with `Uncancelable`
/// and, by its contract, changes nothing further.
pub proof fn lemma_cancel_idempotent(o: Order, t: u64)
    requires
        !uncancelable(o.status),
    ensures
        uncancelable(canceled_order(o, t).status),
        canceled_order(o, t).status == OrderStatus::Canceled,
{
}

/// The index of the order with id `id`, or -1 when there is none.
pub open spec fn order_index(os: Seq<Order>, id: u64) -> int
    decreases os.len(),
{
    if os.len() == 0 {
        -1
    } else if os[0].id == id {
        0
    } else {
        let r = order_index(os.drop_first(), id);
        if r == -1 {
            -1
        } else {
            r + 1
        }
    }
}

/// `order_index` finds the first order with the id, and -1 means absence.
pub proof fn lemma_order_index(os: Seq<Order>, id: u64)
    ensures
        order_index(os, id) == -1 ==> forall|i: int|
            0 <= i < os.len() ==> (#[trigger] os[i]).id != id,
        order_index(os, id) != -1 ==> {
            &&& 0 <= order_index(os, id) < os.len()
            &&& os[order_index(os, id)].id == id
            &&& forall|i: int| 0 <= i < order_index(os, id) ==> (#[trigger] os[i]).id != id
        },
    decreases os.len(),
{
    if os.len() > 0 {
        let tail = os.drop_first();
        lemma_order_index(tail, id);
        assert(forall|i: int| 1 <= i < os.len() ==> (#[trigger] os[i]) == tail[i - 1]);
        if os[0].id != id {
            let r = order_index(tail, id);
            if r == -1 {
                assert(forall|i: int| 0 <= i < os.len() ==> (#[trigger] os[i]).id != id) by {
                    assert(forall|i: int|
                        1 <= i < os.len() ==> (#[trigger] os[i]).id == tail[i - 1].id);
                }
            } else {
                assert(os[r + 1] == tail[r]);
                assert(forall|i: int| 0 <= i < r + 1 ==> (#[trigger] os[i]).id != id) by {
                    assert(forall|i: int|
                        1 <= i < os.len() ==> (#[trigger] os[i]).id == tail[i - 1].id);
                }
            }
        }
    }
}

/// Two stores whose orders carry the same ids index every id at the same
/// place.
pub proof fn lemma_order_index_same_ids(a: Seq<Order>, b: Seq<Order>, id: u64)
    requires
        a.len() == b.len(),
        forall|i: int| 0 <= i < a.len() ==> (#[trigger] a[i]).id == b[i].id,
    ensures
        order_index(a, id) == order_index(b, id),
    decreases a.len(),
{
    if a.len() > 0 {
        assert(forall|i: int| 1 <= i < a.len() ==> (#[trigger] a[i]) == a.drop_first()[i - 1]);
        assert(forall|i: int| 1 <= i < b.len() ==> (#[trigger] b[i]) == b.drop_first()[i - 1]);
        assert(forall|i: int|
            0 <= i < a.drop_first().len() ==> (#[trigger] a.drop_first()[i]).id
                == b.drop_first()[i].id);
        lemma_order_index_same_ids(a.drop_first(), b.drop_first(), id);
    }
}

/// The authoritative map of orders, in insertion order, with unique ids.
pub struct OrderManager {
    pub orders: Vec<Order>,
}

impl OrderManager {
    /// Ids are pairwise distinct and every order is well formed.
    pub open spec fn wf(&self) -> bool {
        &&& forall|i: int, j: int|
            0 <= i < j < self.orders@.len() ==> self.orders@[i].id != self.orders@[j].id
        &&& forall|i: int| 0 <= i < self.orders@.len() ==> order_wf(#[trigger] self.orders@[i])
    }

    /// An empty store.
    pub fn new() -> (r: OrderManager)
        ensures
            r.wf(),
            r.orders@.len() == 0,
    {
        OrderManager { orders: Vec::new() }
    }

    /// Inserts a new order.  The caller supplies a fresh id.
    pub fn insert(&mut self, o: Order)
        requires
            forall|i: int| 0 <= i < old(self).orders@.len() ==> (#[trigger] old(self).orders@[i]).id != o.id,
            order_wf(o),
            old(self).wf(),
        ensures
            final(self).orders@ == old(self).orders@.push(o),
            final(self).wf(),
    {
        self.orders.push(o);
    }

    /// All orders, in insertion order.
    pub fn list(&self) -> (r: &Vec<Order>)
        ensures
            r == &self.orders,
    {
        &self.orders
    }

    /// Looks an order up by its server id.
    pub fn get(&self, id: u64) -> (r: Option<&Order>)
        requires
            self.wf(),
        ensures
            match r {
                Some(o) => {
                    &&& o.id == id
                    &&& order_index(self.orders@, id) >= 0
                    &&& *o == self.orders@[order_index(self.orders@, id)]
                },
                None => order_index(self.orders@, id) == -1,
            },
    {
        proof {
            lemma_order_index(self.orders@, id);
        }
        let n = self.orders.len();
        let mut i: usize = 0;
        while i < n
            invariant
                0 <= i <= n,
                n == self.orders@.len(),
                forall|j: int| 0 <= j < i ==> (#[trigger] self.orders@[j]).id != id,
            decreases n - i,
        {
            if self.orders[i].id == id {
                proof {
                    lemma_order_index_found(self.orders@, id, i as int);
                }
                return Some(&self.orders[i]);
            }
            i = i + 1;
        }
        None
    }

    /// Looks an order up by its client order id; the first match wins.
    pub fn get_by_client_id(&self, cid: &str) -> (r: Option<&Order>)
        ensures
            match r {
                Some(o) => {
                    &&& o.client_order_id@ == cid@
                    &&& exists|i: int|
                        0 <= i < self.orders@.len() && self.orders@[i] == *o
                },
                None => forall|i: int|
                    0 <= i < self.orders@.len() ==> (#[trigger] self.orders@[i]).client_order_id@
                        != cid@,
            },
    {
        let n = self.orders.len();
        let mut i: usize = 0;
        while i < n
            invariant
                0 <= i <= n,
                n == self.orders@.len(),
                forall|j: int|
                    0 <= j < i ==> (#[trigger] self.orders@[j]).client_order_id@ != cid@,
            decreases n - i,
        {
            if str_eq(self.orders[i].client_order_id.as_str(), cid) {
                return Some(&self.orders[i]);
            }
            i = i + 1;
        }
        None
    }

    /// Cancels the order with id `id`.  `NotFound` when absent; otherwise
    /// the outcome of `Order::cancel`.
    pub fn cancel(&mut self, id: u64, now: u64) -> (r: Result<(), Error>)
        requires
            old(self).wf(),
        ensures
            final(self).wf(),
            ({
                let i = order_index(old(self).orders@, id);
                if i == -1 {
                    r == Result::<(), Error>::Err(Error::NotFound) && final(self).orders@ == old(
                        self,
                    ).orders@
                } else if uncancelable(old(self).orders@[i].status) {
                    r == Result::<(), Error>::Err(Error::Uncancelable) && final(self).orders@
                        == old(self).orders@
                } else {
                    r == Result::<(), Error>::Ok(()) && final(self).orders@ == old(
                        self,
                    ).orders@.update(i, canceled_order(old(self).orders@[i], now))
                }
            }),
    {
        proof {
            lemma_order_index(self.orders@, id);
        }
        let n = self.orders.len();
        let mut i: usize = 0;
        while i < n
            invariant
                0 <= i <= n,
                n == self.orders@.len(),
                forall|j: int| 0 <= j < i ==> (#[trigger] self.orders@[j]).id != id,
                self.orders@ == old(self).orders@,
                old(self).wf(),
            decreases n - i,
        {
            if self.orders[i].id == id {
                proof {
                    lemma_order_index_found(self.orders@, id, i as int);
                }
                let ghost pre = self.orders@;
                let mut o = self.orders.remove(i);
                let r = o.cancel(now);
                self.orders.insert(i, o);
                proof {
                    if uncancelable(pre[i as int].status) {
                        assert(self.orders@ =~= pre);
                    } else {
                        assert(self.orders@ =~= pre.update(
                            i as int,
                            canceled_order(pre[i as int], now),
                        ));
                    }
                    assert(forall|k: int|
                        0 <= k < self.orders@.len() ==> (#[trigger] self.orders@[k]).id
                            == pre[k].id);
                    assert(forall|k: int|
                        0 <= k < self.orders@.len() ==> order_wf(#[trigger] self.orders@[k]));
                }
                return r;
            }
            i = i + 1;
        }
        Err(Error::NotFound)
    }

    /// Cancels every cancelable order, silently skipping the rest.
    pub fn cancel_all(&mut self, now: u64)
        requires
            old(self).wf(),
        ensures
            final(self).wf(),
            final(self).orders@.len() == old(self).orders@.len(),
            forall|i: int|
                0 <= i < old(self).orders@.len() ==> final(self).orders@[i] == if uncancelable(
                    (#[trigger] old(self).orders@[i]).status,
                ) {
                    old(self).orders@[i]
                } else {
                    canceled_order(old(self).orders@[i], now)
                },
    {
        let n = self.orders.len();
        let mut i: usize = 0;
        while i < n
            invariant
                0 <= i <= n,
                n == old(self).orders@.len(),
                self.orders@.len() == n,
                forall|j: int|
                    i <= j < n ==> #[trigger] self.orders@[j] == old(self).orders@[j],
                forall|j: int|
                    0 <= j < i ==> #[trigger] self.orders@[j] == if uncancelable(
                        old(self).orders@[j].status,
                    ) {
                        old(self).orders@[j]
                    } else {
                        canceled_order(old(self).orders@[j], now)
                    },
            decreases n - i,
        {
            let ghost pre = self.orders@;
            let mut o = self.orders.remove(i);
            let _ = o.cancel(now);
            self.orders.insert(i, o);
            proof {
                if uncancelable(pre[i as int].status) {
                    assert(self.orders@ =~= pre);
                } else {
                    assert(self.orders@ =~= pre.update(
                        i as int,
                        canceled_order(pre[i as int], now),
                    ));
                }
            }
            i = i + 1;
        }
        proof {
            assert(forall|j: int|
                0 <= j < n ==> (#[trigger] self.orders@[j]).id == old(self).orders@[j].id);
        }
    }

    /// Applies a full fill at `price` and time `t` to the order with id
    /// `id`.  The fill is dropped with `NotFound` when the order is absent,
    /// and with `Other` when the order is already terminal.
    pub fn apply_fill(&mut self, id: u64, price: u64, t: u64) -> (r: Result<(), Error>)
        requires
            old(self).wf(),
        ensures
            final(self).wf(),
            ({
                let i = order_index(old(self).orders@, id);
                if i == -1 {
                    r == Result::<(), Error>::Err(Error::NotFound) && final(self).orders@ == old(
                        self,
                    ).orders@
                } else if terminal(old(self).orders@[i].status) {
                    r == Result::<(), Error>::Err(Error::Other) && final(self).orders@ == old(
                        self,
                    ).orders@
                } else {
                    r == Result::<(), Error>::Ok(()) && final(self).orders@ == old(
                        self,
                    ).orders@.update(i, filled_order(old(self).orders@[i], price, t))
                }
            }),
    {
        proof {
            lemma_order_index(self.orders@, id);
        }
        let n = self.orders.len();
        let mut i: usize = 0;
        while i < n
            invariant
                0 <= i <= n,
                n == self.orders@.len(),
                forall|j: int| 0 <= j < i ==> (#[trigger] self.orders@[j]).id != id,
                self.orders@ == old(self).orders@,
                old(self).wf(),
            decreases n - i,
        {
            if self.orders[i].id == id {
                proof {
                    lemma_order_index_found(self.orders@, id, i as int);
                }
                let is_terminal = match self.orders[i].status {
                    OrderStatus::Filled
                    | OrderStatus::Canceled
                    | OrderStatus::Expired
                    | OrderStatus::Rejected
                    | OrderStatus::Replaced => true,
                    _ => false,
                };
                if is_terminal {
                    return Err(Error::Other);
                }
                let ghost pre = self.orders@;
                let mut o = self.orders.remove(i);
                o.filled_qty = o.qty;
                o.updated_at = Some(t);
                o.filled_at = Some(t);
                o.filled_avg_price = Some(price);
                o.status = OrderStatus::Filled;
                self.orders.insert(i, o);
                proof {
                    assert(self.orders@ =~= pre.update(
                        i as int,
                        filled_order(pre[i as int], price, t),
                    ));
                    assert(forall|k: int|
                        0 <= k < self.orders@.len() ==> (#[trigger] self.orders@[k]).id
                            == pre[k].id);
                    assert(forall|k: int|
                        0 <= k < self.orders@.len() ==> order_wf(#[trigger] self.orders@[k]));
                }
                return Ok(());
            }
            i = i + 1;
        }
        Err(Error::NotFound)
    }
}

/// `order_index` returns `at` when `at` is the first index carrying `id`.
pub proof fn lemma_order_index_found(os: Seq<Order>, id: u64, at: int)
    requires
        0 <= at < os.len(),
        os[at].id == id,
        forall|j: int| 0 <= j < at ==> (#[trigger] os[j]).id != id,
    ensures
        order_index(os, id) == at,
    decreases os.len(),
{
    if at > 0 {
        assert(forall|i: int|
            1 <= i < os.len() ==> os[i] == (#[trigger] os.drop_first()[i - 1]));
        lemma_order_index_found(os.drop_first(), id, at - 1);
    }
}

/// `a` agrees with `b` on every field; the leg id lists agree element for
/// element.
pub open spec fn order_like(a: Order, b: Order) -> bool {
    &&& a.id == b.id
    &&& a.client_order_id == b.client_order_id
    &&& a.created_at == b.created_at
    &&& a.updated_at == b.updated_at
    &&& a.submitted_at == b.submitted_at
    &&& a.filled_at == b.filled_at
    &&& a.expired_at == b.expired_at
    &&& a.canceled_at == b.canceled_at
    &&& a.failed_at == b.failed_at
    &&& a.replaced_at == b.replaced_at
    &&& a.replaced_by == b.replaced_by
    &&& a.replaces == b.replaces
    &&& a.asset_id == b.asset_id
    &&& a.symbol == b.symbol
    &&& a.asset_class == b.asset_class
    &&& a.qty == b.qty
    &&& a.filled_qty == b.filled_qty
    &&& a.order_type == b.order_type
    &&& a.side == b.side
    &&& a.time_in_force == b.time_in_force
    &&& a.filled_avg_price == b.filled_avg_price
    &&& a.status == b.status
    &&& a.extended_hours == b.extended_hours
    &&& match (a.legs, b.legs) {
        (Some(x), Some(y)) => x@ == y@,
        (None, None) => true,
        _ => false,
    }
}

impl Order {
    /// An owned copy that agrees with `self` on every field.
    pub fn clone_order(&self) -> (r: Order)
        ensures
            order_like(r, *self),
            r.legs is None ==> r == *self,
    {
        let legs: Option<Vec<u64>> = match &self.legs {
            Some(v) => {
                let mut ids: Vec<u64> = Vec::new();
                let n = v.len();
                let mut k: usize = 0;
                while k < n
                    invariant
                        0 <= k <= n,
                        n == v@.len(),
                        ids@.len() == k,
                        forall|m: int| 0 <= m < k ==> ids@[m] == v@[m],
                    decreases n - k,
                {
                    ids.push(v[k]);
                    k = k + 1;
                }
                proof {
                    assert(ids@ =~= v@);
                }
                Some(ids)
            },
            None => None,
        };
        Order {
            id: self.id,
            client_order_id: self.client_order_id.clone(),
            created_at: self.created_at,
            updated_at: self.updated_at,
            submitted_at: self.submitted_at,
            filled_at: self.filled_at,
            expired_at: self.expired_at,
            canceled_at: self.canceled_at,
            failed_at: self.failed_at,
            replaced_at: self.replaced_at,
            replaced_by: self.replaced_by,
            replaces: self.replaces,
            asset_id: self.asset_id,
            symbol: self.symbol.clone(),
            asset_class: self.asset_class,
            qty: self.qty,
            filled_qty: self.filled_qty,
            order_type: self.order_type,
            side: self.side,
            time_in_force: self.time_in_force,
            filled_avg_price: self.filled_avg_price,
            status: self.status,
            extended_hours: self.extended_hours,
            legs,
        }
    }
}

} // verus!

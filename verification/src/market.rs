//! The inbound market-data record: one trade of the replayed price
//! stream.  The downloader and the pacing of the replay are external
//! collaborators; the core consumes the ticks as plain values.

use vstd::prelude::*;

verus! {

/// The consolidated-tape code of a trade.
#[derive(Clone, Copy, Debug, PartialEq, Eq, Structural)]
pub enum Tape {
    A,
    B,
    C,
}

/// One trade of the inbound stream: the price tick the exchange and the
/// position store consume.
#[derive(Clone, Debug, PartialEq)]
pub struct Trade {
    pub symbol: String,
    pub trade_id: String,
    pub exchange_id: u8,
    pub price: u64,
    pub size: u32,
    pub conditions: Vec<u8>,
    pub timestamp: u64,
    pub tape: Tape,
}

impl Trade {
    /// A bare tick: a symbol, a price, a size and a nanosecond timestamp,
    /// with empty identifiers and conditions.
    pub fn new(symbol: &str, price: u64, size: u32, timestamp: u64) -> (t: Trade)
        ensures
            t.symbol@ == symbol@,
            t.trade_id@ == Seq::<char>::empty(),
            t.exchange_id == 0,
            t.price == price,
            t.size == size,
            t.conditions@ == Seq::<u8>::empty(),
            t.timestamp == timestamp,
            t.tape == Tape::A,
    {
        Trade {
            symbol: symbol.to_owned(),
            trade_id: String::new(),
            exchange_id: 0,
            price,
            size,
            conditions: Vec::new(),
            timestamp,
            tape: Tape::A,
        }
    }
}

/// The replay delay of a trade: how many nanoseconds after the replay
/// epoch a trade is due, at a synthetic-to-wall-clock ratio of `rate`.
pub fn replay_delay(timestamp: u64, simulated_epoch: u64, rate: u64) -> (d: u64)
    requires
        rate > 0,
        timestamp >= simulated_epoch,
    ensures
        d == (timestamp - simulated_epoch) / (rate as int),
{
    (timestamp - simulated_epoch) / rate
}

} // verus!

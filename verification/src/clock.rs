//! The market clock snapshot handed to clients.  The calendar itself is an
//! external collaborator; this core reports the time it is given.

use vstd::prelude::*;

verus! {

/// A clock snapshot: the current time, whether the market is open, and the
/// next session boundaries.
#[derive(Clone, Copy, Debug, PartialEq, Eq, Structural)]
pub struct Clock {
    pub timestamp: u64,
    pub is_open: bool,
    pub next_open: u64,
    pub next_close: u64,
}

/// The clock snapshot at time `now`: the market reports itself open, with
/// both session boundaries at the present time.
pub fn get_clock(now: u64) -> (c: Clock)
    ensures
        c.timestamp == now,
        c.is_open,
        c.next_open == now,
        c.next_close == now,
{
    Clock { timestamp: now, is_open: true, next_open: now, next_close: now }
}

} // verus!

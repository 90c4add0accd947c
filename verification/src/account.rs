//! The margin account ledger: cash, market values, margin and buying power,
//! with tier-dependent coefficients derived from the initial cash at
//! construction.

use vstd::prelude::*;
use crate::position::MAX_MONEY;

verus! {

/// Cash at or above this opens the margin tier: multiplier two and shorting.
pub const MARGIN_TIER_CASH: i128 = 2000;

/// Cash at or above this opens the day-trading tier: multiplier four.
pub const DAYTRADE_TIER_CASH: i128 = 25000;

/// The onboarding state of an account.
#[derive(Clone, Copy, Debug, PartialEq, Eq, Structural)]
pub enum AccountStatus {
    Onboarding,
    SubmissionFailed,
    Submitted,
    AccountUpdate,
    ApprovalPending,
    Active,
    Rejected,
}

/// A ledger snapshot.  All monetary fields are in whole currency units.
#[derive(Clone, Debug, PartialEq)]
pub struct Account {
    pub id: u64,
    pub status: AccountStatus,
    pub currency: String,
    pub cash: i128,
    pub portfolio_value: i128,
    pub pattern_day_trader: bool,
    pub trade_suspended_by_user: bool,
    pub trading_blocked: bool,
    pub transfers_blocked: bool,
    pub account_blocked: bool,
    pub shorting_enabled: bool,
    pub long_market_value: i128,
    pub short_market_value: i128,
    pub equity: i128,
    pub last_equity: i128,
    pub multiplier: u32,
    pub buying_power: i128,
    pub initial_margin: i128,
    pub maintenance_margin: i128,
    pub sma: i128,
    pub daytrade_count: u32,
    pub last_maintenance_margin: i128,
    pub daytrading_buying_power: i128,
    pub regt_buying_power: i128,
}

/// The multiplier of the tier that `cash` opens.
pub open spec fn tier_multiplier(cash: int) -> int {
    if cash < MARGIN_TIER_CASH {
        1
    } else if cash < DAYTRADE_TIER_CASH {
        2
    } else {
        4
    }
}

/// A well-formed ledger: the tier coefficients are consistent, the margin
/// figures are non-negative, and every accumulator stays within the cap.
pub open spec fn account_wf(a: Account) -> bool {
    &&& a.multiplier == 1 || a.multiplier == 2 || a.multiplier == 4
    &&& 0 <= a.equity <= MAX_MONEY
    &&& 0 <= a.buying_power <= 4 * MAX_MONEY
    &&& 0 <= a.initial_margin <= MAX_MONEY
    &&& -MAX_MONEY <= a.cash <= MAX_MONEY
    &&& -MAX_MONEY <= a.long_market_value <= MAX_MONEY
    &&& -MAX_MONEY <= a.short_market_value <= MAX_MONEY
}

/// The ledger after one fill of signed quantity `q` at price `p`.  The cost
/// `b = p * q` leaves the cash; it enters the long or the short market
/// value depending on the side of the fill; half its magnitude is added to
/// the initial margin (in integer division); the day-trade counter ticks;
/// and the day-trading and regulation-T buying powers are refreshed.
pub open spec fn account_after_fill(a: Account, q: int, p: int) -> Account {
    let b = p * q;
    let mag = if b >= 0 {
        b
    } else {
        -b
    };
    let im = a.initial_margin + mag / 2;
    let headroom = if a.equity - im > 0 {
        a.equity - im
    } else {
        0
    };
    Account {
        cash: (a.cash - b) as i128,
        long_market_value: if q > 0 {
            (a.long_market_value + b) as i128
        } else {
            a.long_market_value
        },
        short_market_value: if q > 0 {
            a.short_market_value
        } else {
            (a.short_market_value + b) as i128
        },
        initial_margin: im as i128,
        daytrade_count: (a.daytrade_count + 1) as u32,
        daytrading_buying_power: (headroom * a.multiplier) as i128,
        regt_buying_power: (a.buying_power / 2) as i128,
        ..a
    }
}

/// The arithmetic of a fill stays within the caps.
pub open spec fn account_fill_fits(a: Account, q: int, p: int) -> bool {
    let b = p * q;
    let mag = if b >= 0 {
        b
    } else {
        -b
    };
    &&& -MAX_MONEY <= a.cash - b <= MAX_MONEY
    &&& -MAX_MONEY <= a.long_market_value + b <= MAX_MONEY
    &&& -MAX_MONEY <= a.short_market_value + b <= MAX_MONEY
    &&& 0 <= a.initial_margin + mag / 2 <= MAX_MONEY
    &&& a.daytrade_count < 4294967295
}

impl Account {
    /// A fresh ledger holding `cash`.  The multiplier, shorting flag and
    /// buying powers follow the cash tier: below the margin tier cash
    /// trades one-to-one; from the margin tier on, twice the cash with
    /// shorting; from the day-trading tier on, four times the cash.
    pub fn new(cash: i128) -> (a: Account)
        requires
            0 <= cash <= MAX_MONEY,
        ensures
            a.id == 0,
            a.status == AccountStatus::Active,
            a.currency@ == "USD"@,
            a.cash == cash,
            a.portfolio_value == cash,
            !a.pattern_day_trader,
            !a.trade_suspended_by_user,
            !a.trading_blocked,
            !a.transfers_blocked,
            !a.account_blocked,
            a.shorting_enabled == (cash >= MARGIN_TIER_CASH),
            a.long_market_value == 0,
            a.short_market_value == 0,
            a.equity == cash,
            a.last_equity == cash,
            a.multiplier == tier_multiplier(cash as int),
            a.buying_power == tier_multiplier(cash as int) * cash,
            a.initial_margin == 0,
            a.maintenance_margin == 0,
            a.sma == 0,
            a.daytrade_count == 0,
            a.last_maintenance_margin == 0,
            a.daytrading_buying_power == if cash >= DAYTRADE_TIER_CASH {
                4 * cash
            } else {
                0
            },
            a.regt_buying_power == if cash >= MARGIN_TIER_CASH {
                2 * cash
            } else {
                cash as int
            },
            account_wf(a),
    {
        let (multiplier, daytrading_buying_power, regt_buying_power): (u32, i128, i128) = if cash
            < MARGIN_TIER_CASH {
            (1, 0, cash)
        } else if cash < DAYTRADE_TIER_CASH {
            (2, 0, 2 * cash)
        } else {
            (4, 4 * cash, 2 * cash)
        };
        proof {
            let ghost m = multiplier as int;
            assert(0 <= m * cash <= 4 * MAX_MONEY) by (nonlinear_arith)
                requires
                    0 <= cash <= MAX_MONEY,
                    m == 1 || m == 2 || m == 4,
            ;
        }
        Account {
            id: 0,
            status: AccountStatus::Active,
            currency: "USD".to_owned(),
            cash,
            portfolio_value: cash,
            pattern_day_trader: false,
            trade_suspended_by_user: false,
            trading_blocked: false,
            transfers_blocked: false,
            account_blocked: false,
            shorting_enabled: cash >= MARGIN_TIER_CASH,
            long_market_value: 0,
            short_market_value: 0,
            equity: cash,
            last_equity: cash,
            multiplier,
            buying_power: (multiplier as i128) * cash,
            initial_margin: 0,
            maintenance_margin: 0,
            sma: 0,
            daytrade_count: 0,
            last_maintenance_margin: 0,
            daytrading_buying_power,
            regt_buying_power,
        }
    }

    /// Applies one fill to the ledger.
    pub fn apply_fill(&mut self, q: i64, p: u64)
        requires
            account_wf(*old(self)),
            -4294967295 <= q <= 4294967295,
            account_fill_fits(*old(self), q as int, p as int),
        ensures
            *final(self) == account_after_fill(*old(self), q as int, p as int),
            account_wf(*final(self)),
    {
        proof {
            assert(-79228162495817593519834398720 <= (p as int) * (q as int)
                <= 79228162495817593519834398720) by (nonlinear_arith)
                requires
                    -4294967295 <= q as int <= 4294967295,
                    0 <= p as int <= 18446744073709551615,
            ;
        }
        let b: i128 = (p as i128) * (q as i128);
        let mag: i128 = if b >= 0 {
            b
        } else {
            -b
        };
        self.cash = self.cash - b;
        if q > 0 {
            self.long_market_value = self.long_market_value + b;
        } else {
            self.short_market_value = self.short_market_value + b;
        }
        self.initial_margin = self.initial_margin + mag / 2;
        self.daytrade_count = self.daytrade_count + 1;
        let headroom: i128 = if self.equity - self.initial_margin > 0 {
            self.equity - self.initial_margin
        } else {
            0
        };
        proof {
            let ghost m = old(self).multiplier as int;
            assert(headroom * m <= 8 * MAX_MONEY) by (nonlinear_arith)
                requires
                    0 <= headroom <= 2 * MAX_MONEY,
                    m == 1 || m == 2 || m == 4,
            ;
            assert(0 <= headroom * m) by (nonlinear_arith)
                requires
                    0 <= headroom,
                    0 <= m,
            ;
        }
        self.daytrading_buying_power = headroom * (self.multiplier as i128);
        self.regt_buying_power = self.buying_power / 2;
    }
}

} // verus!

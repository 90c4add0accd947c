//! Client-visible account configuration switches.

use vstd::prelude::*;

verus! {

/// When day-trading buying power is checked.
#[derive(Clone, Copy, Debug, PartialEq, Eq, Structural)]
pub enum DtpbCheck {
    Both,
    Entry,
    Exit,
}

/// Which trades are confirmed by email.
#[derive(Clone, Copy, Debug, PartialEq, Eq, Structural)]
pub enum TradeConfirmEmail {
    All,
    NoMail,
}

/// The configuration of an account.
#[derive(Clone, Copy, Debug, PartialEq, Eq, Structural)]
pub struct AccountConfig {
    pub dtpb_check: DtpbCheck,
    pub no_shorting: bool,
    pub suspend_trade: bool,
    pub trade_confirm_email: TradeConfirmEmail,
}

impl Default for AccountConfig {
    /// The default configuration: both-sided checks, shorting allowed,
    /// trading enabled, no confirmation mail.
    fn default() -> (r: AccountConfig)
        ensures
            r == (AccountConfig {
                dtpb_check: DtpbCheck::Both,
                no_shorting: false,
                suspend_trade: false,
                trade_confirm_email: TradeConfirmEmail::NoMail,
            }),
    {
        AccountConfig {
            dtpb_check: DtpbCheck::Both,
            no_shorting: false,
            suspend_trade: false,
            trade_confirm_email: TradeConfirmEmail::NoMail,
        }
    }
}

} // verus!

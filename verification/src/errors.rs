//! The error surface of the brokerage core.

use vstd::prelude::*;

verus! {

/// Errors returned by the trading core.
#[derive(Clone, Copy, Debug, PartialEq, Eq, Structural)]
pub enum Error {
    /// The requested entity (asset, order, position) is absent.
    NotFound,
    /// A cancel was attempted on an order in a terminal state.
    Uncancelable,
    /// An order was transmitted before any price exists for its symbol.
    UninitializedPrice,
    /// The intent is malformed (for example, zero quantity).
    BadRequest,
    /// Internal invariant violation or collaborator fault.
    Other,
}

impl Error {
    /// A short human-readable description of the error.
    pub fn message(&self) -> (r: &'static str)
        ensures
            r@ == self.spec_message(),
    {
        match self {
            Error::NotFound => "resource not found",
            Error::Uncancelable => "target order is no longer cancelable",
            Error::UninitializedPrice => "tried to get uninitialized price",
            Error::BadRequest => "malformed order intent",
            Error::Other => "internal error",
        }
    }

    /// What `message` returns, as a sequence of characters.
    pub open spec fn spec_message(&self) -> Seq<char> {
        match self {
            Error::NotFound => "resource not found"@,
            Error::Uncancelable => "target order is no longer cancelable"@,
            Error::UninitializedPrice => "tried to get uninitialized price"@,
            Error::BadRequest => "malformed order intent"@,
            Error::Other => "internal error"@,
        }
    }
}

} // verus!

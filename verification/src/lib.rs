//! A deterministic simulated equities brokerage: an exchange that matches or
//! parks orders against a replayed price stream, an order store with a
//! lifecycle state machine, a per-symbol position aggregator, and a margin
//! account ledger, driven by a sequential coordinator.

pub mod account;
pub mod account_configurations;
pub mod asset;
pub mod clock;
pub mod errors;
pub mod exchange;
pub mod market;
pub mod order;
pub mod position;
pub mod simulator;
pub mod utils;

pub use errors::Error;

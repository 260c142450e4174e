//! A payments engine: per-account balance bookkeeping with a dispute
//! lifecycle, and the dispatch of an ordered event log onto accounts.
//!
//! `amount` holds money, `transaction` the events, `client` the accounts with
//! their registry and their queues, `reader` the input driver, `processor`
//! the workers, and `error` the reasons for which an event is ignored.

pub mod amount;
pub mod client;
pub mod error;
pub mod processor;
pub mod reader;
pub mod transaction;

//! Accounts: the state machine of one account, the registry of all of them,
//! and the per-account queues that feed them.

pub mod account;
pub mod db;
pub mod manager;
pub mod model;
pub mod queue;

pub use account::{Client, SerializableClient};
pub use model::ClientID;

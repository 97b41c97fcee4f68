//! The store itself: snapshot, history, writes, sync and funding.

pub mod txid;
pub mod snapshot;
pub mod history;
pub mod stored;
pub mod pending;
pub mod memo;
pub mod pool;
pub mod scan;
pub mod state;
pub mod listing;
pub mod funding;
pub mod payment;
pub mod send;
pub mod write;
pub mod account;
pub mod lock;
pub mod recover;
pub mod sync;

//! Deduplicate and batch concurrent requests.
//!
//! Concurrent requests within a collection window are merged into a single downstream batch,
//! and duplicate inputs share one result. No cache.
//!
//! Every type here is plain state that one caller at a time advances, with the contract of
//! each step proved. Locks, timers, wakeups and awaiting belong to whoever drives the state.

pub mod collector;
pub mod config;
pub mod deduplicator;
pub mod dispatch;
pub mod error;
pub mod fetcher;
pub mod flight;
pub mod gate;
pub mod ledger;
pub mod limiter;
pub mod liveness;
pub mod loader;
pub mod lock;
pub mod pipe;
pub mod queue;
pub mod receipt;
pub mod signal;
pub mod source;
pub mod transit;
pub mod window;

pub use collector::BatchCollector;
pub use config::BatchConfig;
pub use deduplicator::Deduplicator;
pub use error::{DedupError, Error};
pub use fetcher::Fetcher;
pub use loader::BatchLoader;
pub use lock::locked;

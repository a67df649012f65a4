//! A stateful fuzzy-search service core over an in-memory dictionary of
//! records: an incremental fuzzy matcher with ASCII folding, a bounded pool
//! of match workers, session leases over pooled workers, and the expiry
//! timers that reclaim them.  Transport, sessions and clocks live with the
//! embedding program; every decision the service makes is taken — and
//! specified — here.

pub mod binder;
pub mod config;
pub mod ecosystem;
pub mod engine;
pub mod fold;
pub mod handlers;
pub mod pool;
pub mod records;
pub mod timer;

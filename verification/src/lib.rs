//! Per-channel message retention enforcement.
//!
//! An operator configures, per text channel, an inactivity threshold after
//! which older messages are purged. The crate provides the retention
//! scheduler's core: the durable policy store, a read-optimized policy
//! cache, the per-channel sweep state machine, and the purge planning
//! logic, each with a verified contract. All timestamps and durations are
//! whole seconds.

pub mod cache;
pub mod executor;
pub mod policy;
pub mod scheduler;
pub mod store;

//! A bounded, priority-aware key-value cache engine with TTL expiry.
//!
//! The engine keeps a key-to-entry store, a recency index for eviction
//! tie-breaking, a priority-weighted eviction policy, and cumulative
//! statistics. Time never flows inside the engine: every operation that
//! depends on the clock takes the current time in milliseconds as an
//! argument, so the whole engine is verified as a deterministic state
//! machine. A host wraps the engine in whatever locking and clock source
//! it needs.

pub mod config;
pub mod engine;
pub mod entry;
pub mod events;
pub mod laws;
pub mod lru;
pub mod stats;
pub mod trace;

pub use config::{CacheConfig, EvictionPolicy};
pub use engine::{QueryEntry, SmartCache};
pub use entry::CacheEntry;
pub use events::{CacheCallback, CacheEvent};
pub use lru::LruList;
pub use stats::{AtomicStats, CacheStats};
pub use trace::{CacheOperation, CircularBuffer, EvictionReason};

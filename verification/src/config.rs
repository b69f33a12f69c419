//! Cache configuration.

use vstd::prelude::*;

verus! {

/// How the engine picks an eviction victim.
#[derive(Clone, Copy, Debug, PartialEq, Eq, Structural)]
pub enum EvictionPolicy {
    /// Evict the scanned entry with the highest score `idle / priority`:
    /// the longest-idle, lowest-priority entry goes first, and a
    /// high-priority entry needs proportionally more idle time to be
    /// chosen. The primary policy.
    ScoreBased,
    /// Evict the scanned entry with the literally lowest priority,
    /// ignoring idle time. Simpler and acceptable for low-contention
    /// deployments, but strictly less fair than the score.
    LowestPriority,
}

/// Configuration of the cache engine.
///
/// Durations are plain millisecond counts so that expiry arithmetic can be
/// stated and proved exactly. `shard_amount` and `cleanup_interval_ms` do not
/// influence the engine itself: they tell the embedding host how many engine
/// shards to run in parallel and how often to call
/// [`crate::engine::SmartCache::cleanup_expired`].
#[derive(Clone, Copy, Debug, PartialEq, Eq, Structural)]
pub struct CacheConfig {
    /// Hard upper bound on the number of live entries; enforced by eviction
    /// on insertion of a new key.
    pub max_capacity: usize,
    /// Time to live used by `put` when the caller supplies none.
    pub default_ttl_ms: u64,
    /// Suggested cadence for the background expiry sweep.
    pub cleanup_interval_ms: u64,
    /// Suggested concurrency fan-out for a sharded deployment.
    pub shard_amount: usize,
    /// Upper bound on how many candidates an eviction scan inspects,
    /// counted from the least recently used end of the recency order.
    pub eviction_sample_size: usize,
    /// How a victim is chosen among the scanned candidates.
    pub eviction_policy: EvictionPolicy,
}

/// The configuration [`Default`] builds: a thousand entries, an hour of
/// life, a sweep every minute.
pub open spec fn spec_default_config() -> CacheConfig {
    CacheConfig {
        max_capacity: 1000,
        default_ttl_ms: 3_600_000,
        cleanup_interval_ms: 60_000,
        shard_amount: 64,
        eviction_sample_size: 100,
        eviction_policy: EvictionPolicy::ScoreBased,
    }
}

impl Default for CacheConfig {
    /// One thousand entries, one hour of life, a sweep every minute.
    fn default() -> (c: CacheConfig)
        ensures
            c == spec_default_config(),
    {
        CacheConfig {
            max_capacity: 1000,
            default_ttl_ms: 3_600_000,
            cleanup_interval_ms: 60_000,
            shard_amount: 64,
            eviction_sample_size: 100,
            eviction_policy: EvictionPolicy::ScoreBased,
        }
    }
}

} // verus!

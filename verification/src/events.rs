//! Event notifications for observers of the cache.

use vstd::prelude::*;

verus! {

/// What just happened to a key. The engine's embedding host raises one of
/// these after each operation; consumers such as trace buffers or metric
/// exporters live outside the engine and subscribe through
/// [`CacheCallback`].
#[derive(Clone, Copy, Debug, PartialEq, Eq, Structural)]
pub enum CacheEvent {
    /// A `get` found a live value under the key.
    Hit(u64),
    /// A `get` found nothing live under the key.
    Miss(u64),
    /// A `put` wrote the key.
    Insert(u64),
    /// The key was removed to keep the store within capacity.
    Eviction(u64),
    /// The key was removed because its time to live had passed.
    TTLExpiry(u64),
}

/// An observer of cache events. Implementations run outside the verified
/// engine; the engine itself never calls them, it only reports what
/// happened through its results and statistics.
pub trait CacheCallback {
    /// Called once per event, synchronously, in operation order.
    fn on_event(&self, event: CacheEvent);
}

} // verus!

//! Cumulative cache statistics.

use vstd::prelude::*;
use std::sync::atomic::{AtomicU64, Ordering};

verus! {

/// Lock-free counters for hosts that run the engine behind locks but
/// want statistics off the locked path. Increments are atomic and never
/// block; because other threads interleave freely, nothing can be said
/// of the values a snapshot reads beyond what atomicity gives — a
/// snapshot is an approximation of "operations so far", not a
/// transactional cut. The engine itself keeps its exact, sequentially
/// specified counters in [`CacheStats`].
pub struct AtomicStats {
    pub hits: AtomicU64,
    pub misses: AtomicU64,
    pub evictions: AtomicU64,
    pub insertions: AtomicU64,
    pub ttl_expirations: AtomicU64,
}

impl AtomicStats {
    /// Counters starting at zero.
    pub fn new() -> AtomicStats {
        AtomicStats {
            hits: AtomicU64::new(0),
            misses: AtomicU64::new(0),
            evictions: AtomicU64::new(0),
            insertions: AtomicU64::new(0),
            ttl_expirations: AtomicU64::new(0),
        }
    }

    /// Count one hit.
    pub fn record_hit(&self) {
        self.hits.fetch_add(1, Ordering::Relaxed);
    }

    /// Count one miss.
    pub fn record_miss(&self) {
        self.misses.fetch_add(1, Ordering::Relaxed);
    }

    /// Count one eviction.
    pub fn record_eviction(&self) {
        self.evictions.fetch_add(1, Ordering::Relaxed);
    }

    /// Count one insertion.
    pub fn record_insertion(&self) {
        self.insertions.fetch_add(1, Ordering::Relaxed);
    }

    /// Count `n` TTL expirations, as a sweep reports them in one go.
    pub fn record_ttl_expirations(&self, n: u64) {
        self.ttl_expirations.fetch_add(n, Ordering::Relaxed);
    }

    /// The counters as this thread sees them now.
    pub fn snapshot(&self) -> CacheStats {
        CacheStats {
            hits: self.hits.load(Ordering::Relaxed),
            misses: self.misses.load(Ordering::Relaxed),
            evictions: self.evictions.load(Ordering::Relaxed),
            insertions: self.insertions.load(Ordering::Relaxed),
            ttl_expirations: self.ttl_expirations.load(Ordering::Relaxed),
        }
    }
}

/// Lifetime counters of the cache. Every counter is non-decreasing over the
/// life of an engine: operations only ever add to them (saturating at
/// `u64::MAX`), and `clear` leaves them untouched.
#[derive(Clone, Copy, Debug, PartialEq, Eq, Structural)]
pub struct CacheStats {
    /// `get` calls that returned a live value.
    pub hits: u64,
    /// `get` calls that returned nothing, lazily expired entries included.
    pub misses: u64,
    /// Entries removed to make room for a new key.
    pub evictions: u64,
    /// `put` calls, overwrites included.
    pub insertions: u64,
    /// Entries removed because their time to live had passed, whether by
    /// a lazy check on `get` or by a sweep.
    pub ttl_expirations: u64,
}

impl CacheStats {
    /// The state in which every counter is zero.
    pub open spec fn zeroed() -> CacheStats {
        CacheStats { hits: 0, misses: 0, evictions: 0, insertions: 0, ttl_expirations: 0 }
    }

    /// `a` is componentwise at most `b`: no counter has gone backwards
    /// between a snapshot `a` and a later snapshot `b`.
    pub open spec fn le(a: CacheStats, b: CacheStats) -> bool {
        &&& a.hits <= b.hits
        &&& a.misses <= b.misses
        &&& a.evictions <= b.evictions
        &&& a.insertions <= b.insertions
        &&& a.ttl_expirations <= b.ttl_expirations
    }

    /// Share of accesses that hit, in whole percent: `100 * hits / (hits +
    /// misses)` rounded down, and zero when nothing was ever looked up.
    /// An integer stand-in for the ratio `hits / (hits + misses)`; it always
    /// lies between 0 and 100.
    pub fn hit_rate_percent(&self) -> (r: u64)
        ensures
            self.hits + self.misses == 0 ==> r == 0,
            self.hits + self.misses > 0 ==> r == self.hits as int * 100
                / (self.hits + self.misses),
            r <= 100,
    {
        let h = self.hits as u128;
        let m = self.misses as u128;
        if h + m == 0 {
            0
        } else {
            proof {
                assert(h * 100 / (h + m) <= 100) by (nonlinear_arith)
                    requires h + m > 0
                ;
            }
            (h * 100 / (h + m)) as u64
        }
    }
}

impl Default for CacheStats {
    fn default() -> (s: CacheStats)
        ensures
            s == CacheStats::zeroed(),
    {
        CacheStats { hits: 0, misses: 0, evictions: 0, insertions: 0, ttl_expirations: 0 }
    }
}

} // verus!

//! A stored cache entry and the spec-level facts about it.

use vstd::prelude::*;
use crate::config::CacheConfig;

verus! {

/// One record of the store: a value plus the metadata that expiry and
/// eviction read. All instants are milliseconds on the caller's clock.
/// `expires_at` is fixed when the entry is written and never moves
/// afterwards; `last_accessed` and `access_count` are bookkeeping that only
/// the eviction score reads.
pub struct CacheEntry<V> {
    /// The cached value, handed out by copy on every hit.
    pub value: V,
    /// Eviction weight, always clamped to `1 ..= 10`.
    pub priority: u8,
    /// The instant after which the entry no longer answers a `get`.
    pub expires_at: u64,
    /// The instant the entry was written.
    pub created_at: u64,
    /// The instant of the entry's last hit, or of its write.
    pub last_accessed: u64,
    /// Hits served by this entry since it was written.
    pub access_count: u64,
}

/// `a + b` capped at `u64::MAX`, the meaning of `u64::saturating_add`.
pub open spec fn sat_add(a: u64, b: u64) -> u64 {
    if a + b > u64::MAX {
        u64::MAX
    } else {
        (a + b) as u64
    }
}

/// `a - b` floored at zero, the meaning of `u64::saturating_sub`.
pub open spec fn sat_sub(a: u64, b: u64) -> u64 {
    if a >= b {
        (a - b) as u64
    } else {
        0
    }
}

/// Priorities live in `1 ..= 10`; anything outside is pulled to the
/// nearest bound before storage.
pub open spec fn spec_clamp_priority(p: u8) -> u8 {
    if p < 1 {
        1
    } else if p > 10 {
        10
    } else {
        p
    }
}

/// Executable twin of [`spec_clamp_priority`].
pub fn clamp_priority(p: u8) -> (r: u8)
    ensures
        r == spec_clamp_priority(p),
{
    if p < 1 {
        1
    } else if p > 10 {
        10
    } else {
        p
    }
}

/// The time to live a `put` uses: the explicit one if given, else the
/// configured default.
pub open spec fn effective_ttl(cfg: CacheConfig, ttl_ms: Option<u64>) -> u64 {
    match ttl_ms {
        Some(t) => t,
        None => cfg.default_ttl_ms,
    }
}

/// The entry a `put` at instant `now` writes: fresh metadata throughout,
/// an expiry `ttl_ms` ahead (capped at the end of time, so a time to live
/// that cannot be represented simply never runs out).
pub open spec fn fresh_entry<V>(value: V, priority: u8, ttl_ms: u64, now: u64) -> CacheEntry<V> {
    CacheEntry {
        value,
        priority: spec_clamp_priority(priority),
        expires_at: sat_add(now, ttl_ms),
        created_at: now,
        last_accessed: now,
        access_count: 0,
    }
}

/// An entry is expired once `now` has passed `expires_at`. The comparison
/// is strict, matching the lazy check on `get`: an entry read at the very
/// instant it expires still answers.
pub open spec fn is_expired<V>(e: CacheEntry<V>, now: u64) -> bool {
    now > e.expires_at
}

/// Milliseconds since the entry last answered a `get` (or was written),
/// zero if the clock appears to have gone backwards.
pub open spec fn idle_ms<V>(e: CacheEntry<V>, now: u64) -> u64 {
    sat_sub(now, e.last_accessed)
}

/// The eviction policy prefers `a` over `b` as a victim when `a`'s score
/// `idle / priority` is strictly greater than `b`'s. Cross-multiplied so
/// that the comparison is exact over the integers.
pub open spec fn prefers<V>(a: CacheEntry<V>, b: CacheEntry<V>, now: u64) -> bool {
    idle_ms(a, now) * b.priority > idle_ms(b, now) * a.priority
}

} // verus!

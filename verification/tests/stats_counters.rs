//! The statistics types on their own.

use smart_cache::{AtomicStats, CacheStats};

#[test]
fn atomic_stats_count_and_snapshot() {
    let stats = AtomicStats::new();
    assert_eq!(stats.snapshot(), CacheStats::default());

    stats.record_hit();
    stats.record_hit();
    stats.record_miss();
    stats.record_insertion();
    stats.record_eviction();
    stats.record_ttl_expirations(3);

    let snap = stats.snapshot();
    assert_eq!(snap.hits, 2);
    assert_eq!(snap.misses, 1);
    assert_eq!(snap.insertions, 1);
    assert_eq!(snap.evictions, 1);
    assert_eq!(snap.ttl_expirations, 3);
    assert_eq!(snap.hit_rate_percent(), 66);
}

#[test]
fn default_stats_are_zero() {
    let stats = CacheStats::default();
    assert_eq!(stats.hits, 0);
    assert_eq!(stats.misses, 0);
    assert_eq!(stats.evictions, 0);
    assert_eq!(stats.insertions, 0);
    assert_eq!(stats.ttl_expirations, 0);
}

//! The engine's basic operations: put, get, delete, clear, size, stats.
//!
//! Time stands still unless a test says otherwise: operations pass an
//! explicit clock in milliseconds.

use smart_cache::{CacheConfig, EvictionPolicy, SmartCache};

#[test]
fn test_basic_operations() {
    let mut cache: SmartCache<&str> = SmartCache::new(10);

    // Test put and get
    assert!(cache.put(1, "value1", None, 5, 0));
    assert_eq!(cache.get(1, 0), Some("value1"));

    // Test miss
    assert_eq!(cache.get(2, 0), None);

    // Test delete
    assert!(cache.delete(1));
    assert_eq!(cache.get(1, 0), None);
}

#[test]
fn test_capacity_limit() {
    let mut cache: SmartCache<&str> = SmartCache::new(2);

    cache.put(1, "value1", None, 1, 0);
    cache.put(2, "value2", None, 5, 1);
    cache.put(3, "value3", None, 10, 2); // Should evict key 1 (lowest priority)

    assert_eq!(cache.get(1, 3), None); // Evicted
    assert_eq!(cache.get(2, 3), Some("value2"));
    assert_eq!(cache.get(3, 3), Some("value3"));
}

#[test]
fn test_stats() {
    let mut cache: SmartCache<&str> = SmartCache::new(10);

    cache.put(1, "value1", None, 5, 0);
    cache.get(1, 0); // Hit
    cache.get(2, 0); // Miss

    let stats = cache.get_stats();
    assert_eq!(stats.hits, 1);
    assert_eq!(stats.misses, 1);
    assert_eq!(stats.insertions, 1);
}

#[test]
fn test_priority_eviction() {
    let mut cache: SmartCache<&str> = SmartCache::new(2);

    cache.put(1, "low", None, 1, 0);
    cache.put(2, "high", None, 10, 1);
    cache.put(3, "medium", None, 5, 2); // Should evict 1

    assert_eq!(cache.get(1, 3), None);
    assert_eq!(cache.get(2, 3), Some("high"));
    assert_eq!(cache.get(3, 3), Some("medium"));
}

#[test]
fn test_sharded_performance() {
    let mut cache: SmartCache<u64> = SmartCache::new(100);

    // Fill cache
    for i in 0..100u64 {
        cache.put(i, i, None, (i % 10) as u8 + 1, i);
    }

    // Force eviction
    for i in 100..200u64 {
        cache.put(i, i, None, 5, i);
    }

    assert_eq!(cache.size(), 100);
}

#[test]
fn ttl_expired_entry_is_gone() {
    let mut cache: SmartCache<&str> = SmartCache::new(10);

    cache.put(1, "value1", Some(100), 5, 0);
    assert_eq!(cache.get(1, 50), Some("value1"));
    // the boundary instant still answers: expiry is strict
    cache.put(2, "value2", Some(100), 5, 0);
    assert_eq!(cache.get(2, 100), Some("value2"));
    // one millisecond later it is gone
    assert_eq!(cache.get(1, 101), None);

    let stats = cache.get_stats();
    assert_eq!(stats.ttl_expirations, 1);
}

#[test]
fn ttl_short_and_long() {
    let mut cache: SmartCache<&str> = SmartCache::new(10);

    // a 1 ms life is over 5 ms later
    cache.put(1, "short", Some(1), 5, 0);
    assert_eq!(cache.get(1, 5), None);

    // an hour-long life answers immediately
    cache.put(2, "long", Some(3_600_000), 5, 5);
    assert_eq!(cache.get(2, 5), Some("long"));
}

#[test]
fn default_ttl_applies_when_none_given() {
    let mut cache: SmartCache<&str> = SmartCache::new(10);

    // the default configuration gives entries an hour
    cache.put(1, "v", None, 5, 0);
    assert_eq!(cache.get(1, 3_600_000), Some("v"));
    assert_eq!(cache.get(1, 3_600_001), None);
}

#[test]
fn delete_absent_is_noop() {
    let mut cache: SmartCache<&str> = SmartCache::new(10);

    cache.put(1, "v", None, 5, 0);
    assert!(!cache.delete(2));
    assert_eq!(cache.size(), 1);
    assert_eq!(cache.get(1, 0), Some("v"));
    // deleting leaves no stats trace
    let stats = cache.get_stats();
    assert_eq!(stats.insertions, 1);
    assert_eq!(stats.evictions, 0);
}

#[test]
fn overwrite_replaces_value_and_metadata() {
    let mut cache: SmartCache<&str> = SmartCache::new(10);

    cache.put(1, "v1", None, 5, 0);
    cache.put(1, "v2", None, 7, 1);
    assert_eq!(cache.get(1, 1), Some("v2"));
    assert_eq!(cache.size(), 1);
    // both writes counted as insertions
    assert_eq!(cache.get_stats().insertions, 2);
}

#[test]
fn clear_empties_store_but_keeps_stats() {
    let mut cache: SmartCache<&str> = SmartCache::new(10);

    cache.put(1, "a", None, 5, 0);
    cache.put(2, "b", None, 5, 0);
    cache.get(1, 0);
    cache.clear();

    assert_eq!(cache.size(), 0);
    assert_eq!(cache.get(1, 0), None);

    let stats = cache.get_stats();
    assert_eq!(stats.insertions, 2);
    assert_eq!(stats.hits, 1);
}

#[test]
fn priority_is_clamped_into_range() {
    // a priority of 0 behaves as 1, and 200 as 10: with both present,
    // the zero-priority entry is the eviction victim even though it is
    // more recent than nothing and the other entry is older
    let mut cache: SmartCache<&str> = SmartCache::new(2);
    cache.put(1, "max", None, 200, 0);
    cache.put(2, "min", None, 0, 1);
    cache.put(3, "new", None, 5, 2);
    // scores at t=2: key 1 idle 2 over priority 10, key 2 idle 1 over
    // priority 1 -> key 2 scores higher and is evicted
    assert_eq!(cache.get(2, 3), None);
    assert_eq!(cache.get(1, 3), Some("max"));
}

#[test]
fn cleanup_expired_sweeps_only_the_dead() {
    let mut cache: SmartCache<&str> = SmartCache::new(10);

    cache.put(1, "a", Some(10), 5, 0);
    cache.put(2, "b", Some(100), 5, 0);
    cache.put(3, "c", Some(1000), 5, 0);

    cache.cleanup_expired(150);

    assert_eq!(cache.size(), 1);
    assert_eq!(cache.get(3, 150), Some("c"));
    assert_eq!(cache.get_stats().ttl_expirations, 2);

    // sweeping again finds nothing more
    cache.cleanup_expired(150);
    assert_eq!(cache.get_stats().ttl_expirations, 2);
}

#[test]
fn get_refreshes_recency_for_eviction() {
    let mut cache: SmartCache<&str> = SmartCache::new(2);

    cache.put(1, "a", None, 5, 0);
    cache.put(2, "b", None, 5, 1);
    // touching 1 makes 2 the least recently used
    cache.get(1, 2);
    cache.put(3, "c", None, 5, 3);

    assert_eq!(cache.get(2, 4), None); // evicted
    assert_eq!(cache.get(1, 4), Some("a"));
    assert_eq!(cache.get(3, 4), Some("c"));
}

#[test]
fn eviction_sample_bound_limits_the_scan() {
    // with a sample bound of one, only the least recently used entry is
    // scanned, even when a better-scoring victim sits further in
    let config = CacheConfig { max_capacity: 2, eviction_sample_size: 1, ..CacheConfig::default() };
    let mut cache: SmartCache<&str> = SmartCache::with_config(config);
    cache.put(1, "old-high", None, 10, 0);
    cache.put(2, "fresh-low", None, 1, 5);
    cache.put(3, "new", None, 5, 10);
    // a full scan would pick key 2 (idle 5 / priority 1); the bounded
    // scan sees only key 1, the least recently used
    assert_eq!(cache.get(1, 11), None);
    assert_eq!(cache.get(2, 11), Some("fresh-low"));

    // a zero bound is adopted as one, not as "never evict"
    let config = CacheConfig { max_capacity: 1, eviction_sample_size: 0, ..CacheConfig::default() };
    let mut cache: SmartCache<&str> = SmartCache::with_config(config);
    cache.put(1, "a", None, 5, 0);
    cache.put(2, "b", None, 5, 1);
    assert_eq!(cache.size(), 1);
}

#[test]
fn default_config_values() {
    let c = CacheConfig::default();
    assert_eq!(c.max_capacity, 1000);
    assert_eq!(c.default_ttl_ms, 3_600_000);
    assert_eq!(c.cleanup_interval_ms, 60_000);
    assert_eq!(c.shard_amount, 64);
    assert_eq!(c.eviction_sample_size, 100);
    assert_eq!(c.eviction_policy, EvictionPolicy::ScoreBased);
}

#[test]
fn lowest_priority_policy_ignores_idle_time() {
    // an old high-priority entry and a fresh low-priority one: the score
    // policy evicts the old one, the lowest-priority policy the fresh one
    let base = CacheConfig { max_capacity: 2, ..CacheConfig::default() };

    let mut scored: SmartCache<&str> = SmartCache::with_config(base);
    scored.put(1, "old-high", None, 9, 0);
    scored.put(2, "fresh-low", None, 1, 9);
    scored.put(3, "new", None, 5, 10);
    // scores at t=10: key 1 idle 10 over 9, key 2 idle 1 over 1
    assert_eq!(scored.get(1, 11), None);
    assert_eq!(scored.get(2, 11), Some("fresh-low"));

    let config = CacheConfig { eviction_policy: EvictionPolicy::LowestPriority, ..base };
    let mut by_priority: SmartCache<&str> = SmartCache::with_config(config);
    by_priority.put(1, "old-high", None, 9, 0);
    by_priority.put(2, "fresh-low", None, 1, 9);
    by_priority.put(3, "new", None, 5, 10);
    assert_eq!(by_priority.get(2, 11), None);
    assert_eq!(by_priority.get(1, 11), Some("old-high"));
}

//! The inspection snapshot: entries filtered by priority, with their
//! metadata.

use smart_cache::SmartCache;

#[test]
fn test_priority_query() {
    let mut cache: SmartCache<&str> = SmartCache::new(10);

    cache.put(1, "high", None, 8, 0);
    cache.put(2, "medium", None, 5, 0);
    cache.put(3, "low", None, 2, 0);

    let entries = cache.query_entries_above(4, 0);
    assert_eq!(entries.len(), 2);
    // most recently used first
    assert_eq!(entries[0].key, 2);
    assert_eq!(entries[0].priority, 5);
    assert_eq!(entries[1].key, 1);
    assert_eq!(entries[1].priority, 8);
}

#[test]
fn query_reports_access_metadata() {
    let mut cache: SmartCache<&str> = SmartCache::new(10);

    cache.put(1, "v", Some(1000), 6, 100);
    cache.get(1, 150);
    cache.get(1, 200);

    let entries = cache.query_entries_above(0, 250);
    assert_eq!(entries.len(), 1);
    let row = &entries[0];
    assert_eq!(row.key, 1);
    assert_eq!(row.access_count, 2);
    assert_eq!(row.age_ms, 150); // written at 100, asked at 250
    assert_eq!(row.ttl_remaining_ms, 850); // expires at 1100
}

#[test]
fn query_marks_expired_entries() {
    let mut cache: SmartCache<&str> = SmartCache::new(10);

    cache.put(1, "v", Some(10), 6, 0);
    // not looked up, not swept: still in the store, but out of life
    let entries = cache.query_entries_above(0, 50);
    assert_eq!(entries.len(), 1);
    assert_eq!(entries[0].ttl_remaining_ms, -1);
}

//! The engine's laws, exercised on concrete runs: the capacity bound,
//! eviction of the worst-scoring entry, statistics monotonicity, and the
//! accounting of accesses over a long mixed workload.

use smart_cache::{CacheStats, SmartCache};

fn le(a: &CacheStats, b: &CacheStats) -> bool {
    a.hits <= b.hits
        && a.misses <= b.misses
        && a.evictions <= b.evictions
        && a.insertions <= b.insertions
        && a.ttl_expirations <= b.ttl_expirations
}

#[test]
fn capacity_bound_holds_after_each_put() {
    let mut cache: SmartCache<u64> = SmartCache::new(3);
    for i in 0..20u64 {
        cache.put(i, i * 10, None, ((i % 10) + 1) as u8, i);
        assert!(cache.size() <= 3);
    }
    assert_eq!(cache.size(), 3);
}

#[test]
fn full_cache_evicts_exactly_the_idle_low_priority_key() {
    // entries of priorities 1..=10 inserted in order; one more insert
    // evicts exactly one entry, and the never-accessed priority-1 key
    // goes before any priority-10 key
    let mut cache: SmartCache<u64> = SmartCache::new(10);
    for i in 1..=10u64 {
        cache.put(i, i, None, i as u8, i);
    }
    assert_eq!(cache.size(), 10);

    cache.put(11, 11, None, 5, 11);

    assert_eq!(cache.size(), 10);
    assert_eq!(cache.get_stats().evictions, 1);
    assert_eq!(cache.get(1, 11), None); // the priority-1 key is the victim
    assert_eq!(cache.get(10, 11), Some(10));
    assert_eq!(cache.get(11, 11), Some(11));
}

#[test]
fn stats_never_decrease_across_operations() {
    let mut cache: SmartCache<u64> = SmartCache::new(2);
    let mut last = cache.get_stats();

    let mut check = |cache: &mut SmartCache<u64>, last: &mut CacheStats| {
        let now_stats = cache.get_stats();
        assert!(le(last, &now_stats));
        *last = now_stats;
    };

    for t in 0..50u64 {
        match t % 5 {
            0 => {
                cache.put(t % 7, t, None, (t % 10) as u8 + 1, t);
            }
            1 => {
                cache.get(t % 7, t);
            }
            2 => {
                cache.put(t % 3, t, Some(1), 3, t);
            }
            3 => {
                cache.delete(t % 5);
            }
            _ => {
                cache.cleanup_expired(t);
            }
        }
        check(&mut cache, &mut last);
        assert!(cache.get_stats().hit_rate_percent() <= 100);
    }
}

#[test]
fn hit_rate_percent_exact_values() {
    let zero = CacheStats::default();
    assert_eq!(zero.hit_rate_percent(), 0);

    let half = CacheStats { hits: 1, misses: 1, ..CacheStats::default() };
    assert_eq!(half.hit_rate_percent(), 50);

    let third = CacheStats { hits: 1, misses: 2, ..CacheStats::default() };
    assert_eq!(third.hit_rate_percent(), 33);

    let all = CacheStats { hits: 7, misses: 0, ..CacheStats::default() };
    assert_eq!(all.hit_rate_percent(), 100);
}

#[test]
fn mixed_workload_accounts_every_get() {
    // the sequential analogue of the concurrent stress run: many mixed
    // puts and gets on overlapping keys; afterwards the store is within
    // capacity and hits + misses equals the number of gets issued
    let capacity = 50;
    let mut cache: SmartCache<u64> = SmartCache::new(capacity);
    let mut gets: u64 = 0;

    for w in 0..8u64 {
        for n in 0..250u64 {
            let t = w * 250 + n;
            let key = (w * 37 + n * 11) % 100;
            if (w + n) % 3 == 0 {
                cache.get(key, t);
                gets += 1;
            } else {
                cache.put(key, t, None, ((key % 10) + 1) as u8, t);
            }
            assert!(cache.size() <= capacity);
        }
    }

    let stats = cache.get_stats();
    assert_eq!(stats.hits + stats.misses, gets);
    assert!(cache.size() <= capacity);
}

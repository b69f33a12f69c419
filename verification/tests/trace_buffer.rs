//! The ring buffer an observability layer keeps its trace in.

use smart_cache::{CacheOperation, CircularBuffer, EvictionReason};

#[test]
fn buffer_keeps_recent_items_in_order() {
    let mut buf: CircularBuffer<u64> = CircularBuffer::new(4);
    assert_eq!(buf.to_vec(), Vec::<u64>::new());

    buf.push(1);
    buf.push(2);
    buf.push(3);
    assert_eq!(buf.to_vec(), vec![1, 2, 3]);
}

#[test]
fn buffer_drops_oldest_when_full() {
    // a buffer of capacity 4 holds the last three items
    let mut buf: CircularBuffer<u64> = CircularBuffer::new(4);
    for i in 1..=10u64 {
        buf.push(i);
    }
    assert_eq!(buf.to_vec(), vec![8, 9, 10]);
}

#[test]
fn buffer_of_capacity_one_holds_nothing() {
    let mut buf: CircularBuffer<u64> = CircularBuffer::new(1);
    buf.push(1);
    buf.push(2);
    assert_eq!(buf.to_vec(), Vec::<u64>::new());
}

#[test]
fn buffer_holds_cache_operations() {
    let mut buf: CircularBuffer<CacheOperation> = CircularBuffer::new(8);
    buf.push(CacheOperation::Put { key: 1, priority: 5, ttl_ms: 1000 });
    buf.push(CacheOperation::Get { key: 1, hit: true });
    buf.push(CacheOperation::Delete { key: 1 });
    buf.push(CacheOperation::Eviction { key: 2, reason: EvictionReason::CapacityExceeded });
    buf.push(CacheOperation::Eviction { key: 3, reason: EvictionReason::TTLExpired });

    let ops = buf.to_vec();
    assert_eq!(ops.len(), 5);
    assert_eq!(ops[0], CacheOperation::Put { key: 1, priority: 5, ttl_ms: 1000 });
    assert_eq!(ops[1], CacheOperation::Get { key: 1, hit: true });
    assert_eq!(
        ops[4],
        CacheOperation::Eviction { key: 3, reason: EvictionReason::TTLExpired }
    );
}

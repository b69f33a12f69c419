//! The engine's laws: properties that hold of every state and every
//! operation, proved once and for all over the model.
//!
//! Each executable operation of [`crate::engine::SmartCache`] ensures that
//! it steps the model by its `spec_*` transition function and that the
//! result is well formed. The lemmas here speak about those transition
//! functions, so together with the operations' contracts they hold of
//! every sequence of calls.

use vstd::prelude::*;
use crate::engine::{
    CacheModel, model_inv, spec_put, spec_get, spec_delete, spec_evict, spec_cleanup, scan_seq,
    victim, put_evicts, lemma_victim_in, lemma_scan_winner_max, lemma_evict_preserves_inv,
    exp_pred,
};
use crate::entry::{fresh_entry, effective_ttl, is_expired, prefers, sat_add};

verus! {

broadcast use vstd::set::group_set_axioms;

/// Capacity bound: a well-formed cache with a positive capacity never
/// holds more entries than its capacity — in particular, after any
/// sequence of `put`s, `size()` stays within `max_capacity`.
pub proof fn law_capacity_bound<V>(m: CacheModel<V>)
    requires
        model_inv(m),
        m.config.max_capacity >= 1,
    ensures
        m.entries.len() <= m.config.max_capacity,
{
}

/// Eviction counts: a `put` of a fresh key into a cache at or above
/// capacity removes exactly one entry — the victim, a stored key distinct
/// from the new one — so the store ends no larger than it began.
pub proof fn law_put_at_capacity_evicts_exactly_one<V>(
    m: CacheModel<V>,
    key: u64,
    value: V,
    ttl_ms: Option<u64>,
    priority: u8,
    now: u64,
)
    requires
        model_inv(m),
        !m.entries.contains_key(key),
        m.entries.len() >= m.config.max_capacity,
        m.entries.len() > 0,
    ensures
        ({
            let m2 = spec_put(m, key, value, ttl_ms, priority, now);
            &&& m2.entries.len() == m.entries.len()
            &&& m2.entries.contains_key(key)
            &&& m.entries.contains_key(victim(m, now))
            &&& victim(m, now) != key
            &&& !m2.entries.contains_key(victim(m, now))
        }),
{
    if m.order.len() == 0 {
        assert(m.order.to_set() =~= Set::<u64>::empty());
        assert(m.entries.dom() =~= Set::<u64>::empty());
        assert(m.entries.len() == 0);
    }
    lemma_victim_in(m, now);
    lemma_evict_preserves_inv(m, now);
    let v = victim(m, now);
    let base = spec_evict(m, now);
    assert(put_evicts(m, key));
    assert(!base.entries.contains_key(key));
    assert(base.entries.dom().insert(key).len() == base.entries.len() + 1);
    assert(!base.entries.contains_key(v));
}

/// Eviction picks a highest-score victim: no scanned candidate's score
/// `idle / priority` strictly exceeds the victim's.
pub proof fn law_victim_has_max_scanned_score<V>(m: CacheModel<V>, now: u64)
    requires
        model_inv(m),
        m.order.len() > 0,
        m.config.eviction_policy == crate::config::EvictionPolicy::ScoreBased,
    ensures
        m.entries.contains_key(victim(m, now)),
        forall|j: int|
            0 <= j < scan_seq(m).len() ==> !prefers(
                m.entries[#[trigger] scan_seq(m)[j]],
                m.entries[victim(m, now)],
                now,
            ),
{
    lemma_victim_in(m, now);
    lemma_scan_winner_max(scan_seq(m), m.entries, now);
}

/// Eviction correctness, by construction: a scanned key that strictly
/// outscores every other scanned key — say, an idle priority-1 entry
/// against fresh priority-10 ones — is the one evicted.
pub proof fn law_strictly_best_candidate_is_victim<V>(m: CacheModel<V>, now: u64, k: u64)
    requires
        model_inv(m),
        m.order.len() > 0,
        m.config.eviction_policy == crate::config::EvictionPolicy::ScoreBased,
        scan_seq(m).contains(k),
        forall|j: int|
            0 <= j < scan_seq(m).len() && #[trigger] scan_seq(m)[j] != k ==> prefers(
                m.entries[k],
                m.entries[scan_seq(m)[j]],
                now,
            ),
    ensures
        victim(m, now) == k,
{
    let scan = scan_seq(m);
    lemma_victim_in(m, now);
    lemma_scan_winner_max(scan, m.entries, now);
    let v = victim(m, now);
    if v != k {
        crate::engine::lemma_scan_winner_in(scan, m.entries, now);
        assert(scan.contains(v));
        let jv = choose|jv: int| 0 <= jv < scan.len() && scan[jv] == v;
        let jk = choose|jk: int| 0 <= jk < scan.len() && scan[jk] == k;
        assert(scan_seq(m)[jv] == v);
        assert(scan_seq(m)[jv] != k);
        assert(prefers(m.entries[k], m.entries[v], now));
        assert(scan_seq(m)[jk] == k);
        assert(!prefers(m.entries[scan_seq(m)[jk]], m.entries[v], now));
        assert(false);
    }
}

/// Under the documented lowest-priority policy variant, the victim has
/// the literally lowest priority among the scanned candidates, idle time
/// notwithstanding.
pub proof fn law_lowest_priority_victim<V>(m: CacheModel<V>, now: u64)
    requires
        model_inv(m),
        m.order.len() > 0,
        m.config.eviction_policy == crate::config::EvictionPolicy::LowestPriority,
    ensures
        m.entries.contains_key(victim(m, now)),
        forall|j: int|
            0 <= j < scan_seq(m).len() ==> m.entries[#[trigger] scan_seq(m)[j]].priority
                >= m.entries[victim(m, now)].priority,
{
    lemma_victim_in(m, now);
    crate::engine::lemma_scan_lowpri_min(scan_seq(m), m.entries);
}

/// TTL is absolute, not sliding: a hit refreshes the access bookkeeping
/// but leaves the expiry (and the value, and the creation instant) of the
/// entry exactly where `put` fixed them.
pub proof fn law_get_never_extends_ttl<V>(m: CacheModel<V>, key: u64, now: u64)
    requires
        m.entries.contains_key(key),
        !is_expired(m.entries[key], now),
    ensures
        ({
            let (m2, r) = spec_get(m, key, now);
            &&& r == Some(m.entries[key].value)
            &&& m2.entries[key].expires_at == m.entries[key].expires_at
            &&& m2.entries[key].created_at == m.entries[key].created_at
            &&& m2.entries[key].value == m.entries[key].value
            &&& m2.entries[key].last_accessed == now
        }),
{
}

/// Lazy expiry: looking up an entry whose time to live has passed
/// returns nothing and removes the entry on the spot, counting both a
/// miss and a TTL expiration.
pub proof fn law_expired_entry_never_answers<V>(m: CacheModel<V>, key: u64, now: u64)
    requires
        m.entries.contains_key(key),
        is_expired(m.entries[key], now),
    ensures
        ({
            let (m2, r) = spec_get(m, key, now);
            &&& r is None
            &&& !m2.entries.contains_key(key)
            &&& m2.stats.misses == sat_add(m.stats.misses, 1)
            &&& m2.stats.ttl_expirations == sat_add(m.stats.ttl_expirations, 1)
        }),
{
}

/// A sweep removes expired entries and nothing else: afterwards the key
/// is stored exactly if it was stored and still live.
pub proof fn law_cleanup_removes_exactly_expired<V>(m: CacheModel<V>, now: u64, key: u64)
    requires
        model_inv(m),
    ensures
        spec_cleanup(m, now).entries.contains_key(key) <==> (m.entries.contains_key(key)
            && !is_expired(m.entries[key], now)),
        spec_cleanup(m, now).entries.contains_key(key) ==> spec_cleanup(m, now).entries[key]
            == m.entries[key],
{
    crate::engine::lemma_filter_membership(m.order, exp_pred(m, now), key);
    if m.entries.contains_key(key) {
        assert(m.order.to_set().contains(key));
        assert(m.order.contains(key));
    }
}

/// Deleting an absent key is a no-op: the model — entries, order and
/// statistics alike — does not move (and the operation reports `false`).
pub proof fn law_delete_absent_is_noop<V>(m: CacheModel<V>, key: u64)
    requires
        !m.entries.contains_key(key),
    ensures
        spec_delete(m, key) == m,
{
}

/// Overwrite: after `put(k, v1)` then `put(k, v2)`, a `get(k)` answers
/// `Some(v2)` — the store holds exactly the second write's entry, so `v1`
/// is never observable again.
pub proof fn law_last_write_wins<V>(
    m: CacheModel<V>,
    key: u64,
    v1: V,
    v2: V,
    ttl1: Option<u64>,
    ttl2: Option<u64>,
    p1: u8,
    p2: u8,
    now1: u64,
    now2: u64,
)
    ensures
        ({
            let m1 = spec_put(m, key, v1, ttl1, p1, now1);
            let m2 = spec_put(m1, key, v2, ttl2, p2, now2);
            &&& m2.entries[key] == fresh_entry(
                v2,
                p2,
                effective_ttl(m.config, ttl2),
                now2,
            )
            &&& spec_get(m2, key, now2).1 == Some(v2)
        }),
{
    let m1 = spec_put(m, key, v1, ttl1, p1, now1);
    let m2 = spec_put(m1, key, v2, ttl2, p2, now2);
    assert(m1.entries.contains_key(key));
    assert(!put_evicts(m1, key));
    assert(m2.entries[key] == fresh_entry(v2, p2, effective_ttl(m.config, ttl2), now2));
    assert(!is_expired(m2.entries[key], now2));
}

/// Stats monotonicity under `put`: no counter ever goes backwards.
pub proof fn law_stats_monotone_put<V>(
    m: CacheModel<V>,
    key: u64,
    value: V,
    ttl_ms: Option<u64>,
    priority: u8,
    now: u64,
)
    ensures
        crate::stats::CacheStats::le(m.stats, spec_put(m, key, value, ttl_ms, priority, now).stats),
{
}

/// Stats monotonicity under `get`.
pub proof fn law_stats_monotone_get<V>(m: CacheModel<V>, key: u64, now: u64)
    ensures
        crate::stats::CacheStats::le(m.stats, spec_get(m, key, now).0.stats),
{
}

/// Stats monotonicity under `delete`, `clear` and the sweep: `delete`
/// and `clear` leave the counters untouched, and a sweep only adds.
pub proof fn law_stats_monotone_rest<V>(m: CacheModel<V>, key: u64, now: u64)
    ensures
        crate::engine::spec_delete(m, key).stats == m.stats,
        crate::engine::spec_clear(m).stats == m.stats,
        crate::stats::CacheStats::le(m.stats, spec_cleanup(m, now).stats),
{
}

/// Every `get` is exactly one access: as long as the counters are not
/// saturated, `hits + misses` grows by one per lookup — hit, lazy
/// expiry and plain miss alike.
pub proof fn law_get_counts_one_access<V>(m: CacheModel<V>, key: u64, now: u64)
    requires
        m.stats.hits < u64::MAX,
        m.stats.misses < u64::MAX,
    ensures
        spec_get(m, key, now).0.stats.hits + spec_get(m, key, now).0.stats.misses == m.stats.hits
            + m.stats.misses + 1,
{
}

/// A `put` is exactly one insertion, and evicts only when it must: the
/// insertion counter grows by one, and the eviction counter grows
/// exactly when the key was new and the store was at capacity and
/// non-empty.
pub proof fn law_put_counts_one_insertion<V>(
    m: CacheModel<V>,
    key: u64,
    value: V,
    ttl_ms: Option<u64>,
    priority: u8,
    now: u64,
)
    requires
        m.stats.insertions < u64::MAX,
        m.stats.evictions < u64::MAX,
    ensures
        ({
            let s2 = spec_put(m, key, value, ttl_ms, priority, now).stats;
            &&& s2.insertions == m.stats.insertions + 1
            &&& s2.evictions == if put_evicts(m, key) && m.order.len() > 0 {
                m.stats.evictions + 1
            } else {
                m.stats.evictions as int
            }
        }),
{
}

} // verus!

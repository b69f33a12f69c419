//! The cache engine: store, recency index, eviction, expiry and
//! statistics, driven by a caller-supplied clock.
//!
//! Every operation is specified against [`CacheModel`], a mathematical
//! snapshot of the engine: a map of entries, the recency order, the
//! statistics and the configuration. The functions `spec_put`, `spec_get`,
//! `spec_delete`, `spec_clear`, `spec_evict` and `spec_cleanup` are the
//! engine's transition relation; each executable operation proves that it
//! steps the model by exactly the corresponding function.

use vstd::prelude::*;
use std::collections::HashMap;
use crate::config::{CacheConfig, EvictionPolicy};
use crate::entry::{
    CacheEntry, clamp_priority, effective_ttl, fresh_entry, idle_ms, is_expired, prefers, sat_add,
    sat_sub,
};
use crate::lru::LruList;
use crate::stats::CacheStats;

verus! {

broadcast use {
    vstd::std_specs::hash::group_hash_axioms,
    vstd::set::group_set_axioms,
    vstd::map::group_map_axioms,
};

/// A mathematical snapshot of one cache engine.
#[verifier::ext_equal]
pub ghost struct CacheModel<V> {
    /// The live entries, keyed by cache key.
    pub entries: Map<u64, CacheEntry<V>>,
    /// The keys in recency order, most recently used first. Holds exactly
    /// the keys of `entries`, each once.
    pub order: Seq<u64>,
    /// The cumulative counters.
    pub stats: CacheStats,
    /// The configuration the engine was built with.
    pub config: CacheConfig,
}

/// The invariant every engine state satisfies: the store and the recency
/// order list the same keys, each key once; the store never holds more
/// than `max_capacity` entries (one, when the capacity is zero, since a
/// `put` into an empty store has nothing to evict); and an eviction scan
/// always inspects at least one candidate.
pub open spec fn model_inv<V>(m: CacheModel<V>) -> bool {
    &&& m.order.no_duplicates()
    &&& m.entries.dom() == m.order.to_set()
    &&& m.entries.dom().finite()
    &&& m.entries.len() <= spec_capacity_bound(m.config)
    &&& m.config.eviction_sample_size >= 1
}

/// What the store's size never exceeds: the configured capacity, or one
/// entry when the configured capacity is zero.
pub open spec fn spec_capacity_bound(config: CacheConfig) -> int {
    if config.max_capacity >= 1 {
        config.max_capacity as int
    } else {
        1
    }
}

/// The keys an eviction scan walks, in scan order: from the least
/// recently used end of the recency order, at most `eviction_sample_size`
/// of them.
pub open spec fn scan_seq<V>(m: CacheModel<V>) -> Seq<u64> {
    let lru_first = m.order.reverse();
    if m.config.eviction_sample_size < lru_first.len() {
        lru_first.take(m.config.eviction_sample_size as int)
    } else {
        lru_first
    }
}

/// The key the scan settles on: each candidate in turn replaces the
/// incumbent only when its eviction score `idle / priority` is strictly
/// greater, so of equally scored candidates the earliest scanned wins.
pub open spec fn scan_winner_from<V>(
    scan: Seq<u64>,
    entries: Map<u64, CacheEntry<V>>,
    now: u64,
) -> u64
    recommends
        scan.len() > 0,
    decreases scan.len(),
{
    if scan.len() <= 1 {
        scan[0]
    } else {
        let w = scan_winner_from(scan.drop_last(), entries, now);
        if prefers(entries[scan.last()], entries[w], now) {
            scan.last()
        } else {
            w
        }
    }
}

/// The key the scan settles on under the lowest-priority policy: each
/// candidate in turn replaces the incumbent only when its priority is
/// strictly lower, so of equal priorities the earliest scanned wins.
pub open spec fn scan_lowest_priority_from<V>(
    scan: Seq<u64>,
    entries: Map<u64, CacheEntry<V>>,
) -> u64
    recommends
        scan.len() > 0,
    decreases scan.len(),
{
    if scan.len() <= 1 {
        scan[0]
    } else {
        let w = scan_lowest_priority_from(scan.drop_last(), entries);
        if entries[scan.last()].priority < entries[w].priority {
            scan.last()
        } else {
            w
        }
    }
}

/// The key an eviction at instant `now` removes, under the configured
/// policy.
pub open spec fn victim<V>(m: CacheModel<V>, now: u64) -> u64 {
    match m.config.eviction_policy {
        EvictionPolicy::ScoreBased => scan_winner_from(scan_seq(m), m.entries, now),
        EvictionPolicy::LowestPriority => scan_lowest_priority_from(scan_seq(m), m.entries),
    }
}

/// One eviction step: on a non-empty store, the victim leaves the store
/// and the recency order and the eviction counter moves; an empty store
/// is left alone.
pub open spec fn spec_evict<V>(m: CacheModel<V>, now: u64) -> CacheModel<V> {
    if m.order.len() == 0 {
        m
    } else {
        let v = victim(m, now);
        CacheModel {
            entries: m.entries.remove(v),
            order: m.order.remove_value(v),
            stats: CacheStats { evictions: sat_add(m.stats.evictions, 1), ..m.stats },
            config: m.config,
        }
    }
}

/// Whether a `put` of `key` must first make room: the key is new and the
/// store is at or above capacity.
pub open spec fn put_evicts<V>(m: CacheModel<V>, key: u64) -> bool {
    !m.entries.contains_key(key) && m.entries.len() >= m.config.max_capacity
}

/// What `put` does to the model: evict if room is needed, then write a
/// fresh entry under `key` (replacing any old one), move the key to the
/// front of the recency order, and count one insertion.
pub open spec fn spec_put<V>(
    m: CacheModel<V>,
    key: u64,
    value: V,
    ttl_ms: Option<u64>,
    priority: u8,
    now: u64,
) -> CacheModel<V> {
    let e = fresh_entry(value, priority, effective_ttl(m.config, ttl_ms), now);
    let base = if put_evicts(m, key) {
        spec_evict(m, now)
    } else {
        m
    };
    CacheModel {
        entries: base.entries.insert(key, e),
        order: seq![key] + base.order.remove_value(key),
        stats: CacheStats { insertions: sat_add(base.stats.insertions, 1), ..base.stats },
        config: m.config,
    }
}

/// What `get` does to the model, and what it returns. A live hit copies
/// the value out, refreshes `last_accessed` and the access count, moves
/// the key to the front of the recency order and counts a hit — the
/// entry's expiry does not move. An expired entry is removed on the spot,
/// counted both as a miss and as a TTL expiration. An absent key counts a
/// miss.
pub open spec fn spec_get<V>(m: CacheModel<V>, key: u64, now: u64) -> (CacheModel<V>, Option<
    V,
>) {
    if m.entries.contains_key(key) {
        let e = m.entries[key];
        if is_expired(e, now) {
            (
                CacheModel {
                    entries: m.entries.remove(key),
                    order: m.order.remove_value(key),
                    stats: CacheStats {
                        misses: sat_add(m.stats.misses, 1),
                        ttl_expirations: sat_add(m.stats.ttl_expirations, 1),
                        ..m.stats
                    },
                    config: m.config,
                },
                None,
            )
        } else {
            let refreshed = CacheEntry {
                last_accessed: now,
                access_count: sat_add(e.access_count, 1),
                ..e
            };
            (
                CacheModel {
                    entries: m.entries.insert(key, refreshed),
                    order: seq![key] + m.order.remove_value(key),
                    stats: CacheStats { hits: sat_add(m.stats.hits, 1), ..m.stats },
                    config: m.config,
                },
                Some(e.value),
            )
        }
    } else {
        (
            CacheModel {
                stats: CacheStats { misses: sat_add(m.stats.misses, 1), ..m.stats },
                ..m
            },
            None,
        )
    }
}

/// What `delete` does to the model: the key leaves the store and the
/// recency order; statistics do not move.
pub open spec fn spec_delete<V>(m: CacheModel<V>, key: u64) -> CacheModel<V> {
    if m.entries.contains_key(key) {
        CacheModel {
            entries: m.entries.remove(key),
            order: m.order.remove_value(key),
            ..m
        }
    } else {
        m
    }
}

/// What `clear` does to the model: every entry leaves; the counters are
/// lifetime totals and stay.
pub open spec fn spec_clear<V>(m: CacheModel<V>) -> CacheModel<V> {
    CacheModel { entries: Map::empty(), order: Seq::empty(), ..m }
}

/// The predicate a sweep at instant `now` removes by: the key is stored
/// and its entry has expired.
pub open spec fn exp_pred<V>(m: CacheModel<V>, now: u64) -> spec_fn(u64) -> bool {
    |k: u64| m.entries.contains_key(k) && is_expired(m.entries[k], now)
}

/// The complement of [`exp_pred`]: the keys a sweep keeps.
pub open spec fn live_pred<V>(m: CacheModel<V>, now: u64) -> spec_fn(u64) -> bool {
    |k: u64| !(m.entries.contains_key(k) && is_expired(m.entries[k], now))
}

/// What a background sweep does to the model: every expired entry leaves
/// the store and the recency order (which otherwise keeps its order), and
/// the TTL-expiration counter moves once per removed entry.
pub open spec fn spec_cleanup<V>(m: CacheModel<V>, now: u64) -> CacheModel<V> {
    let gone = m.order.filter(exp_pred(m, now));
    CacheModel {
        entries: m.entries.remove_keys(gone.to_set()),
        order: m.order.filter(live_pred(m, now)),
        stats: CacheStats {
            ttl_expirations: sat_add_int(m.stats.ttl_expirations, gone.len() as int),
            ..m.stats
        },
        config: m.config,
    }
}

/// `a + b` capped at `u64::MAX`, for a mathematical (non-negative) `b`.
pub open spec fn sat_add_int(a: u64, b: int) -> u64 {
    if a + b > u64::MAX {
        u64::MAX
    } else {
        (a + b) as u64
    }
}

/// The configuration as the engine adopts it: a sample bound of zero
/// could never evict anything, so it is raised to one.
pub open spec fn spec_adopt_config(config: CacheConfig) -> CacheConfig {
    if config.eviction_sample_size == 0 {
        CacheConfig { eviction_sample_size: 1, ..config }
    } else {
        config
    }
}

/// The model of a freshly built engine: empty, zeroed counters, the given
/// configuration (with the sample bound raised to at least one).
pub open spec fn spec_init<V>(config: CacheConfig) -> CacheModel<V> {
    CacheModel {
        entries: Map::empty(),
        order: Seq::empty(),
        stats: CacheStats::zeroed(),
        config: spec_adopt_config(config),
    }
}

/// Prepending a fresh key adds exactly that key to a sequence's set of
/// elements.
pub proof fn lemma_cons_to_set(s: Seq<u64>, key: u64)
    ensures
        (seq![key] + s).to_set() == s.to_set().insert(key),
{
    broadcast use vstd::set::group_set_axioms;

    let s2 = seq![key] + s;
    assert(s2.to_set() =~= s.to_set().insert(key)) by {
        assert forall|x: u64| s2.to_set().contains(x) implies s.to_set().insert(key).contains(
            x,
        ) by {
            assert(s2.contains(x));
            let k = choose|k: int| 0 <= k < s2.len() && s2[k] == x;
            if k > 0 {
                assert(s[k - 1] == x);
                assert(s.contains(x));
            }
        }
        assert forall|x: u64| s.to_set().insert(key).contains(x) implies s2.to_set().contains(
            x,
        ) by {
            if x == key {
                assert(s2[0] == x);
            } else {
                assert(s.contains(x));
                let k = choose|k: int| 0 <= k < s.len() && s[k] == x;
                assert(s2[k + 1] == x);
            }
            assert(s2.contains(x));
        }
    }
}

/// Filtering the empty sequence yields the empty sequence.
pub proof fn lemma_filter_empty(p: spec_fn(u64) -> bool)
    ensures
        Seq::<u64>::empty().filter(p) == Seq::<u64>::empty(),
{
    reveal(Seq::filter);
}

/// Filtering a one-key sequence keeps or drops that key.
pub proof fn lemma_filter_singleton(k: u64, p: spec_fn(u64) -> bool)
    ensures
        seq![k].filter(p) == if p(k) {
            seq![k]
        } else {
            Seq::<u64>::empty()
        },
{
    reveal(Seq::filter);
    assert(seq![k].drop_last() =~= Seq::<u64>::empty());
    assert(Seq::<u64>::empty().filter(p) =~= Seq::<u64>::empty());
    if p(k) {
        assert(seq![k].filter(p) =~= seq![k]);
    }
}

/// Appending a key adds exactly that key to a sequence's set of
/// elements.
pub proof fn lemma_push_to_set(s: Seq<u64>, key: u64)
    ensures
        s.push(key).to_set() == s.to_set().insert(key),
{
    broadcast use vstd::set::group_set_axioms;

    let s2 = s.push(key);
    assert(s2.to_set() =~= s.to_set().insert(key)) by {
        assert forall|x: u64| s2.to_set().contains(x) implies s.to_set().insert(key).contains(
            x,
        ) by {
            assert(s2.contains(x));
            let k = choose|k: int| 0 <= k < s2.len() && s2[k] == x;
            if k < s.len() {
                assert(s[k] == x);
                assert(s.contains(x));
            }
        }
        assert forall|x: u64| s.to_set().insert(key).contains(x) implies s2.to_set().contains(
            x,
        ) by {
            if x == key {
                assert(s2[s.len() as int] == x);
            } else {
                assert(s.contains(x));
                let k = choose|k: int| 0 <= k < s.len() && s[k] == x;
                assert(s2[k] == x);
            }
            assert(s2.contains(x));
        }
    }
}

/// What it means for a key to survive a filter: it was there and the
/// predicate holds of it.
pub proof fn lemma_filter_membership(s: Seq<u64>, p: spec_fn(u64) -> bool, x: u64)
    ensures
        s.filter(p).contains(x) <==> (s.contains(x) && p(x)),
{
    broadcast use vstd::seq_lib::group_filter_ensures;

    if s.filter(p).contains(x) {
        s.lemma_filter_contains_rev(p, x);
        let j = choose|j: int| 0 <= j < s.filter(p).len() && s.filter(p)[j] == x;
        assert(p(s.filter(p)[j]));
    }
    if s.contains(x) && p(x) {
        let j = choose|j: int| 0 <= j < s.len() && s[j] == x;
        assert(s.filter(p).contains(s[j]));
    }
}

/// Removing `k` from `a + [k] + c`, where `a` does not hold `k`, splices
/// the two sides together: the first occurrence of `k` is exactly the
/// seam.
pub proof fn lemma_remove_value_concat_head(a: Seq<u64>, c: Seq<u64>, k: u64)
    requires
        !a.contains(k),
    ensures
        (a + (seq![k] + c)).remove_value(k) == a + c,
{
    let s = a + (seq![k] + c);
    assert(s[a.len() as int] == k);
    assert(s.contains(k));
    s.index_of_first_ensures(k);
    let i = s.index_of_first(k).unwrap();
    assert(i <= a.len()) by {
        if i > a.len() {
            assert(s[a.len() as int] == k);
        }
    }
    assert(i == a.len()) by {
        if i < a.len() {
            assert(s[i] == a[i]);
            assert(a.contains(s[i]));
        }
    }
    s.remove_ensures(i);
    assert(s.remove(i) =~= a + c);
}

/// Prepending a fresh key keeps a sequence duplicate-free.
pub proof fn lemma_cons_no_dup(s: Seq<u64>, key: u64)
    requires
        s.no_duplicates(),
        !s.contains(key),
    ensures
        (seq![key] + s).no_duplicates(),
{
    let s2 = seq![key] + s;
    assert forall|i: int, j: int|
        0 <= i < s2.len() && 0 <= j < s2.len() && i != j implies s2[i] != s2[j] by {
        if i == 0 {
            assert(s.contains(s[j - 1]));
        } else if j == 0 {
            assert(s.contains(s[i - 1]));
        }
    }
}

/// The winner of a scan is one of the scanned keys.
pub proof fn lemma_scan_winner_in<V>(scan: Seq<u64>, entries: Map<u64, CacheEntry<V>>, now: u64)
    requires
        scan.len() > 0,
    ensures
        scan.contains(scan_winner_from(scan, entries, now)),
    decreases scan.len(),
{
    let w = scan_winner_from(scan, entries, now);
    if scan.len() <= 1 {
        assert(scan[0] == w);
        assert(scan.contains(w));
    } else {
        lemma_scan_winner_in(scan.drop_last(), entries, now);
        let w0 = scan_winner_from(scan.drop_last(), entries, now);
        let j = choose|j: int| 0 <= j < scan.drop_last().len() && scan.drop_last()[j] == w0;
        assert(scan[j] == w0);
        if prefers(entries[scan.last()], entries[w0], now) {
            assert(scan[scan.len() - 1] == w);
        }
        assert(scan.contains(w));
    }
}

/// The lowest-priority winner is one of the scanned keys.
pub proof fn lemma_scan_lowpri_in<V>(scan: Seq<u64>, entries: Map<u64, CacheEntry<V>>)
    requires
        scan.len() > 0,
    ensures
        scan.contains(scan_lowest_priority_from(scan, entries)),
    decreases scan.len(),
{
    let w = scan_lowest_priority_from(scan, entries);
    if scan.len() <= 1 {
        assert(scan[0] == w);
        assert(scan.contains(w));
    } else {
        lemma_scan_lowpri_in(scan.drop_last(), entries);
        let w0 = scan_lowest_priority_from(scan.drop_last(), entries);
        let j = choose|j: int| 0 <= j < scan.drop_last().len() && scan.drop_last()[j] == w0;
        assert(scan[j] == w0);
        if entries[scan.last()].priority < entries[w0].priority {
            assert(scan[scan.len() - 1] == w);
        }
        assert(scan.contains(w));
    }
}

/// No scanned key has a strictly lower priority than the
/// lowest-priority winner.
pub proof fn lemma_scan_lowpri_min<V>(scan: Seq<u64>, entries: Map<u64, CacheEntry<V>>)
    requires
        scan.len() > 0,
    ensures
        forall|j: int|
            0 <= j < scan.len() ==> entries[#[trigger] scan[j]].priority >= entries[
                scan_lowest_priority_from(scan, entries)
            ].priority,
    decreases scan.len(),
{
    if scan.len() <= 1 {
    } else {
        let prefix = scan.drop_last();
        lemma_scan_lowpri_min(prefix, entries);
        assert forall|j: int| 0 <= j < scan.len() implies entries[#[trigger] scan[j]].priority
            >= entries[scan_lowest_priority_from(scan, entries)].priority by {
            if j < scan.len() - 1 {
                assert(prefix[j] == scan[j]);
            }
        }
    }
}

/// The score comparison is transitive the way fractions are: if `a`
/// scores no higher than `w`, and `l` scores strictly higher than `w`,
/// then `a` scores strictly lower than `l`. Everything is non-negative;
/// the scores are compared cross-multiplied.
proof fn lemma_prefers_trans(ia: int, pa: int, iw: int, pw: int, il: int, pl: int)
    requires
        ia >= 0,
        pa >= 0,
        iw >= 0,
        pw >= 0,
        il >= 0,
        pl >= 0,
        ia * pw <= iw * pa,
        il * pw > iw * pl,
    ensures
        ia * pl <= il * pa,
{
    assert(pw > 0) by (nonlinear_arith)
        requires
            il >= 0,
            iw >= 0,
            pl >= 0,
            pw >= 0,
            il * pw > iw * pl,
    ;
    assert(ia * pl * pw <= il * pa * pw) by (nonlinear_arith)
        requires
            pa >= 0,
            pl >= 0,
            pw > 0,
            ia * pw <= iw * pa,
            il * pw > iw * pl,
    ;
    assert(ia * pl <= il * pa) by (nonlinear_arith)
        requires
            pw > 0,
            ia * pl * pw <= il * pa * pw,
    ;
}

/// No scanned key scores strictly higher than the scan's winner.
pub proof fn lemma_scan_winner_max<V>(scan: Seq<u64>, entries: Map<u64, CacheEntry<V>>, now: u64)
    requires
        scan.len() > 0,
    ensures
        forall|j: int|
            0 <= j < scan.len() ==> !prefers(
                entries[#[trigger] scan[j]],
                entries[scan_winner_from(scan, entries, now)],
                now,
            ),
    decreases scan.len(),
{
    let w = scan_winner_from(scan, entries, now);
    if scan.len() <= 1 {
    } else {
        let prefix = scan.drop_last();
        lemma_scan_winner_max(prefix, entries, now);
        let w0 = scan_winner_from(prefix, entries, now);
        let l = scan.last();
        assert forall|j: int| 0 <= j < scan.len() implies !prefers(
            entries[#[trigger] scan[j]],
            entries[w],
            now,
        ) by {
            if j < scan.len() - 1 {
                assert(prefix[j] == scan[j]);
                assert(!prefers(entries[scan[j]], entries[w0], now));
                if prefers(entries[l], entries[w0], now) {
                    let a = entries[scan[j]];
                    let e_w0 = entries[w0];
                    let e_l = entries[l];
                    lemma_prefers_trans(
                        idle_ms(a, now) as int,
                        a.priority as int,
                        idle_ms(e_w0, now) as int,
                        e_w0.priority as int,
                        idle_ms(e_l, now) as int,
                        e_l.priority as int,
                    );
                }
            }
        }
    }
}

/// An eviction scan on a non-empty store has at least one candidate, and
/// its victim is a stored key.
pub proof fn lemma_victim_in<V>(m: CacheModel<V>, now: u64)
    requires
        model_inv(m),
        m.order.len() > 0,
    ensures
        scan_seq(m).len() > 0,
        m.order.contains(victim(m, now)),
        m.entries.contains_key(victim(m, now)),
{
    broadcast use vstd::set::group_set_axioms;

    let scan = scan_seq(m);
    match m.config.eviction_policy {
        EvictionPolicy::ScoreBased => lemma_scan_winner_in(scan, m.entries, now),
        EvictionPolicy::LowestPriority => lemma_scan_lowpri_in(scan, m.entries),
    }
    let v = victim(m, now);
    let j = choose|j: int| 0 <= j < scan.len() && scan[j] == v;
    assert(m.order[m.order.len() - 1 - j] == v);
    assert(m.order.contains(v));
    assert(m.order.to_set().contains(v));
}

/// Evicting keeps the invariant and, on a non-empty store, shrinks it by
/// exactly one entry.
pub proof fn lemma_evict_preserves_inv<V>(m: CacheModel<V>, now: u64)
    requires
        model_inv(m),
    ensures
        model_inv(spec_evict(m, now)),
        spec_evict(m, now).config == m.config,
        m.order.len() > 0 ==> spec_evict(m, now).entries.len() == m.entries.len() - 1,
        m.order.len() == 0 ==> spec_evict(m, now) == m,
    decreases 0int,
{
    broadcast use vstd::set::group_set_axioms;

    if m.order.len() > 0 {
        lemma_victim_in(m, now);
        let v = victim(m, now);
        crate::lru::lemma_no_dup_remove_value_to_set(m.order, v);
        let m2 = spec_evict(m, now);
        assert(m2.entries.dom() =~= m2.order.to_set());
    }
}

/// A `put` keeps the invariant: the store never outgrows the capacity
/// bound, and store and recency order stay in lock step.
pub proof fn lemma_put_preserves_inv<V>(
    m: CacheModel<V>,
    key: u64,
    value: V,
    ttl_ms: Option<u64>,
    priority: u8,
    now: u64,
)
    requires
        model_inv(m),
    ensures
        model_inv(spec_put(m, key, value, ttl_ms, priority, now)),
        spec_put(m, key, value, ttl_ms, priority, now).config == m.config,
{
    broadcast use vstd::set::group_set_axioms;

    let base = if put_evicts(m, key) {
        spec_evict(m, now)
    } else {
        m
    };
    lemma_evict_preserves_inv(m, now);
    if put_evicts(m, key) && m.order.len() == 0 {
        assert(m.order.to_set() =~= Set::<u64>::empty());
        assert(m.entries.dom() =~= Set::<u64>::empty());
        assert(m.entries.len() == 0);
    }
    crate::lru::lemma_no_dup_remove_value_to_set(base.order, key);
    crate::lru::lemma_no_dup_remove_value_absent(base.order, key);
    let tail = base.order.remove_value(key);
    lemma_cons_no_dup(tail, key);
    lemma_cons_to_set(tail, key);
    let m2 = spec_put(m, key, value, ttl_ms, priority, now);
    assert(m2.entries.dom() =~= m2.order.to_set());
    if m.entries.contains_key(key) {
        assert(m.entries.dom().insert(key) =~= m.entries.dom());
    }
}

/// One row of an inspection snapshot: what the engine knows about a
/// stored entry, minus the value.
#[derive(Clone, Copy, Debug, PartialEq, Eq, Structural)]
pub struct QueryEntry {
    /// The entry's key.
    pub key: u64,
    /// The entry's clamped priority.
    pub priority: u8,
    /// Hits served since the entry was written.
    pub access_count: u64,
    /// Milliseconds since the entry was written.
    pub age_ms: u64,
    /// Milliseconds of life the entry has left; `-1` once it has
    /// expired, and capped at `i64::MAX`.
    pub ttl_remaining_ms: i64,
}

/// The life an entry has left at instant `now`, as a signed count that
/// reads `-1` for "already expired".
pub open spec fn spec_ttl_remaining<V>(e: CacheEntry<V>, now: u64) -> i64 {
    if now > e.expires_at {
        -1i64
    } else if e.expires_at - now > i64::MAX {
        i64::MAX
    } else {
        (e.expires_at - now) as i64
    }
}

/// The snapshot row describing entry `e` stored under `key`.
pub open spec fn spec_query_entry<V>(e: CacheEntry<V>, key: u64, now: u64) -> QueryEntry {
    QueryEntry {
        key,
        priority: e.priority,
        access_count: e.access_count,
        age_ms: sat_sub(now, e.created_at),
        ttl_remaining_ms: spec_ttl_remaining(e, now),
    }
}

/// The keys `query_entries_above` reports: stored with a priority
/// strictly above the threshold.
pub open spec fn query_pred<V>(m: CacheModel<V>, threshold: u8) -> spec_fn(u64) -> bool {
    |k: u64| m.entries.contains_key(k) && m.entries[k].priority > threshold
}

/// The cache engine. Generic over the value type, which must be `Copy`
/// so that `get` can hand the value out while the entry stays put.
///
/// The engine is a sequential state machine: it never reads a clock and
/// never blocks. Operations that depend on time take `now_ms`, the
/// caller's clock in milliseconds; a host that wants wall-clock TTLs
/// passes the current time, under whatever lock discipline it runs the
/// engine.
pub struct SmartCache<V> {
    store: HashMap<u64, CacheEntry<V>>,
    lru: LruList,
    stats: CacheStats,
    config: CacheConfig,
}

impl<V> View for SmartCache<V> {
    type V = CacheModel<V>;

    closed spec fn view(&self) -> CacheModel<V> {
        CacheModel {
            entries: self.store@,
            order: self.lru@,
            stats: self.stats,
            config: self.config,
        }
    }
}

impl<V: Copy> SmartCache<V> {
    /// The representation invariant: the recency list is well formed and
    /// the abstract state satisfies [`model_inv`].
    pub closed spec fn wf(&self) -> bool {
        &&& self.lru.wf()
        &&& model_inv(self@)
    }

    /// An engine with the given capacity and defaults for everything
    /// else.
    pub fn new(max_capacity: usize) -> (r: SmartCache<V>)
        ensures
            r.wf(),
            r@ == spec_init::<V>(
                (CacheConfig { max_capacity, ..crate::config::spec_default_config() }),
            ),
    {
        let mut config = CacheConfig::default();
        config.max_capacity = max_capacity;
        Self::with_config(config)
    }

    /// An empty engine with the given configuration.
    pub fn with_config(config: CacheConfig) -> (r: SmartCache<V>)
        ensures
            r.wf(),
            r@ == spec_init::<V>(config),
    {
        let adopted = if config.eviction_sample_size == 0 {
            CacheConfig { eviction_sample_size: 1, ..config }
        } else {
            config
        };
        let r = SmartCache {
            store: HashMap::new(),
            lru: LruList::new(),
            stats: CacheStats::default(),
            config: adopted,
        };
        proof {
            assert(r.store@.dom() =~= r.lru@.to_set());
        }
        r
    }

    /// How many entries the store holds, lazily expired but unswept ones
    /// included.
    pub fn size(&self) -> (r: usize)
        requires
            self.wf(),
        ensures
            r == self@.entries.len(),
    {
        self.store.len()
    }

    /// A snapshot of the cumulative counters.
    pub fn get_stats(&self) -> (r: CacheStats)
        ensures
            r == self@.stats,
    {
        self.stats
    }

    /// Remove `key` if present; reports whether anything was removed.
    /// Statistics do not move.
    pub fn delete(&mut self, key: u64) -> (r: bool)
        requires
            old(self).wf(),
        ensures
            final(self).wf(),
            final(self)@ == spec_delete(old(self)@, key),
            r == old(self)@.entries.contains_key(key),
    {
        let ghost m0 = self@;
        match self.store.remove(&key) {
            Some(_) => {
                proof {
                    assert(m0.order.to_set().contains(key));
                    assert(m0.order.contains(key));
                }
                self.lru.remove(key);
                proof {
                    crate::lru::lemma_no_dup_remove_value_to_set(m0.order, key);
                    assert(self@.entries =~= spec_delete(m0, key).entries);
                    assert(self@ =~= spec_delete(m0, key));
                }
                true
            },
            None => {
                proof {
                    assert(self.store@ =~= m0.entries);
                }
                false
            },
        }
    }

    /// Make room for one new entry: scan up to `eviction_sample_size`
    /// keys from the least recently used end of the recency order, and
    /// remove the one whose eviction score `idle / priority` is highest
    /// (of equal scores, the least recently used wins). On an empty store
    /// there is nothing to do.
    fn evict_one(&mut self, now: u64)
        requires
            old(self).wf(),
        ensures
            final(self).wf(),
            final(self)@ == spec_evict(old(self)@, now),
    {
        let ghost m0 = self@;
        let keys = self.lru.iter();
        if keys.len() == 0 {
            return;
        }
        let count = keys.len();
        let sample = self.config.eviction_sample_size;
        let ghost scan = scan_seq(m0);
        proof {
            assert(scan.len() == if sample < count {
                sample as int
            } else {
                count as int
            });
        }
        let first = keys[count - 1];
        proof {
            assert(m0.order[count - 1] == first);
            assert(m0.order.contains(first));
            assert(m0.order.to_set().contains(first));
        }
        let by_priority = self.config.eviction_policy == EvictionPolicy::LowestPriority;
        let e0 = self.store.get(&first).unwrap();
        let mut best_key = first;
        let mut best_idle = now.saturating_sub(e0.last_accessed);
        let mut best_prio = e0.priority;
        let mut scanned: usize = 1;
        proof {
            assert(scan[0] == first);
            assert(scan.take(1) =~= seq![first]);
            assert(scan_winner_from(scan.take(1), m0.entries, now) == first);
            assert(scan_lowest_priority_from(scan.take(1), m0.entries) == first);
        }
        while scanned < sample && scanned < count
            invariant
                self.wf(),
                self@ == m0,
                keys@ == m0.order,
                count == keys@.len(),
                count > 0,
                sample == m0.config.eviction_sample_size,
                scan == scan_seq(m0),
                scan.len() == if sample < count {
                    sample as int
                } else {
                    count as int
                },
                1 <= scanned <= count,
                scanned <= sample,
                by_priority == (m0.config.eviction_policy == EvictionPolicy::LowestPriority),
                best_key == if by_priority {
                    scan_lowest_priority_from(scan.take(scanned as int), m0.entries)
                } else {
                    scan_winner_from(scan.take(scanned as int), m0.entries, now)
                },
                m0.entries.contains_key(best_key),
                best_idle == idle_ms(m0.entries[best_key], now),
                best_prio == m0.entries[best_key].priority,
            decreases count - scanned,
        {
            let k = keys[count - 1 - scanned];
            proof {
                assert(scan[scanned as int] == k);
                assert(m0.order[count - 1 - scanned] == k);
                assert(m0.order.contains(k));
                assert(m0.order.to_set().contains(k));
            }
            let e = self.store.get(&k).unwrap();
            let idle = now.saturating_sub(e.last_accessed);
            let prio = e.priority;
            proof {
                assert((idle as int) * (best_prio as int) < 0x1_0000_0000_0000_0000_0000)
                    by (nonlinear_arith)
                    requires
                        idle <= u64::MAX,
                        best_prio <= 255,
                ;
                assert((best_idle as int) * (prio as int) < 0x1_0000_0000_0000_0000_0000)
                    by (nonlinear_arith)
                    requires
                        best_idle <= u64::MAX,
                        prio <= 255,
                ;
            }
            let replace = if by_priority {
                prio < best_prio
            } else {
                (idle as u128) * (best_prio as u128) > (best_idle as u128) * (prio as u128)
            };
            proof {
                if by_priority {
                    assert(replace == (m0.entries[k].priority
                        < m0.entries[best_key].priority));
                } else {
                    assert(replace == prefers(m0.entries[k], m0.entries[best_key], now));
                }
                assert(scan.take(scanned + 1).drop_last() =~= scan.take(scanned as int));
                assert(scan.take(scanned + 1).last() == k);
                assert(scan.take(scanned + 1).len() >= 2);
            }
            if replace {
                best_key = k;
                best_idle = idle;
                best_prio = prio;
            }
            scanned += 1;
        }
        proof {
            assert(scan.take(scanned as int) =~= scan);
            assert(best_key == victim(m0, now));
        }
        self.store.remove(&best_key);
        self.lru.remove(best_key);
        self.stats.evictions = self.stats.evictions.saturating_add(1);
        proof {
            lemma_evict_preserves_inv(m0, now);
            assert(self@.entries =~= spec_evict(m0, now).entries);
            assert(self@ =~= spec_evict(m0, now));
        }
    }

    /// Write `value` under `key` with the given priority and time to
    /// live (the configured default when none is given), overwriting any
    /// entry already there — its metadata is not carried over. When the
    /// key is new and the store is at or above capacity, one entry is
    /// evicted first. Always succeeds.
    pub fn put(&mut self, key: u64, value: V, ttl_ms: Option<u64>, priority: u8, now: u64) -> (r:
        bool)
        requires
            old(self).wf(),
        ensures
            final(self).wf(),
            final(self)@ == spec_put(old(self)@, key, value, ttl_ms, priority, now),
            r,
    {
        let ghost m0 = self@;
        let ttl = match ttl_ms {
            Some(t) => t,
            None => self.config.default_ttl_ms,
        };
        let is_new = !self.store.contains_key(&key);
        if is_new && self.store.len() >= self.config.max_capacity {
            self.evict_one(now);
        }
        let ghost base = self@;
        let entry = CacheEntry {
            value,
            priority: clamp_priority(priority),
            expires_at: now.saturating_add(ttl),
            created_at: now,
            last_accessed: now,
            access_count: 0,
        };
        proof {
            assert(entry == fresh_entry(value, priority, effective_ttl(m0.config, ttl_ms), now));
        }
        self.store.insert(key, entry);
        self.lru.remove(key);
        proof {
            crate::lru::lemma_no_dup_remove_value_absent(base.order, key);
        }
        self.lru.push_front(key);
        self.stats.insertions = self.stats.insertions.saturating_add(1);
        proof {
            lemma_put_preserves_inv(m0, key, value, ttl_ms, priority, now);
            assert(self@ =~= spec_put(m0, key, value, ttl_ms, priority, now));
        }
        true
    }

    /// Look `key` up at instant `now`. A live entry answers with a copy
    /// of its value, moves to the front of the recency order, and has its
    /// access bookkeeping refreshed — not its expiry, which is fixed at
    /// insertion. An entry whose time to live has passed is removed on
    /// the spot and counted as both a miss and a TTL expiration, so a
    /// caller never sees an expired value, whether or not a sweep has run
    /// yet.
    pub fn get(&mut self, key: u64, now: u64) -> (r: Option<V>)
        requires
            old(self).wf(),
        ensures
            final(self).wf(),
            final(self)@ == spec_get(old(self)@, key, now).0,
            r == spec_get(old(self)@, key, now).1,
    {
        let ghost m0 = self@;
        match self.store.remove(&key) {
            None => {
                self.stats.misses = self.stats.misses.saturating_add(1);
                proof {
                    assert(self@.entries =~= spec_get(m0, key, now).0.entries);
                    assert(self@ =~= spec_get(m0, key, now).0);
                }
                None
            },
            Some(entry) => {
                proof {
                    assert(m0.order.to_set().contains(key));
                    assert(m0.order.contains(key));
                    crate::lru::lemma_no_dup_remove_value_to_set(m0.order, key);
                }
                if now > entry.expires_at {
                    self.lru.remove(key);
                    self.stats.misses = self.stats.misses.saturating_add(1);
                    self.stats.ttl_expirations = self.stats.ttl_expirations.saturating_add(1);
                    proof {
                        assert(self@.entries =~= spec_get(m0, key, now).0.entries);
                        assert(self@ =~= spec_get(m0, key, now).0);
                    }
                    None
                } else {
                    let value = entry.value;
                    let refreshed = CacheEntry {
                        last_accessed: now,
                        access_count: entry.access_count.saturating_add(1),
                        ..entry
                    };
                    self.store.insert(key, refreshed);
                    self.lru.remove(key);
                    proof {
                        crate::lru::lemma_no_dup_remove_value_absent(m0.order, key);
                    }
                    self.lru.push_front(key);
                    self.stats.hits = self.stats.hits.saturating_add(1);
                    proof {
                        let tail = m0.order.remove_value(key);
                        lemma_cons_no_dup(tail, key);
                        lemma_cons_to_set(tail, key);
                        assert(self@.entries =~= spec_get(m0, key, now).0.entries);
                        assert(self@.entries.dom() =~= self@.order.to_set());
                        assert(m0.entries.dom().insert(key) =~= m0.entries.dom());
                        assert(self@ =~= spec_get(m0, key, now).0);
                    }
                    Some(value)
                }
            },
        }
    }

    /// Sweep the whole store at instant `now`: every entry whose time to
    /// live has passed is removed from the store and the recency order,
    /// and counted as a TTL expiration. The recency order of the
    /// surviving entries is untouched. Safe to run at any time, any
    /// number of times; a host typically runs it every
    /// `cleanup_interval_ms` from a background task.
    pub fn cleanup_expired(&mut self, now: u64)
        requires
            old(self).wf(),
        ensures
            final(self).wf(),
            final(self)@ == spec_cleanup(old(self)@, now),
    {
        let ghost m0 = self@;
        let ghost exp = exp_pred(m0, now);
        let ghost live = live_pred(m0, now);
        let keys = self.lru.iter();
        let n = keys.len();
        let mut i: usize = 0;
        proof {
            lemma_filter_empty(exp);
            lemma_filter_empty(live);
            assert(keys@.take(0) =~= Seq::<u64>::empty());
            assert(keys@.skip(0) =~= keys@);
            assert(self.lru@ =~= keys@.take(0).filter(live) + keys@.skip(0));
            assert(self.store@ =~= m0.entries.remove_keys(keys@.take(0).filter(exp).to_set()));
        }
        while i < n
            invariant
                self.lru.wf(),
                model_inv(m0),
                exp == exp_pred(m0, now),
                live == live_pred(m0, now),
                n == keys@.len(),
                keys@ == m0.order,
                i <= n,
                self@.config == m0.config,
                self.lru@ == keys@.take(i as int).filter(live) + keys@.skip(i as int),
                self.store@ == m0.entries.remove_keys(keys@.take(i as int).filter(exp).to_set()),
                self@.stats == (CacheStats {
                    ttl_expirations: sat_add_int(
                        m0.stats.ttl_expirations,
                        keys@.take(i as int).filter(exp).len() as int,
                    ),
                    ..m0.stats
                }),
            decreases n - i,
        {
            broadcast use vstd::seq_lib::group_filter_ensures;

            let k = keys[i];
            let ghost prefix = keys@.take(i as int);
            proof {
                assert(keys@[i as int] == k);
                assert(m0.order.contains(k));
                assert(m0.order.to_set().contains(k));
                assert(m0.entries.contains_key(k));
                // k has not been processed yet, so it is still stored
                assert(!prefix.contains(k)) by {
                    if prefix.contains(k) {
                        let j = choose|j: int| 0 <= j < prefix.len() && prefix[j] == k;
                        assert(keys@[j] == k);
                    }
                }
                lemma_filter_membership(prefix, exp, k);
                assert(!prefix.filter(exp).contains(k));
                assert(self.store@.contains_key(k));
                assert(self.store@[k] == m0.entries[k]);
                assert(keys@.take(i + 1) =~= prefix + seq![k]);
                lemma_filter_singleton(k, exp);
                lemma_filter_singleton(k, live);
                Seq::filter_distributes_over_add(prefix, seq![k], exp);
                Seq::filter_distributes_over_add(prefix, seq![k], live);
                assert(keys@.skip(i as int) =~= seq![k] + keys@.skip(i + 1));
            }
            let expired = match self.store.get(&k) {
                Some(e) => now > e.expires_at,
                None => false,
            };
            proof {
                assert(expired == exp(k));
            }
            if expired {
                self.store.remove(&k);
                self.lru.remove(k);
                self.stats.ttl_expirations = self.stats.ttl_expirations.saturating_add(1);
                proof {
                    let kept = prefix.filter(live);
                    assert forall|x: u64| kept.contains(x) implies x != k by {
                        lemma_filter_membership(prefix, live, x);
                        assert(prefix.contains(x));
                    }
                    lemma_remove_value_concat_head(kept, keys@.skip(i + 1), k);
                    assert(self.lru@ =~= keys@.take(i + 1).filter(live) + keys@.skip(i + 1));
                    assert(keys@.take(i + 1).filter(exp) =~= prefix.filter(exp).push(k));
                    lemma_push_to_set(prefix.filter(exp), k);
                    assert(self.store@ =~= m0.entries.remove_keys(
                        keys@.take(i + 1).filter(exp).to_set(),
                    ));
                }
            } else {
                proof {
                    assert(self.lru@ =~= keys@.take(i + 1).filter(live) + keys@.skip(i + 1));
                    assert(keys@.take(i + 1).filter(exp) =~= prefix.filter(exp));
                    assert(self.store@ =~= m0.entries.remove_keys(
                        keys@.take(i + 1).filter(exp).to_set(),
                    ));
                }
            }
            i += 1;
        }
        proof {
            broadcast use vstd::seq_lib::group_filter_ensures;

            assert(keys@.take(n as int) =~= keys@);
            assert(keys@.skip(n as int) =~= Seq::<u64>::empty());
            assert(self.lru@ =~= m0.order.filter(live));
            assert(self@ =~= spec_cleanup(m0, now));
            // the invariant survives: the store and order still agree
            self.lru.wf_facts();
            let gone = m0.order.filter(exp).to_set();
            assert(self@.entries.dom() =~= self@.order.to_set()) by {
                assert forall|x: u64| self@.entries.dom().contains(x)
                    implies self@.order.to_set().contains(x) by {
                    lemma_filter_membership(m0.order, exp, x);
                    lemma_filter_membership(m0.order, live, x);
                    assert(m0.order.contains(x));
                    assert(!m0.order.filter(exp).contains(x));
                    assert(!exp(x));
                    assert(live(x));
                    assert(m0.order.filter(live).contains(x));
                }
                assert forall|x: u64| self@.order.to_set().contains(x)
                    implies self@.entries.dom().contains(x) by {
                    lemma_filter_membership(m0.order, exp, x);
                    lemma_filter_membership(m0.order, live, x);
                    assert(m0.order.filter(live).contains(x));
                    assert(m0.order.contains(x));
                    assert(m0.order.to_set().contains(x));
                    assert(live(x));
                    assert(!exp(x));
                    assert(!gone.contains(x));
                }
            }
            assert(self@.entries.dom() <= m0.entries.dom());
            vstd::set_lib::lemma_len_subset(self@.entries.dom(), m0.entries.dom());
        }
    }

    /// A snapshot of every entry whose priority lies strictly above
    /// `threshold`: key and metadata, no value, in recency order, most
    /// recently used first. Expired-but-unswept entries are reported
    /// like any others, with `-1` milliseconds remaining.
    pub fn query_entries_above(&self, threshold: u8, now: u64) -> (r: Vec<QueryEntry>)
        requires
            self.wf(),
        ensures
            r@ == self@.order.filter(query_pred(self@, threshold)).map_values(
                (|k: u64| spec_query_entry(self@.entries[k], k, now)),
            ),
    {
        let ghost m0 = self@;
        let ghost pq = query_pred(m0, threshold);
        let ghost f = |k: u64| spec_query_entry(m0.entries[k], k, now);
        let keys = self.lru.iter();
        let n = keys.len();
        let mut out: Vec<QueryEntry> = Vec::new();
        let mut i: usize = 0;
        proof {
            lemma_filter_empty(pq);
            assert(keys@.take(0) =~= Seq::<u64>::empty());
            assert(out@ =~= keys@.take(0).filter(pq).map_values(f));
        }
        while i < n
            invariant
                self.wf(),
                self@ == m0,
                pq == query_pred(m0, threshold),
                f == (|k: u64| spec_query_entry(m0.entries[k], k, now)),
                n == keys@.len(),
                keys@ == m0.order,
                i <= n,
                out@ == keys@.take(i as int).filter(pq).map_values(f),
            decreases n - i,
        {
            let k = keys[i];
            let ghost prefix = keys@.take(i as int);
            proof {
                assert(keys@[i as int] == k);
                assert(m0.order.contains(k));
                assert(m0.order.to_set().contains(k));
                assert(m0.entries.contains_key(k));
                assert(keys@.take(i + 1) =~= prefix + seq![k]);
                lemma_filter_singleton(k, pq);
                Seq::filter_distributes_over_add(prefix, seq![k], pq);
            }
            let e = self.store.get(&k).unwrap();
            if e.priority > threshold {
                let ttl_remaining = if now > e.expires_at {
                    -1i64
                } else {
                    let d = e.expires_at - now;
                    if d > i64::MAX as u64 {
                        i64::MAX
                    } else {
                        d as i64
                    }
                };
                let row = QueryEntry {
                    key: k,
                    priority: e.priority,
                    access_count: e.access_count,
                    age_ms: now.saturating_sub(e.created_at),
                    ttl_remaining_ms: ttl_remaining,
                };
                out.push(row);
                proof {
                    assert(row == f(k));
                    assert(prefix.filter(pq).push(k).map_values(f) =~= prefix.filter(
                        pq,
                    ).map_values(f).push(f(k)));
                    assert(out@ =~= keys@.take(i + 1).filter(pq).map_values(f));
                }
            } else {
                proof {
                    assert(out@ =~= keys@.take(i + 1).filter(pq).map_values(f));
                }
            }
            i += 1;
        }
        proof {
            assert(keys@.take(n as int) =~= keys@);
        }
        out
    }

    /// Remove every entry. The counters are lifetime totals and stay.
    pub fn clear(&mut self)
        requires
            old(self).wf(),
        ensures
            final(self).wf(),
            final(self)@ == spec_clear(old(self)@),
    {
        self.store.clear();
        self.lru = LruList::new();
        proof {
            assert(self.store@.dom() =~= self.lru@.to_set());
        }
    }
}

} // verus!

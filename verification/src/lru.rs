//! The recency index: a doubly-linked list of keys with O(1) touch and
//! removal.
//!
//! Nodes are linked by key rather than by pointer: a backing map takes each
//! key to the keys of its neighbours, so the structure has a single owner
//! and no cycles of references. The list's view is the sequence of keys
//! from most recently used (front) to least recently used (back).

use vstd::prelude::*;
use std::collections::HashMap;

verus! {

broadcast use {
    vstd::std_specs::hash::group_hash_axioms,
    vstd::set::group_set_axioms,
    vstd::map::group_map_axioms,
};

/// One link of the recency list: a key and the keys of its neighbours.
/// `prev` points one step toward the front, `next` one step toward the
/// back.
#[derive(Clone, Copy, Debug)]
pub struct LruNode {
    pub key: u64,
    pub prev: Option<u64>,
    pub next: Option<u64>,
}

/// A doubly-linked list of distinct keys, keyed by a backing map.
pub struct LruList {
    nodes: HashMap<u64, LruNode>,
    head: Option<u64>,
    tail: Option<u64>,
    order: Ghost<Seq<u64>>,
}

impl LruList {
    /// The node stored under `s[i]` links to exactly its neighbours in
    /// `s`.
    pub closed spec fn node_ok(nodes: Map<u64, LruNode>, s: Seq<u64>, i: int) -> bool {
        &&& nodes.contains_key(s[i])
        &&& nodes[s[i]].key == s[i]
        &&& nodes[s[i]].prev == if i == 0 {
            None::<u64>
        } else {
            Some(s[i - 1])
        }
        &&& nodes[s[i]].next == if i == s.len() - 1 {
            None::<u64>
        } else {
            Some(s[i + 1])
        }
    }

    /// The backing map, the end markers and the abstract order agree: the
    /// map holds exactly the keys of the order, each linked to its
    /// neighbours, and `head`/`tail` name the two ends.
    pub closed spec fn wf(&self) -> bool {
        let s = self.order@;
        &&& s.no_duplicates()
        &&& self.nodes@.dom() == s.to_set()
        &&& if s.len() == 0 {
            self.head is None && self.tail is None
        } else {
            self.head == Some(s[0]) && self.tail == Some(s[s.len() - 1])
        }
        &&& forall|i: int| 0 <= i < s.len() ==> #[trigger] Self::node_ok(self.nodes@, s, i)
    }

    /// What callers may rely on without seeing inside: a well-formed
    /// list never lists a key twice.
    pub proof fn wf_facts(&self)
        requires
            self.wf(),
        ensures
            self@.no_duplicates(),
    {
    }

    /// An empty list.
    pub fn new() -> (r: LruList)
        ensures
            r.wf(),
            r@ == Seq::<u64>::empty(),
    {
        let r = LruList {
            nodes: HashMap::new(),
            head: None,
            tail: None,
            order: Ghost(Seq::empty()),
        };
        proof {
            assert(r.nodes@.dom() =~= r.order@.to_set());
        }
        r
    }

    /// Insert `key`, which must not already be listed, at the
    /// most-recently-used end.
    pub fn push_front(&mut self, key: u64)
        requires
            old(self).wf(),
            !old(self)@.contains(key),
        ensures
            final(self).wf(),
            final(self)@ == seq![key] + old(self)@,
    {
        let ghost pre = *self;
        let ghost s = pre.order@;
        let node = LruNode { key, prev: None, next: self.head };
        if let Some(h) = self.head {
            proof {
                assert(Self::node_ok(pre.nodes@, s, 0));
                assert(s.to_set().contains(s[0]));
            }
            let old_head = *self.nodes.get(&h).unwrap();
            let patched = LruNode { prev: Some(key), ..old_head };
            self.nodes.insert(h, patched);
        }
        self.nodes.insert(key, node);
        self.head = Some(key);
        if self.tail.is_none() {
            self.tail = Some(key);
        }
        let ghost s2 = seq![key] + s;
        proof {
            self.order@ = s2;
            assert forall|i: int, j: int| 0 <= i < j < s2.len() implies s2[i] != s2[j] by {
                if i == 0 {
                    assert(s.contains(s[j - 1]));
                }
            }
            assert(self.nodes@.dom() =~= s2.to_set()) by {
                assert forall|x: u64| s2.to_set().contains(x) implies self.nodes@.dom().contains(
                    x,
                ) by {
                    assert(s2.contains(x));
                    let k = choose|k: int| 0 <= k < s2.len() && s2[k] == x;
                    if k > 0 {
                        assert(s[k - 1] == x);
                        assert(s.contains(x));
                        assert(s.to_set().contains(x));
                    }
                }
                assert forall|x: u64| self.nodes@.dom().contains(x) implies s2.to_set().contains(
                    x,
                ) by {
                    if x != key {
                        assert(s.to_set().contains(x));
                        assert(s.contains(x));
                        let k = choose|k: int| 0 <= k < s.len() && s[k] == x;
                        assert(s2[k + 1] == x);
                        assert(s2.contains(x));
                    } else {
                        assert(s2[0] == key);
                        assert(s2.contains(x));
                    }
                }
            }
            assert forall|i: int| 0 <= i < s2.len() implies #[trigger] Self::node_ok(
                self.nodes@,
                s2,
                i,
            ) by {
                if i == 0 {
                } else if i == 1 {
                    assert(Self::node_ok(pre.nodes@, s, 0));
                } else {
                    assert(Self::node_ok(pre.nodes@, s, i - 1));
                    assert(s[i - 1] != key);
                    assert(s[i - 1] != s[0]);
                }
            }
        }
    }

    /// Unlink `key` wherever it sits; reports whether it was listed.
    pub fn remove(&mut self, key: u64) -> (r: bool)
        requires
            old(self).wf(),
        ensures
            final(self).wf(),
            final(self)@ == old(self)@.remove_value(key),
            r == old(self)@.contains(key),
    {
        let ghost pre = *self;
        let ghost s = pre.order@;
        match self.nodes.remove(&key) {
            None => {
                proof {
                    assert(!s.to_set().contains(key));
                    assert(!s.contains(key));
                    s.index_of_first_ensures(key);
                    assert(s.remove_value(key) == s);
                    assert(self.nodes@ =~= pre.nodes@);
                }
                false
            },
            Some(node) => {
                proof {
                    assert(s.to_set().contains(key));
                    assert(s.contains(key));
                    s.index_of_first_ensures(key);
                }
                let ghost i = s.index_of_first(key).unwrap();
                proof {
                    assert(0 <= i < s.len() && s[i] == key);
                    assert(Self::node_ok(pre.nodes@, s, i));
                }
                match node.prev {
                    Some(p) => {
                        proof {
                            assert(Self::node_ok(pre.nodes@, s, i - 1));
                        }
                        if let Some(pn) = self.nodes.get(&p) {
                            let patched = LruNode { next: node.next, ..*pn };
                            self.nodes.insert(p, patched);
                        }
                    },
                    None => {
                        self.head = node.next;
                    },
                }
                match node.next {
                    Some(nk) => {
                        proof {
                            assert(Self::node_ok(pre.nodes@, s, i + 1));
                        }
                        if let Some(nn) = self.nodes.get(&nk) {
                            let patched = LruNode { prev: node.prev, ..*nn };
                            self.nodes.insert(nk, patched);
                        }
                    },
                    None => {
                        self.tail = node.prev;
                    },
                }
                let ghost s2 = s.remove(i);
                proof {
                    self.order@ = s2;
                    s.remove_ensures(i);
                    Self::lemma_remove_wf(pre, *self, key, i);
                    assert(s.index_of_first(key) == Some(i));
                    assert(s.remove_value(key) == s2);
                }
                true
            },
        }
    }

    /// The whole well-formedness argument for `remove`: after unlinking
    /// `s[i]` and re-pointing its neighbours at each other, the map
    /// mirrors the order with position `i` taken out.
    proof fn lemma_remove_wf(pre: LruList, post: LruList, key: u64, i: int)
        requires
            pre.wf(),
            0 <= i < pre.order@.len(),
            pre.order@[i] == key,
            post.order@ == pre.order@.remove(i),
            post.nodes@ == Self::patched_nodes(pre, key, i),
            post.head == if i == 0 {
                pre.nodes@[key].next
            } else {
                pre.head
            },
            post.tail == if i == pre.order@.len() - 1 {
                pre.nodes@[key].prev
            } else {
                pre.tail
            },
        ensures
            post.wf(),
    {
        let s = pre.order@;
        let s2 = post.order@;
        let n = s.len() as int;
        s.remove_ensures(i);
        assert(Self::node_ok(pre.nodes@, s, i));
        assert forall|j1: int, j2: int|
            0 <= j1 < s2.len() && 0 <= j2 < s2.len() && j1 != j2 implies s2[j1] != s2[j2] by {}
        assert(post.nodes@.dom() =~= s2.to_set()) by {
            assert forall|x: u64| s2.to_set().contains(x) implies post.nodes@.dom().contains(
                x,
            ) by {
                assert(s2.contains(x));
                let k = choose|k: int| 0 <= k < s2.len() && s2[k] == x;
                assert(x == if k < i {
                    s[k]
                } else {
                    s[k + 1]
                });
                assert(s.contains(x));
                assert(s.to_set().contains(x));
                assert(x != key);
            }
            assert forall|x: u64| post.nodes@.dom().contains(x) implies s2.to_set().contains(
                x,
            ) by {
                assert(s.to_set().contains(x) && x != key);
                assert(s.contains(x));
                let k = choose|k: int| 0 <= k < s.len() && s[k] == x;
                assert(k != i);
                if k < i {
                    assert(s2[k] == x);
                } else {
                    assert(s2[k - 1] == x);
                }
                assert(s2.contains(x));
            }
        }
        if s2.len() > 0 {
            if i == 0 {
                assert(Self::node_ok(pre.nodes@, s, 1));
                assert(post.head == Some(s2[0]));
            }
            if i == n - 1 {
                assert(Self::node_ok(pre.nodes@, s, n - 2));
                assert(post.tail == Some(s2[s2.len() - 1]));
            }
        }
        assert forall|j: int| 0 <= j < s2.len() implies #[trigger] Self::node_ok(
            post.nodes@,
            s2,
            j,
        ) by {
            if j < i - 1 {
                assert(Self::node_ok(pre.nodes@, s, j));
            } else if j == i - 1 {
                assert(Self::node_ok(pre.nodes@, s, j));
                assert(post.nodes@[s2[j]].next == pre.nodes@[key].next);
            } else if j == i {
                assert(Self::node_ok(pre.nodes@, s, j + 1));
                assert(post.nodes@[s2[j]].prev == pre.nodes@[key].prev);
            } else {
                assert(Self::node_ok(pre.nodes@, s, j + 1));
            }
        }
    }

    /// The map as `remove` leaves it: `key` gone, its neighbours (when
    /// they exist) re-pointed across the gap.
    spec fn patched_nodes(pre: LruList, key: u64, i: int) -> Map<u64, LruNode> {
        let s = pre.order@;
        let without = pre.nodes@.remove(key);
        let node = pre.nodes@[key];
        let after_prev = if i > 0 {
            without.insert(
                s[i - 1],
                LruNode { next: node.next, ..without[s[i - 1]] },
            )
        } else {
            without
        };
        if i < s.len() - 1 {
            after_prev.insert(
                s[i + 1],
                LruNode { prev: node.prev, ..after_prev[s[i + 1]] },
            )
        } else {
            after_prev
        }
    }

    /// Move `key` to the most-recently-used end; keys not listed are left
    /// alone.
    pub fn touch(&mut self, key: u64)
        requires
            old(self).wf(),
        ensures
            final(self).wf(),
            final(self)@ == if old(self)@.contains(key) {
                seq![key] + old(self)@.remove_value(key)
            } else {
                old(self)@
            },
    {
        let ghost s = self.order@;
        proof {
            s.index_of_first_ensures(key);
        }
        if self.remove(key) {
            proof {
                lemma_no_dup_remove_value_absent(s, key);
            }
            self.push_front(key);
        }
    }

    /// Take the least-recently-used key off the back of the list.
    pub fn pop_back(&mut self) -> (r: Option<u64>)
        requires
            old(self).wf(),
        ensures
            final(self).wf(),
            old(self)@.len() == 0 ==> r is None && final(self)@ == old(self)@,
            old(self)@.len() > 0 ==> r == Some(old(self)@.last()) && final(self)@ == old(
                self,
            )@.drop_last(),
    {
        let ghost s = self.order@;
        match self.tail {
            None => None,
            Some(t) => {
                proof {
                    assert(s[s.len() - 1] == t);
                    assert(s.contains(t));
                    s.index_of_first_ensures(t);
                    let i = s.index_of_first(t).unwrap();
                    assert(0 <= i < s.len() && s[i] == t);
                    assert(i == s.len() - 1);
                    s.remove_ensures(i);
                    assert(s.remove_value(t) =~= s.drop_last());
                }
                self.remove(t);
                Some(t)
            },
        }
    }

    /// The listed keys, most recently used first.
    pub fn iter(&self) -> (r: Vec<u64>)
        requires
            self.wf(),
        ensures
            r@ == self@,
    {
        let ghost s = self.order@;
        let mut result: Vec<u64> = Vec::new();
        let mut cur = self.head;
        proof {
            assert(s.take(0) =~= result@);
        }
        while cur.is_some()
            invariant
                self.wf(),
                s == self.order@,
                result@.len() <= s.len(),
                result@ == s.take(result@.len() as int),
                cur == if result@.len() == s.len() {
                    None::<u64>
                } else {
                    Some(s[result@.len() as int])
                },
            decreases s.len() - result@.len(),
        {
            let k = cur.unwrap();
            let ghost j = result@.len() as int;
            proof {
                assert(Self::node_ok(self.nodes@, s, j));
                assert(s.to_set().contains(s[j]));
            }
            let node = *self.nodes.get(&k).unwrap();
            result.push(k);
            cur = node.next;
            proof {
                assert(result@ =~= s.take(j + 1));
            }
        }
        proof {
            assert(result@ =~= s);
        }
        result
    }
}

impl View for LruList {
    type V = Seq<u64>;

    /// The keys in recency order, most recently used first.
    closed spec fn view(&self) -> Seq<u64> {
        self.order@
    }
}

/// How `remove_value` acts on a duplicate-free sequence: it takes out
/// exactly the one occurrence of the value, so the set of elements loses
/// the value and nothing else, distinctness is kept, and the length drops
/// by one exactly when the value was there.
pub proof fn lemma_no_dup_remove_value_to_set(s: Seq<u64>, key: u64)
    requires
        s.no_duplicates(),
    ensures
        s.remove_value(key).to_set() == s.to_set().remove(key),
        s.remove_value(key).no_duplicates(),
        s.contains(key) ==> s.remove_value(key).len() == s.len() - 1,
        !s.contains(key) ==> s.remove_value(key) == s,
{
    broadcast use vstd::set::group_set_axioms;

    s.index_of_first_ensures(key);
    let s2 = s.remove_value(key);
    if s.contains(key) {
        let i = s.index_of_first(key).unwrap();
        s.remove_ensures(i);
        assert forall|j1: int, j2: int|
            0 <= j1 < s2.len() && 0 <= j2 < s2.len() && j1 != j2 implies s2[j1] != s2[j2] by {}
        assert(s2.to_set() =~= s.to_set().remove(key)) by {
            assert forall|x: u64| s2.to_set().contains(x) implies s.to_set().remove(key).contains(
                x,
            ) by {
                assert(s2.contains(x));
                let k = choose|k: int| 0 <= k < s2.len() && s2[k] == x;
                assert(x == if k < i {
                    s[k]
                } else {
                    s[k + 1]
                });
                assert(s.contains(x));
                assert(s.to_set().contains(x));
                assert(x != key);
            }
            assert forall|x: u64| s.to_set().remove(key).contains(x) implies s2.to_set().contains(
                x,
            ) by {
                assert(s.contains(x) && x != key);
                let k = choose|k: int| 0 <= k < s.len() && s[k] == x;
                assert(k != i);
                if k < i {
                    assert(s2[k] == x);
                } else {
                    assert(s2[k - 1] == x);
                }
                assert(s2.contains(x));
            }
        }
    } else {
        assert(s2.to_set() =~= s.to_set().remove(key)) by {
            assert forall|x: u64| s.to_set().remove(key).contains(x) implies s2.to_set().contains(
                x,
            ) by {}
            assert forall|x: u64| s2.to_set().contains(x) implies s.to_set().remove(key).contains(
                x,
            ) by {
                assert(s.contains(x));
                assert(x != key);
            }
        }
    }
}

/// In a duplicate-free sequence, taking a value out takes out its only
/// occurrence: the result does not contain it.
pub proof fn lemma_no_dup_remove_value_absent(s: Seq<u64>, key: u64)
    requires
        s.no_duplicates(),
    ensures
        !s.remove_value(key).contains(key),
{
    s.index_of_first_ensures(key);
    if s.contains(key) {
        let i = s.index_of_first(key).unwrap();
        assert(0 <= i < s.len() && s[i] == key);
        s.remove_ensures(i);
        let s2 = s.remove(i);
        if s2.contains(key) {
            let j = choose|j: int| 0 <= j < s2.len() && s2[j] == key;
            if j < i {
                assert(s[j] == key);
            } else {
                assert(s[j + 1] == key);
            }
        }
    }
}

} // verus!

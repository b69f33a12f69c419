//! A fixed-size ring buffer for operation traces.

use vstd::prelude::*;

verus! {

/// One traced cache operation, as an observability layer records it.
#[derive(Clone, Copy, Debug, PartialEq, Eq, Structural)]
pub enum CacheOperation {
    /// A write, with the requested priority and the effective time to
    /// live.
    Put { key: u64, priority: u8, ttl_ms: u64 },
    /// A read, and whether it found a live value.
    Get { key: u64, hit: bool },
    /// An explicit removal.
    Delete { key: u64 },
    /// A removal the engine decided on by itself.
    Eviction { key: u64, reason: EvictionReason },
}

/// Why the engine removed an entry on its own.
#[derive(Clone, Copy, Debug, PartialEq, Eq, Structural)]
pub enum EvictionReason {
    /// Removed to keep the store within its capacity.
    CapacityExceeded,
    /// Removed because its time to live had passed.
    TTLExpired,
}

/// A ring that keeps the most recent items pushed into it, dropping the
/// oldest when it runs out of room. A buffer made with capacity `c` holds
/// up to `c - 1` items; its view lists them from oldest to newest.
pub struct CircularBuffer<T> {
    buffer: Vec<Option<T>>,
    head: usize,
    tail: usize,
    capacity: usize,
}

/// `i` taken back into `[0, cap)`, for `i` in `[0, 2 * cap)`: the only
/// wrap-around the ring's index arithmetic ever needs.
pub open spec fn wrap(i: int, cap: int) -> int {
    if i < cap {
        i
    } else {
        i - cap
    }
}

/// How many items sit between `head` and `tail` going forward around a
/// ring of size `cap`.
pub open spec fn ring_len(head: int, tail: int, cap: int) -> int {
    if tail >= head {
        tail - head
    } else {
        tail + cap - head
    }
}

impl<T: Copy> CircularBuffer<T> {
    /// The slots counted clockwise from `head` up to `tail` hold the live
    /// items; everything else is dead space.
    pub closed spec fn wf(&self) -> bool {
        &&& self.capacity >= 1
        &&& self.buffer@.len() == self.capacity
        &&& self.head < self.capacity
        &&& self.tail < self.capacity
        &&& forall|i: int|
            0 <= i < ring_len(self.head as int, self.tail as int, self.capacity as int)
                ==> (#[trigger] self.buffer@[wrap(self.head + i, self.capacity as int)]) is Some
    }

    /// How many items a buffer of this capacity can hold at once.
    pub closed spec fn spec_capacity(&self) -> int {
        self.capacity as int
    }

    /// An empty ring over `capacity` slots. A ring with no slots could
    /// hold nothing and index nowhere, so at least one is required.
    pub fn new(capacity: usize) -> (r: CircularBuffer<T>)
        requires
            capacity >= 1,
        ensures
            r.wf(),
            r@ == Seq::<T>::empty(),
            r.spec_capacity() == capacity,
    {
        let mut buffer: Vec<Option<T>> = Vec::new();
        let mut i: usize = 0;
        while i < capacity
            invariant
                i <= capacity,
                buffer@.len() == i,
            decreases capacity - i,
        {
            buffer.push(None);
            i += 1;
        }
        CircularBuffer { buffer, head: 0, tail: 0, capacity }
    }

    /// Append `item` as the newest element; when the ring is full, the
    /// oldest element makes room for it.
    pub fn push(&mut self, item: T)
        requires
            old(self).wf(),
        ensures
            final(self).wf(),
            final(self).spec_capacity() == old(self).spec_capacity(),
            final(self)@ == if old(self)@.len() == old(self).spec_capacity() - 1 {
                old(self)@.push(item).drop_first()
            } else {
                old(self)@.push(item)
            },
    {
        let ghost pre = *self;
        self.buffer.set(self.tail, Some(item));
        self.tail = if self.tail + 1 == self.capacity {
            0
        } else {
            self.tail + 1
        };
        if self.tail == self.head {
            self.head = if self.head + 1 == self.capacity {
                0
            } else {
                self.head + 1
            };
        }
        proof {
            let cap = self.capacity as int;
            let n = ring_len(pre.head as int, pre.tail as int, cap);
            assert forall|i: int| 0 <= i < ring_len(self.head as int, self.tail as int, cap)
                implies (#[trigger] self.buffer@[wrap(self.head + i, cap)]) is Some by {
                if self.head == pre.head {
                    if i < n {
                        assert(self.buffer@[wrap(pre.head + i, cap)] is Some);
                    } else {
                        assert(wrap(self.head + i, cap) == pre.tail as int);
                    }
                } else {
                    if i < n - 1 {
                        assert(wrap(self.head + i, cap) == wrap(pre.head + (i + 1), cap));
                        assert(self.buffer@[wrap(pre.head + (i + 1), cap)] is Some);
                    } else {
                        assert(wrap(self.head + i, cap) == pre.tail as int);
                    }
                }
            }
            if pre@.len() == cap - 1 {
                // the ring was full: everything shifts down one slot
                assert(wrap(pre.tail + 1, cap) == pre.head as int);
                assert(ring_len(self.head as int, self.tail as int, cap) == cap - 1);
                assert forall|i: int| 0 <= i < cap - 1
                    implies self@[i] == #[trigger] pre@.push(item).drop_first()[i] by {
                    assert(wrap(self.head + i, cap) == wrap(pre.head + (i + 1), cap));
                    if i < cap - 2 {
                        assert(wrap(pre.head + (i + 1), cap) != pre.tail as int);
                        assert(self@[i] == pre@[i + 1]);
                    } else {
                        assert(wrap(pre.head + (i + 1), cap) == pre.tail as int);
                        assert(self@[i] == item);
                    }
                }
                assert(self@ =~= pre@.push(item).drop_first());
            } else {
                assert forall|i: int| 0 <= i < n + 1 implies self@[i] == #[trigger] pre@.push(
                    item,
                )[i] by {
                    if i < n {
                        assert(wrap(pre.head + i, cap) != pre.tail as int);
                        assert(self@[i] == pre@[i]);
                    } else {
                        assert(wrap(pre.head + i, cap) == pre.tail as int);
                    }
                }
                assert(self@ =~= pre@.push(item));
            }
        }
    }

    /// The live items, oldest first.
    pub fn to_vec(&self) -> (r: Vec<T>)
        requires
            self.wf(),
        ensures
            r@ == self@,
    {
        let mut result: Vec<T> = Vec::new();
        let mut idx = self.head;
        proof {
            assert(self@.take(0) =~= result@);
        }
        while idx != self.tail
            invariant
                self.wf(),
                result@.len() <= self@.len(),
                result@ == self@.take(result@.len() as int),
                idx == wrap(self.head + result@.len(), self.capacity as int),
            decreases self@.len() - result@.len(),
        {
            let ghost j = result@.len() as int;
            let ghost cap = self.capacity as int;
            proof {
                // idx has not yet reached tail, so some live items remain
                assert(j < self@.len()) by {
                    if j == ring_len(self.head as int, self.tail as int, cap) {
                        assert(wrap(self.head + j, cap) == self.tail as int);
                    }
                }
                assert(self.buffer@[wrap(self.head + j, cap)] is Some);
            }
            if let Some(item) = self.buffer[idx] {
                result.push(item);
            }
            idx = if idx + 1 == self.capacity {
                0
            } else {
                idx + 1
            };
            proof {
                assert(result@ =~= self@.take(j + 1));
            }
        }
        proof {
            assert(result@.len() == self@.len()) by {
                let j = result@.len() as int;
                let cap = self.capacity as int;
                if j < self@.len() {
                    assert(wrap(self.head + j, cap) != self.tail as int);
                }
            }
            assert(result@ =~= self@);
        }
        result
    }
}

impl<T: Copy> View for CircularBuffer<T> {
    type V = Seq<T>;

    closed spec fn view(&self) -> Seq<T> {
        Seq::new(
            ring_len(self.head as int, self.tail as int, self.capacity as int) as nat,
            |i: int| self.buffer@[wrap(self.head + i, self.capacity as int)].unwrap(),
        )
    }
}

} // verus!

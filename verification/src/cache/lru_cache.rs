//! A bounded cache of slot numbers with least-recently-used eviction.
//!
//! The cache keeps its entries in recency order: the front of the order
//! (index 0) is the most recently used slot, the back is the least recently
//! used one.  `get` and `put` on a slot that is already present move it to
//! the front; inserting into a full cache evicts the back.

use vstd::prelude::*;

verus! {

/// What becomes of the recency order when `key` is touched: if present, it
/// moves to the front; otherwise the order is unchanged.
pub open spec fn move_to_front_spec(s: Seq<u64>, key: u64) -> Seq<u64> {
    if s.contains(key) {
        seq![key] + s.remove(s.index_of(key))
    } else {
        s
    }
}

/// What becomes of the recency order when `key` is stored in a cache of
/// capacity `cap`: a present key only moves to the front; an absent key is
/// pushed to the front, and the back is evicted if the cache would overflow.
pub open spec fn put_spec(s: Seq<u64>, key: u64, cap: nat) -> Seq<u64> {
    if s.contains(key) {
        move_to_front_spec(s, key)
    } else if s.len() + 1 > cap {
        (seq![key] + s).drop_last()
    } else {
        seq![key] + s
    }
}

/// A bounded LRU cache of slot numbers.  The view is the recency order,
/// most recently used first.
pub struct LruCache {
    order: Vec<u64>,
    capacity: usize,
}

impl View for LruCache {
    type V = Seq<u64>;

    closed spec fn view(&self) -> Seq<u64> {
        self.order@
    }
}

impl LruCache {
    /// The configured capacity, at least 1.
    pub closed spec fn cap(&self) -> nat {
        self.capacity as nat
    }

    /// The cache never holds duplicates and never exceeds its capacity.
    pub open spec fn wf(&self) -> bool {
        &&& self.cap() >= 1
        &&& self@.no_duplicates()
        &&& self@.len() <= self.cap()
    }

    /// Creates an empty cache.  A capacity of 0 is coerced to 1.
    pub fn new(capacity: usize) -> (cache: LruCache)
        ensures
            cache.wf(),
            cache@ == Seq::<u64>::empty(),
            cache.cap() == if capacity == 0 { 1nat } else { capacity as nat },
    {
        let effective_capacity = if capacity == 0 { 1 } else { capacity };
        LruCache { order: Vec::new(), capacity: effective_capacity }
    }

    /// The position of `key` in the recency order, if present.
    fn position_of(&self, key: u64) -> (pos: Option<usize>)
        requires
            self.wf(),
        ensures
            match pos {
                Some(i) => i < self@.len() && self@[i as int] == key,
                None => !self@.contains(key),
            },
    {
        let mut i: usize = 0;
        while i < self.order.len()
            invariant
                i <= self@.len(),
                forall|j: int| 0 <= j < i ==> self@[j] != key,
            decreases self@.len() - i,
        {
            if self.order[i] == key {
                return Some(i);
            }
            i += 1;
        }
        None
    }

    /// Looks a slot up.  A hit also counts as a use: the slot moves to the
    /// front of the recency order, so a later eviction spares it longest.
    pub fn get(&mut self, key: &u64) -> (hit: bool)
        requires
            old(self).wf(),
        ensures
            final(self).wf(),
            final(self).cap() == old(self).cap(),
            hit == old(self)@.contains(*key),
            final(self)@ == move_to_front_spec(old(self)@, *key),
    {
        match self.position_of(*key) {
            Some(pos) => {
                let k = *key;
                proof {
                    lemma_unique_index(self@, k, pos as int);
                }
                self.order.remove(pos);
                self.order.insert(0, k);
                proof {
                    lemma_move_to_front_preserves_wf(old(self)@, k);
                }
                true
            }
            None => false,
        }
    }

    /// Stores a slot.  A slot that is already present only moves to the
    /// front; an absent slot is pushed to the front, evicting the least
    /// recently used slot if the cache is full.
    pub fn put(&mut self, key: u64)
        requires
            old(self).wf(),
        ensures
            final(self).wf(),
            final(self).cap() == old(self).cap(),
            final(self)@ == put_spec(old(self)@, key, old(self).cap()),
    {
        match self.position_of(key) {
            Some(pos) => {
                proof {
                    lemma_unique_index(self@, key, pos as int);
                }
                self.order.remove(pos);
                self.order.insert(0, key);
                proof {
                    lemma_move_to_front_preserves_wf(old(self)@, key);
                }
            }
            None => {
                self.order.insert(0, key);
                if self.order.len() > self.capacity {
                    self.order.pop();
                }
                proof {
                    lemma_put_absent_preserves_wf(old(self)@, key, old(self).cap());
                }
            }
        }
    }

    /// The cached slots in recency order, most recently used first.
    pub fn get_all_slots(&self) -> (slots: Vec<u64>)
        ensures
            slots@ == self@,
    {
        let mut slots: Vec<u64> = Vec::new();
        let mut i: usize = 0;
        while i < self.order.len()
            invariant
                i <= self@.len(),
                slots@ == self@.subrange(0, i as int),
            decreases self@.len() - i,
        {
            slots.push(self.order[i]);
            i += 1;
        }
        proof {
            assert(slots@ =~= self@);
        }
        slots
    }
}

/// In a duplicate-free order, any position holding `key` is the one that
/// `index_of` names.
proof fn lemma_unique_index(s: Seq<u64>, key: u64, i: int)
    requires
        s.no_duplicates(),
        0 <= i < s.len(),
        s[i] == key,
    ensures
        s.contains(key),
        s.index_of(key) == i,
{
    assert(s.contains(key));
}

/// Moving a present key to the front keeps the order duplicate-free and
/// keeps its length.
proof fn lemma_move_to_front_preserves_wf(s: Seq<u64>, key: u64)
    requires
        s.no_duplicates(),
        s.contains(key),
    ensures
        move_to_front_spec(s, key).no_duplicates(),
        move_to_front_spec(s, key).len() == s.len(),
        move_to_front_spec(s, key) == seq![key] + s.remove(s.index_of(key)),
{
    let i = s.index_of(key);
    let rest = s.remove(i);
    s.remove_ensures(i);
    assert forall|j: int| 0 <= j < rest.len() implies rest[j] != key by {
        if j < i {
            assert(rest[j] == s[j]);
        } else {
            assert(rest[j] == s[j + 1]);
        }
    }
    assert((seq![key] + rest).no_duplicates());
}

/// Pushing an absent key to the front, then trimming to `cap`, keeps the
/// order duplicate-free and bounded.
proof fn lemma_put_absent_preserves_wf(s: Seq<u64>, key: u64, cap: nat)
    requires
        s.no_duplicates(),
        !s.contains(key),
        s.len() <= cap,
        cap >= 1,
    ensures
        put_spec(s, key, cap).no_duplicates(),
        put_spec(s, key, cap).len() <= cap,
        put_spec(s, key, cap) == if s.len() + 1 > cap {
            (seq![key] + s).drop_last()
        } else {
            seq![key] + s
        },
{
    let pushed = seq![key] + s;
    assert(pushed.no_duplicates());
    if s.len() + 1 > cap {
        assert(pushed.drop_last().no_duplicates()) by {
            assert forall|p: int, q: int|
                0 <= p < q < pushed.drop_last().len() implies pushed.drop_last()[p]
                != pushed.drop_last()[q] by {
                assert(pushed[p] != pushed[q]);
            }
        }
    }
}

} // verus!

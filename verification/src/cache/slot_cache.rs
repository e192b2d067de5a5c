//! A bounded, insertion-ordered cache of confirmed slot numbers with FIFO
//! eviction.
//!
//! The cache pairs an ordered sequence (oldest first) with a concurrent
//! membership map from the `scc` crate that mirrors the sequence, as the
//! running service answers membership probes from the map.  The map is
//! reached only through the trusted wrappers below; everything proved about
//! the cache rests on their contracts.

use vstd::prelude::*;

verus! {

#[verifier::external_type_specification]
#[verifier::external_body]
#[verifier::reject_recursive_types(K)]
#[verifier::reject_recursive_types(V)]
#[verifier::reject_recursive_types(H)]
pub struct ExSccHashMap<K, V, H>(scc::HashMap<K, V, H>) where H: std::hash::BuildHasher;

/// The set of keys a membership map holds.
pub uninterp spec fn member_set(m: scc::HashMap<u64, ()>) -> Set<u64>;

/// Relies on scc::HashMap::new: a freshly created map holds no entries.
#[verifier::external_body]
fn member_set_new() -> (m: scc::HashMap<u64, ()>)
    ensures
        member_set(m) == Set::<u64>::empty(),
{
    scc::HashMap::new()
}

/// Relies on scc::HashMap::insert_sync: the pair is inserted only when the
/// key is absent; when the key is present the map is left as it is and the
/// pair is handed back as an error.
#[verifier::external_body]
fn member_set_insert(m: &mut scc::HashMap<u64, ()>, key: u64) -> (inserted: bool)
    ensures
        inserted == !member_set(*old(m)).contains(key),
        member_set(*final(m)) == member_set(*old(m)).insert(key),
{
    m.insert_sync(key, ()).is_ok()
}

/// Relies on scc::HashMap::contains_sync: whether the key is present.
#[verifier::external_body]
fn member_set_contains(m: &scc::HashMap<u64, ()>, key: u64) -> (present: bool)
    ensures
        present == member_set(*m).contains(key),
{
    m.contains_sync(&key)
}

/// Relies on scc::HashMap::remove_sync: the entry under the key, if any, is
/// removed, and the rest of the map is left as it is.
#[verifier::external_body]
fn member_set_remove(m: &mut scc::HashMap<u64, ()>, key: u64) -> (removed: bool)
    ensures
        removed == member_set(*old(m)).contains(key),
        member_set(*final(m)) == member_set(*old(m)).remove(key),
{
    m.remove_sync(&key).is_some()
}

/// What becomes of the insertion order when `slot` is inserted into a window
/// of capacity `cap`: a present slot changes nothing; an absent slot is
/// appended, and the oldest slot is evicted if the window would overflow.
pub open spec fn window_insert_spec(s: Seq<u64>, slot: u64, cap: nat) -> Seq<u64> {
    if s.contains(slot) {
        s
    } else {
        let pushed = s.push(slot);
        if pushed.len() > cap {
            pushed.drop_first()
        } else {
            pushed
        }
    }
}

/// The insertion order after inserting every element of `slots` in turn.
pub open spec fn window_insert_all_spec(s: Seq<u64>, slots: Seq<u64>, cap: nat) -> Seq<u64>
    decreases slots.len(),
{
    if slots.len() == 0 {
        s
    } else {
        window_insert_all_spec(window_insert_spec(s, slots[0], cap), slots.skip(1), cap)
    }
}

/// A bounded FIFO cache of confirmed slot numbers.  The view is the
/// insertion order, oldest first.
pub struct SlotCache {
    slots: scc::HashMap<u64, ()>,
    order: Vec<u64>,
    capacity: usize,
}

impl View for SlotCache {
    type V = Seq<u64>;

    closed spec fn view(&self) -> Seq<u64> {
        self.order@
    }
}

impl SlotCache {
    /// The configured capacity, at least 1.
    pub closed spec fn cap(&self) -> nat {
        self.capacity as nat
    }

    /// The membership map mirrors the insertion order exactly.
    pub closed spec fn mirrored(&self) -> bool {
        member_set(self.slots) == self@.to_set()
    }

    /// The order is duplicate-free and bounded, and the membership map
    /// mirrors it exactly.
    pub open spec fn wf(&self) -> bool {
        &&& self.cap() >= 1
        &&& self@.no_duplicates()
        &&& self@.len() <= self.cap()
        &&& self.mirrored()
    }

    /// Creates an empty cache.  A capacity of 0 is coerced to 1.
    pub fn new(capacity: usize) -> (cache: SlotCache)
        ensures
            cache.wf(),
            cache@ == Seq::<u64>::empty(),
            cache.cap() == if capacity == 0 { 1nat } else { capacity as nat },
    {
        let effective_capacity = if capacity == 0 { 1 } else { capacity };
        let cache = SlotCache {
            slots: member_set_new(),
            order: Vec::new(),
            capacity: effective_capacity,
        };
        proof {
            assert(cache@.to_set() =~= Set::<u64>::empty());
        }
        cache
    }

    /// Whether the slot is in the window.  Answered from the membership map;
    /// no side effect.
    pub fn contains(&self, slot: &u64) -> (present: bool)
        requires
            self.wf(),
        ensures
            present == self@.contains(*slot),
    {
        let present = member_set_contains(&self.slots, *slot);
        proof {
            assert(self@.to_set().contains(*slot) == self@.contains(*slot));
        }
        present
    }

    /// The most recently inserted slot, or `None` while the window is empty.
    pub fn get_latest_cached_slot(&self) -> (latest: Option<u64>)
        ensures
            latest == if self@.len() == 0 {
                None::<u64>
            } else {
                Some(self@.last())
            },
    {
        if self.order.len() == 0 {
            None
        } else {
            Some(self.order[self.order.len() - 1])
        }
    }

    /// Inserts a confirmed slot.  A slot that is already present is left
    /// where it is (no reorder, no eviction); an absent slot is appended,
    /// and the oldest slot is evicted if the window would overflow.
    pub fn insert(&mut self, slot: u64)
        requires
            old(self).wf(),
        ensures
            final(self).wf(),
            final(self).cap() == old(self).cap(),
            final(self)@ == window_insert_spec(old(self)@, slot, old(self).cap()),
    {
        proof {
            assert(old(self)@.to_set().contains(slot) == old(self)@.contains(slot));
        }
        let inserted = member_set_insert(&mut self.slots, slot);
        if inserted {
            self.order.push(slot);
            proof {
                assert(member_set(self.slots) =~= self@.to_set()) by {
                    assert(self@ == old(self)@.push(slot));
                    assert forall|x: u64| self@.to_set().contains(x) == member_set(
                        self.slots,
                    ).contains(x) by {
                        lemma_push_to_set(old(self)@, slot, x);
                    }
                }
            }
            if self.order.len() > self.capacity {
                let ghost pushed = self@;
                let oldest = self.order.remove(0);
                member_set_remove(&mut self.slots, oldest);
                proof {
                    assert(self@ == pushed.drop_first());
                    lemma_drop_first_to_set(pushed, oldest);
                    assert(member_set(self.slots) =~= self@.to_set());
                    lemma_drop_first_no_duplicates(pushed);
                }
            }
        } else {
            proof {
                assert(member_set(self.slots) =~= old(self)@.to_set());
            }
        }
    }

    /// The cached slots in insertion order, oldest first.
    pub fn get_all_slots(&self) -> (slots: Vec<u64>)
        ensures
            slots@ == self@,
    {
        let mut slots: Vec<u64> = Vec::new();
        let mut i: usize = 0;
        while i < self.order.len()
            invariant
                i <= self@.len(),
                slots@ == self@.subrange(0, i as int),
            decreases self@.len() - i,
        {
            slots.push(self.order[i]);
            i += 1;
        }
        proof {
            assert(slots@ =~= self@);
        }
        slots
    }
}

/// FIFO law: after inserting a run of distinct slots into an empty window of
/// capacity `cap`, the window holds exactly the last `cap` of them (all of
/// them while the run is shorter), in insertion order.
pub proof fn lemma_window_fifo(slots: Seq<u64>, cap: nat)
    requires
        cap >= 1,
        slots.no_duplicates(),
    ensures
        window_insert_all_spec(Seq::empty(), slots, cap) == if slots.len() <= cap {
            slots
        } else {
            slots.skip(slots.len() - cap)
        },
{
    lemma_window_fifo_general(Seq::empty(), slots, cap);
    assert(Seq::<u64>::empty() + slots =~= slots);
    if slots.len() > cap {
        assert((Seq::<u64>::empty() + slots).skip((Seq::<u64>::empty() + slots).len() - cap)
            =~= slots.skip(slots.len() - cap));
    }
}

/// FIFO law, generalized to a window already holding slots disjoint from the
/// run: the result is the tail of the concatenation, trimmed to `cap`.
proof fn lemma_window_fifo_general(s: Seq<u64>, slots: Seq<u64>, cap: nat)
    requires
        cap >= 1,
        s.no_duplicates(),
        slots.no_duplicates(),
        s.len() <= cap,
        forall|x: u64| slots.contains(x) ==> !s.contains(x),
    ensures
        window_insert_all_spec(s, slots, cap) == {
            let combined = s + slots;
            if combined.len() <= cap {
                combined
            } else {
                combined.skip(combined.len() - cap)
            }
        },
    decreases slots.len(),
{
    let combined = s + slots;
    if slots.len() == 0 {
        assert(combined =~= s);
    } else {
        let x = slots[0];
        assert(slots.contains(x));
        assert(!s.contains(x));
        let pushed = s.push(x);
        let s1 = window_insert_spec(s, x, cap);
        let rest = slots.skip(1);
        assert(rest =~= slots.drop_first());
        lemma_drop_first_no_duplicates(slots);
        assert forall|j: int| 0 <= j < pushed.len() implies (pushed[j] == x || s.contains(
            pushed[j],
        )) by {
            if j < s.len() {
                assert(s.contains(s[j]));
            }
        }
        assert(pushed.no_duplicates());
        assert forall|y: u64| rest.contains(y) implies !pushed.contains(y) by {
            let j = choose|j: int| 0 <= j < rest.len() && rest[j] == y;
            assert(slots[j + 1] == y);
            assert(slots.contains(y));
            assert(y != x);
            if pushed.contains(y) {
                let k = choose|k: int| 0 <= k < pushed.len() && pushed[k] == y;
                assert(k < s.len());
                assert(s.contains(y));
            }
        }
        if pushed.len() <= cap {
            assert(s1 == pushed);
            lemma_window_fifo_general(s1, rest, cap);
            assert(s1 + rest =~= combined);
        } else {
            assert(s1 == pushed.drop_first());
            lemma_drop_first_no_duplicates(pushed);
            assert forall|y: u64| rest.contains(y) implies !s1.contains(y) by {
                if s1.contains(y) {
                    let k = choose|k: int| 0 <= k < s1.len() && s1[k] == y;
                    assert(pushed[k + 1] == y);
                    assert(pushed.contains(y));
                }
            }
            lemma_window_fifo_general(s1, rest, cap);
            let combined1 = s1 + rest;
            assert(combined1 =~= combined.skip(1));
            assert(combined.len() > cap);
            if combined1.len() <= cap {
                assert(combined.len() - cap == 1);
                assert(combined1 =~= combined.skip(combined.len() - cap));
            } else {
                assert(combined1.skip(combined1.len() - cap) =~= combined.skip(
                    combined.len() - cap,
                ));
            }
        }
    }
}

/// Appending an element extends the element set by exactly that element.
proof fn lemma_push_to_set(s: Seq<u64>, slot: u64, x: u64)
    ensures
        s.push(slot).to_set().contains(x) == s.to_set().insert(slot).contains(x),
{
    if s.push(slot).contains(x) {
        let i = choose|i: int| 0 <= i < s.push(slot).len() && s.push(slot)[i] == x;
        if i < s.len() {
            assert(s.contains(x));
        }
    }
    if s.contains(x) {
        let i = choose|i: int| 0 <= i < s.len() && s[i] == x;
        assert(s.push(slot)[i] == x);
    }
    if x == slot {
        assert(s.push(slot)[s.len() as int] == slot);
    }
}

/// Dropping the first element of a duplicate-free order removes exactly that
/// element from the element set.
proof fn lemma_drop_first_to_set(s: Seq<u64>, first: u64)
    requires
        s.no_duplicates(),
        s.len() >= 1,
        s[0] == first,
    ensures
        s.drop_first().to_set() == s.to_set().remove(first),
{
    let rest = s.drop_first();
    assert forall|x: u64| rest.to_set().contains(x) == s.to_set().remove(first).contains(x) by {
        if rest.contains(x) {
            let i = choose|i: int| 0 <= i < rest.len() && rest[i] == x;
            assert(s[i + 1] == x);
            assert(s.contains(x));
            assert(x != first);
        }
        if s.contains(x) && x != first {
            let i = choose|i: int| 0 <= i < s.len() && s[i] == x;
            assert(i != 0);
            assert(rest[i - 1] == x);
            assert(rest.contains(x));
        }
    }
    assert(rest.to_set() =~= s.to_set().remove(first));
}

/// Dropping the first element keeps an order duplicate-free.
proof fn lemma_drop_first_no_duplicates(s: Seq<u64>)
    requires
        s.no_duplicates(),
        s.len() >= 1,
    ensures
        s.drop_first().no_duplicates(),
{
    let rest = s.drop_first();
    assert forall|p: int, q: int| 0 <= p < q < rest.len() implies rest[p] != rest[q] by {
        assert(s[p + 1] != s[q + 1]);
    }
}

} // verus!

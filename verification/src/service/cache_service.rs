//! Read-only snapshots of the two caches, as the serving layer exposes them.

use crate::cache::{LruCache, SlotCache};
use vstd::prelude::*;

verus! {

/// All slots in the window cache, oldest first.
pub fn get_all_latest_slots(cache: &SlotCache) -> (slots: Vec<u64>)
    ensures
        slots@ == cache@,
{
    cache.get_all_slots()
}

/// All slots in the LRU cache, most recently used first.
pub fn get_all_lru_slots(lru_cache: &LruCache) -> (slots: Vec<u64>)
    ensures
        slots@ == lru_cache@,
{
    lru_cache.get_all_slots()
}

} // verus!

use solana_caching_service::cache::{LruCache, SlotCache};
use solana_caching_service::service::cache_service::{get_all_latest_slots, get_all_lru_slots};

#[test]
fn test_get_all_latest_slots_service() {
    let mut slot_cache = SlotCache::new(10);
    slot_cache.insert(100);
    slot_cache.insert(101);

    let result = get_all_latest_slots(&slot_cache);

    assert_eq!(result, vec![100, 101]);
}

#[test]
fn test_get_all_lru_slots_service() {
    let mut lru_cache = LruCache::new(10);
    lru_cache.put(200);
    lru_cache.put(201);

    let result = get_all_lru_slots(&lru_cache);

    assert_eq!(result, vec![201, 200]);
}

use solana_caching_service::cache::{LruCache, SlotCache};
use solana_caching_service::circuit_breaker::CircuitBreaker;
use solana_caching_service::rpc::{RpcApi, RpcError};
use solana_caching_service::service::confirmation_service::{
    confirm, confirm_with_lru, confirm_with_lru_and_breaker, ConfirmationStatus,
};

struct MockRpcApi {
    get_blocks_responses: Vec<Result<Vec<u64>, RpcError>>,
    get_blocks_calls: Vec<(u64, Option<u64>)>,
}

impl MockRpcApi {
    fn new(get_blocks_responses: Vec<Result<Vec<u64>, RpcError>>) -> Self {
        MockRpcApi { get_blocks_responses, get_blocks_calls: Vec::new() }
    }
}

impl RpcApi for MockRpcApi {
    fn get_slot(&mut self) -> Result<u64, RpcError> {
        panic!("get_slot is not expected in these tests");
    }

    fn get_blocks(&mut self, start_slot: u64, end_slot: Option<u64>) -> Result<Vec<u64>, RpcError> {
        self.get_blocks_calls.push((start_slot, end_slot));
        self.get_blocks_responses.remove(0)
    }
}

#[test]
fn test_service_cache_hit() {
    let mut cache = SlotCache::new(10);
    cache.insert(123);
    let mut mock_rpc = MockRpcApi::new(vec![]);

    let result = confirm(&cache, &mut mock_rpc, 123);

    assert_eq!(result, ConfirmationStatus::Confirmed);
    assert_eq!(mock_rpc.get_blocks_calls.len(), 0);
}

#[test]
fn test_service_cache_miss_rpc_confirmed() {
    let cache = SlotCache::new(10);
    let mut mock_rpc = MockRpcApi::new(vec![Ok(vec![456])]);

    let result = confirm(&cache, &mut mock_rpc, 456);

    assert_eq!(result, ConfirmationStatus::Confirmed);
    assert_eq!(mock_rpc.get_blocks_calls, vec![(456, Some(456))]);
}

#[test]
fn test_service_cache_miss_rpc_not_confirmed() {
    let cache = SlotCache::new(10);
    let mut mock_rpc = MockRpcApi::new(vec![Ok(vec![])]);

    let result = confirm(&cache, &mut mock_rpc, 789);

    assert_eq!(result, ConfirmationStatus::NotConfirmed);
    assert_eq!(mock_rpc.get_blocks_calls, vec![(789, Some(789))]);
}

#[test]
fn test_lru_service_hit_in_primary_cache() {
    let mut primary_cache = SlotCache::new(10);
    primary_cache.insert(100);
    let mut lru_cache = LruCache::new(10);
    let mut mock_rpc = MockRpcApi::new(vec![]);

    let result = confirm_with_lru(&primary_cache, &mut lru_cache, &mut mock_rpc, 100);

    assert_eq!(result, ConfirmationStatus::Confirmed);
    assert_eq!(mock_rpc.get_blocks_calls.len(), 0);
}

#[test]
fn test_lru_service_hit_in_lru_cache() {
    let primary_cache = SlotCache::new(10);
    let mut lru_cache = LruCache::new(10);
    lru_cache.put(200);
    let mut mock_rpc = MockRpcApi::new(vec![]);

    let result = confirm_with_lru(&primary_cache, &mut lru_cache, &mut mock_rpc, 200);

    assert_eq!(result, ConfirmationStatus::Confirmed);
    assert_eq!(mock_rpc.get_blocks_calls.len(), 0);
}

#[test]
fn test_lru_service_miss_both_caches_rpc_confirms_and_caches() {
    let primary_cache = SlotCache::new(10);
    let mut lru_cache = LruCache::new(10);
    let mut mock_rpc = MockRpcApi::new(vec![Ok(vec![300])]);

    let result = confirm_with_lru(&primary_cache, &mut lru_cache, &mut mock_rpc, 300);

    assert_eq!(result, ConfirmationStatus::Confirmed);
    assert_eq!(mock_rpc.get_blocks_calls, vec![(300, Some(300))]);
    assert!(lru_cache.get(&300), "Slot should be added to LRU cache on RPC success");
}

#[test]
fn test_lru_service_miss_both_caches_rpc_not_confirmed() {
    let primary_cache = SlotCache::new(10);
    let mut lru_cache = LruCache::new(10);
    let mut mock_rpc = MockRpcApi::new(vec![Ok(vec![])]);

    let result = confirm_with_lru(&primary_cache, &mut lru_cache, &mut mock_rpc, 400);

    assert_eq!(result, ConfirmationStatus::NotConfirmed);
    assert_eq!(mock_rpc.get_blocks_calls, vec![(400, Some(400))]);
    assert!(!lru_cache.get(&400), "Slot should not be added to LRU cache on RPC failure");
}

#[test]
fn test_cb_service_succeeds_when_circuit_is_closed() {
    let primary_cache = SlotCache::new(10);
    let mut lru_cache = LruCache::new(10);
    let mut mock_rpc = MockRpcApi::new(vec![Ok(vec![100])]);
    let mut circuit_breaker = CircuitBreaker::new(3, 10_000);

    let result = confirm_with_lru_and_breaker(
        &primary_cache,
        &mut lru_cache,
        &mut circuit_breaker,
        &mut mock_rpc,
        100,
        0,
    );

    assert_eq!(result, ConfirmationStatus::Confirmed);
    assert_eq!(mock_rpc.get_blocks_calls, vec![(100, Some(100))]);
    assert!(lru_cache.get(&100));
}

#[test]
fn test_cb_service_trips_circuit_and_then_rejects_request() {
    let primary_cache = SlotCache::new(10);
    let mut lru_cache = LruCache::new(10);
    let mut mock_rpc = MockRpcApi::new(vec![Err(RpcError::Rpc)]);
    let mut circuit_breaker = CircuitBreaker::new(1, 10_000);

    let first_result = confirm_with_lru_and_breaker(
        &primary_cache,
        &mut lru_cache,
        &mut circuit_breaker,
        &mut mock_rpc,
        200,
        0,
    );
    assert_eq!(first_result, ConfirmationStatus::Error);

    let second_result = confirm_with_lru_and_breaker(
        &primary_cache,
        &mut lru_cache,
        &mut circuit_breaker,
        &mut mock_rpc,
        201,
        0,
    );
    assert_eq!(second_result, ConfirmationStatus::Error);

    assert_eq!(mock_rpc.get_blocks_calls, vec![(200, Some(200))], "the open circuit must reject the second request without a remote call");
}

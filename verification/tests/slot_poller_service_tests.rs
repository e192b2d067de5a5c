use solana_caching_service::cache::SlotCache;
use solana_caching_service::circuit_breaker::CircuitBreaker;
use solana_caching_service::metrics::Metrics;
use solana_caching_service::rpc::{RpcApi, RpcError};
use solana_caching_service::service::slot_poller::{
    poll, poll_with_retry, poll_with_transient_retry, poll_with_transient_retry_and_signals,
    poll_with_transient_retry_and_signals_and_breaker, PollOutcome,
};

struct MockRpcApi {
    get_slot_responses: Vec<Result<u64, RpcError>>,
    get_blocks_responses: Vec<Result<Vec<u64>, RpcError>>,
    get_slot_calls: usize,
    get_blocks_calls: Vec<(u64, Option<u64>)>,
}

impl MockRpcApi {
    fn new(
        get_slot_responses: Vec<Result<u64, RpcError>>,
        get_blocks_responses: Vec<Result<Vec<u64>, RpcError>>,
    ) -> Self {
        MockRpcApi {
            get_slot_responses,
            get_blocks_responses,
            get_slot_calls: 0,
            get_blocks_calls: Vec::new(),
        }
    }
}

impl RpcApi for MockRpcApi {
    fn get_slot(&mut self) -> Result<u64, RpcError> {
        self.get_slot_calls += 1;
        self.get_slot_responses.remove(0)
    }

    fn get_blocks(&mut self, start_slot: u64, end_slot: Option<u64>) -> Result<Vec<u64>, RpcError> {
        self.get_blocks_calls.push((start_slot, end_slot));
        self.get_blocks_responses.remove(0)
    }
}

struct MockMetrics {
    latest_slots: Vec<u64>,
}

impl MockMetrics {
    fn new() -> Self {
        MockMetrics { latest_slots: Vec::new() }
    }
}

impl Metrics for MockMetrics {
    fn record_latest_slot(&mut self, slot: u64) {
        self.latest_slots.push(slot);
    }

    fn record_get_blocks_elapsed(&mut self, _elapsed_ms: u64) {}

    fn record_is_slot_confirmed_elapsed(&mut self, _elapsed_ms: u64) {}
}

#[test]
fn slot_poller_service_tests_test_poller_populates_empty_cache() {
    let mut cache = SlotCache::new(20);
    let mut mock_rpc = MockRpcApi::new(vec![Ok(100)], vec![Ok(vec![95, 96, 98])]);
    let mut mock_metrics = MockMetrics::new();

    poll(&mut mock_rpc, &mut cache, &mut mock_metrics);

    assert!(cache.contains(&95));
    assert!(cache.contains(&96));
    assert!(cache.contains(&98));
    assert!(!cache.contains(&97));
    assert_eq!(mock_rpc.get_blocks_calls, vec![(90, Some(100))]);
    assert_eq!(mock_metrics.latest_slots, vec![98]);
}

#[test]
fn slot_poller_service_tests_test_poller_fetches_from_latest_cached() {
    let mut cache = SlotCache::new(20);
    cache.insert(100);

    let mut mock_rpc = MockRpcApi::new(vec![Ok(105)], vec![Ok(vec![102, 104])]);
    let mut mock_metrics = MockMetrics::new();

    poll(&mut mock_rpc, &mut cache, &mut mock_metrics);

    assert!(cache.contains(&100));
    assert!(cache.contains(&102));
    assert!(cache.contains(&104));
    assert_eq!(mock_rpc.get_blocks_calls, vec![(101, Some(105))]);
    assert_eq!(mock_metrics.latest_slots, vec![104]);
}

#[test]
fn slot_poller_service_tests_test_poller_does_nothing_if_up_to_date() {
    let mut cache = SlotCache::new(20);
    cache.insert(100);

    let mut mock_rpc = MockRpcApi::new(vec![Ok(100)], vec![]);
    let mut mock_metrics = MockMetrics::new();

    let outcome = poll(&mut mock_rpc, &mut cache, &mut mock_metrics);

    assert!(matches!(outcome, PollOutcome::UpToDate { latest_on_chain: 100 }));
    assert_eq!(mock_rpc.get_blocks_calls.len(), 0);
    assert_eq!(mock_metrics.latest_slots.len(), 0);
}

#[test]
fn slot_poller_service_tests_test_poller_handles_rpc_error() {
    let mut cache = SlotCache::new(20);
    let mut mock_rpc = MockRpcApi::new(vec![Err(RpcError::Rpc), Ok(50)], vec![Ok(vec![45])]);
    let mut mock_metrics = MockMetrics::new();

    let first = poll(&mut mock_rpc, &mut cache, &mut mock_metrics);
    assert!(matches!(first, PollOutcome::LatestSlotUnavailable));
    assert_eq!(cache.get_latest_cached_slot(), None);

    poll(&mut mock_rpc, &mut cache, &mut mock_metrics);

    assert!(cache.contains(&45));
    assert_eq!(mock_rpc.get_blocks_calls, vec![(40, Some(50))]);
    assert_eq!(mock_metrics.latest_slots, vec![45]);
}

#[test]
fn slot_poller_service_tests_test_poller_with_retry_succeeds_after_failures() {
    let mut cache = SlotCache::new(20);
    let mut mock_rpc = MockRpcApi::new(
        vec![Ok(210)],
        vec![Err(RpcError::Rpc), Err(RpcError::Rpc), Ok(vec![205, 208])],
    );
    let mut mock_metrics = MockMetrics::new();

    poll_with_retry(&mut mock_rpc, &mut cache, &mut mock_metrics, 3, 5);

    assert!(cache.contains(&205));
    assert!(cache.contains(&208));
    assert_eq!(mock_rpc.get_blocks_calls.len(), 3);
    assert_eq!(mock_metrics.latest_slots, vec![208]);
}

#[test]
fn test_transient_poller_retries_on_transient_error() {
    let mut cache = SlotCache::new(20);
    let mut mock_rpc = MockRpcApi::new(vec![Ok(210)], vec![Err(RpcError::Io), Ok(vec![205, 208])]);
    let mut mock_metrics = MockMetrics::new();

    poll_with_transient_retry(&mut mock_rpc, &mut cache, &mut mock_metrics, 3, 5);

    assert!(cache.contains(&205));
    assert!(cache.contains(&208));
    assert_eq!(mock_rpc.get_blocks_calls.len(), 2);
    assert_eq!(mock_metrics.latest_slots, vec![208]);
}

#[test]
fn test_transient_poller_fails_immediately_on_non_transient_error() {
    let mut cache = SlotCache::new(20);
    let mut mock_rpc = MockRpcApi::new(vec![Ok(210)], vec![Err(RpcError::Rpc)]);
    let mut mock_metrics = MockMetrics::new();

    poll_with_transient_retry(&mut mock_rpc, &mut cache, &mut mock_metrics, 3, 5);

    assert_eq!(cache.get_latest_cached_slot(), None);
    assert_eq!(mock_rpc.get_blocks_calls.len(), 1);
    assert_eq!(mock_metrics.latest_slots.len(), 0);
}

#[test]
fn test_poller_with_signals_shuts_down_gracefully() {
    let mut cache = SlotCache::new(20);
    let mut mock_rpc = MockRpcApi::new(vec![Ok(100)], vec![Ok(vec![95])]);
    let mut mock_metrics = MockMetrics::new();

    let running = poll_with_transient_retry_and_signals(
        &mut mock_rpc,
        &mut cache,
        &mut mock_metrics,
        3,
        5,
        false,
    );
    assert!(!matches!(running, PollOutcome::ShutDown));
    assert!(cache.contains(&95));

    let stopped = poll_with_transient_retry_and_signals(
        &mut mock_rpc,
        &mut cache,
        &mut mock_metrics,
        3,
        5,
        true,
    );
    assert!(matches!(stopped, PollOutcome::ShutDown));
    assert_eq!(mock_rpc.get_slot_calls, 1, "a stopped poller must not touch the endpoint");
}

#[test]
fn test_final_poller_works_when_circuit_is_closed() {
    let mut cache = SlotCache::new(20);
    let mut mock_rpc = MockRpcApi::new(vec![Ok(100)], vec![Ok(vec![95])]);
    let mut mock_metrics = MockMetrics::new();
    let mut circuit_breaker = CircuitBreaker::new(3, 10_000);

    poll_with_transient_retry_and_signals_and_breaker(
        &mut mock_rpc,
        &mut cache,
        &mut mock_metrics,
        &mut circuit_breaker,
        3,
        5,
        false,
        0,
    );

    assert!(cache.contains(&95));
}

#[test]
fn test_final_poller_is_blocked_by_open_circuit() {
    let mut cache = SlotCache::new(20);
    let mut mock_rpc = MockRpcApi::new(vec![Ok(100)], vec![Err(RpcError::Rpc)]);
    let mut mock_metrics = MockMetrics::new();
    let mut circuit_breaker = CircuitBreaker::new(1, 10_000);

    let first = poll_with_transient_retry_and_signals_and_breaker(
        &mut mock_rpc,
        &mut cache,
        &mut mock_metrics,
        &mut circuit_breaker,
        0,
        5,
        false,
        0,
    );
    assert!(matches!(first, PollOutcome::FetchFailed { .. }));
    assert_eq!(cache.get_latest_cached_slot(), None);

    let second = poll_with_transient_retry_and_signals_and_breaker(
        &mut mock_rpc,
        &mut cache,
        &mut mock_metrics,
        &mut circuit_breaker,
        0,
        5,
        false,
        0,
    );
    assert!(matches!(second, PollOutcome::LatestSlotUnavailable));
    assert_eq!(mock_rpc.get_slot_calls, 1, "the open circuit must keep the poller off the endpoint");
    assert_eq!(cache.get_latest_cached_slot(), None);
}

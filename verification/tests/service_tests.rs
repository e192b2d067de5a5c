use solana_caching_service::cache::SlotCache;
use solana_caching_service::metrics::Metrics;
use solana_caching_service::rpc::{RpcApi, RpcError};
use solana_caching_service::service::slot_poller::{poll, poll_with_retry, PollOutcome};

struct MockRpcApi {
    get_slot_responses: Vec<Result<u64, RpcError>>,
    get_blocks_responses: Vec<Result<Vec<u64>, RpcError>>,
    get_blocks_calls: Vec<(u64, Option<u64>)>,
}

impl MockRpcApi {
    fn new(
        get_slot_responses: Vec<Result<u64, RpcError>>,
        get_blocks_responses: Vec<Result<Vec<u64>, RpcError>>,
    ) -> Self {
        MockRpcApi { get_slot_responses, get_blocks_responses, get_blocks_calls: Vec::new() }
    }
}

impl RpcApi for MockRpcApi {
    fn get_slot(&mut self) -> Result<u64, RpcError> {
        self.get_slot_responses.remove(0)
    }

    fn get_blocks(&mut self, start_slot: u64, end_slot: Option<u64>) -> Result<Vec<u64>, RpcError> {
        self.get_blocks_calls.push((start_slot, end_slot));
        self.get_blocks_responses.remove(0)
    }
}

struct MockMetrics {
    latest_slots: Vec<u64>,
}

impl MockMetrics {
    fn new() -> Self {
        MockMetrics { latest_slots: Vec::new() }
    }
}

impl Metrics for MockMetrics {
    fn record_latest_slot(&mut self, slot: u64) {
        self.latest_slots.push(slot);
    }

    fn record_get_blocks_elapsed(&mut self, _elapsed_ms: u64) {}

    fn record_is_slot_confirmed_elapsed(&mut self, _elapsed_ms: u64) {}
}

#[test]
fn service_tests_test_poller_populates_empty_cache() {
    let mut cache = SlotCache::new(20);
    let mut mock_rpc = MockRpcApi::new(vec![Ok(100)], vec![Ok(vec![95, 96, 98])]);
    let mut mock_metrics = MockMetrics::new();

    poll(&mut mock_rpc, &mut cache, &mut mock_metrics);

    assert!(cache.contains(&95));
    assert!(cache.contains(&96));
    assert!(cache.contains(&98));
    assert!(!cache.contains(&97));
    assert_eq!(mock_rpc.get_blocks_calls, vec![(90, Some(100))]);
    assert_eq!(mock_metrics.latest_slots, vec![98]);
}

#[test]
fn service_tests_test_poller_fetches_from_latest_cached() {
    let mut cache = SlotCache::new(20);
    cache.insert(100);

    let mut mock_rpc = MockRpcApi::new(vec![Ok(105)], vec![Ok(vec![102, 104])]);
    let mut mock_metrics = MockMetrics::new();

    poll(&mut mock_rpc, &mut cache, &mut mock_metrics);

    assert!(cache.contains(&100));
    assert!(cache.contains(&102));
    assert!(cache.contains(&104));
    assert_eq!(mock_rpc.get_blocks_calls, vec![(101, Some(105))]);
    assert_eq!(mock_metrics.latest_slots, vec![104]);
}

#[test]
fn service_tests_test_poller_does_nothing_if_up_to_date() {
    let mut cache = SlotCache::new(20);
    cache.insert(100);

    let mut mock_rpc = MockRpcApi::new(vec![Ok(100)], vec![]);
    let mut mock_metrics = MockMetrics::new();

    let outcome = poll(&mut mock_rpc, &mut cache, &mut mock_metrics);

    assert!(matches!(outcome, PollOutcome::UpToDate { latest_on_chain: 100 }));
    assert_eq!(mock_rpc.get_blocks_calls.len(), 0);
    assert_eq!(mock_metrics.latest_slots.len(), 0);
}

#[test]
fn service_tests_test_poller_handles_rpc_error() {
    let mut cache = SlotCache::new(20);
    let mut mock_rpc = MockRpcApi::new(vec![Err(RpcError::Rpc), Ok(50)], vec![Ok(vec![45])]);
    let mut mock_metrics = MockMetrics::new();

    let first = poll(&mut mock_rpc, &mut cache, &mut mock_metrics);
    assert!(matches!(first, PollOutcome::LatestSlotUnavailable));

    poll(&mut mock_rpc, &mut cache, &mut mock_metrics);

    assert!(cache.contains(&45));
    assert_eq!(mock_rpc.get_blocks_calls, vec![(40, Some(50))]);
    assert_eq!(mock_metrics.latest_slots, vec![45]);
}

#[test]
fn service_tests_test_poller_with_retry_succeeds_after_failures() {
    let mut cache = SlotCache::new(20);
    let mut mock_rpc = MockRpcApi::new(
        vec![Ok(210)],
        vec![Err(RpcError::Rpc), Err(RpcError::Rpc), Ok(vec![205, 208])],
    );
    let mut mock_metrics = MockMetrics::new();

    poll_with_retry(&mut mock_rpc, &mut cache, &mut mock_metrics, 3, 5);

    assert!(cache.contains(&205));
    assert!(cache.contains(&208));
    assert_eq!(mock_rpc.get_blocks_calls.len(), 3);
    assert_eq!(mock_metrics.latest_slots, vec![208]);
}

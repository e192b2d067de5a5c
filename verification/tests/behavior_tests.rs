use solana_caching_service::cache::{LruCache, SlotCache};
use solana_caching_service::circuit_breaker::{CircuitBreaker, CircuitBreakerError};
use solana_caching_service::config::{Config, ConfigError};
use solana_caching_service::rpc::RpcError;
use solana_caching_service::service::confirmation_service::{status_of_fetch, ConfirmationStatus};
use solana_caching_service::service::slot_poller::compute_fetch_range;
use solana_caching_service::utils::error_utils::IsTransient;
use solana_caching_service::utils::retry::{backoff_ms, next_retry_step, with_retry, RetryDecision};

#[test]
fn test_window_keeps_last_capacity_slots_in_order() {
    let mut cache = SlotCache::new(3);
    cache.insert(1);
    cache.insert(2);
    cache.insert(3);
    cache.insert(4);

    assert_eq!(cache.get_all_slots(), vec![2, 3, 4]);
    assert_eq!(cache.get_latest_cached_slot(), Some(4));

    cache.insert(5);
    assert_eq!(cache.get_all_slots(), vec![3, 4, 5]);
}

#[test]
fn test_window_reinsert_is_a_no_op() {
    let mut cache = SlotCache::new(3);
    cache.insert(1);
    cache.insert(2);
    cache.insert(3);

    cache.insert(2);

    assert_eq!(cache.get_all_slots(), vec![1, 2, 3], "no reorder, no duplicate, no eviction");
}

#[test]
fn test_lru_recency_order_example() {
    let mut cache = LruCache::new(3);
    cache.put(1);
    cache.put(2);
    cache.put(3);
    assert_eq!(cache.get_all_slots(), vec![3, 2, 1]);

    assert!(cache.get(&1));
    assert_eq!(cache.get_all_slots(), vec![1, 3, 2]);

    cache.put(4);
    assert_eq!(cache.get_all_slots(), vec![4, 1, 3], "eviction removes the current back");
}

#[test]
fn test_zero_capacity_is_coerced_to_one() {
    let mut window = SlotCache::new(0);
    window.insert(7);
    window.insert(8);
    assert_eq!(window.get_all_slots(), vec![8]);

    let mut lru = LruCache::new(0);
    lru.put(7);
    lru.put(8);
    assert_eq!(lru.get_all_slots(), vec![8]);
}

#[test]
fn test_breaker_probe_success_resets_failure_counter() {
    let open_duration_ms = 20;
    let mut breaker = CircuitBreaker::new(2, open_duration_ms);
    let failing = || Err::<(), _>(RpcError::Rpc);

    let _ = breaker.execute(0, failing);
    let _ = breaker.execute(0, failing);
    let blocked: Result<(), _> = breaker.execute(5, failing);
    assert!(matches!(blocked, Err(CircuitBreakerError::CircuitOpen)));

    let probe = breaker.execute(open_duration_ms + 1, || Ok::<_, RpcError>(()));
    assert!(probe.is_ok());

    let after_reset: Result<(), _> = breaker.execute(open_duration_ms + 1, failing);
    assert!(
        matches!(after_reset, Err(CircuitBreakerError::Inner(_))),
        "one failure after the reset must not reopen a threshold-2 breaker"
    );
}

#[test]
fn test_backoff_doubles_per_retry() {
    assert_eq!(backoff_ms(500, 1), 500);
    assert_eq!(backoff_ms(500, 2), 1000);
    assert_eq!(backoff_ms(500, 3), 2000);
    assert_eq!(backoff_ms(0, 4), 0);
}

#[test]
fn test_next_retry_step_schedule() {
    assert_eq!(next_retry_step(1, 3, 500), RetryDecision::RetryAfter { pause_ms: 500 });
    assert_eq!(next_retry_step(2, 3, 500), RetryDecision::RetryAfter { pause_ms: 1000 });
    assert_eq!(next_retry_step(3, 3, 500), RetryDecision::RetryAfter { pause_ms: 2000 });
    assert_eq!(next_retry_step(4, 3, 500), RetryDecision::GiveUp);
    assert_eq!(next_retry_step(1, 0, 500), RetryDecision::GiveUp);
}

#[test]
fn test_retry_total_backoff_is_geometric_sum() {
    let outcome = with_retry(|| Err::<(), _>("down"), 3, 500);
    assert_eq!(outcome.attempts, 4);
    assert_eq!(outcome.total_backoff_ms, 3500, "500 + 1000 + 2000");
}

#[test]
fn test_rpc_error_transience_classification() {
    assert!(RpcError::Transport.is_transient());
    assert!(RpcError::Io.is_transient());
    assert!(!RpcError::Rpc.is_transient());
    assert!(!RpcError::Malformed.is_transient());
}

#[test]
fn test_fetch_range_examples() {
    assert_eq!(compute_fetch_range(None, 100), Some((90, 100)));
    assert_eq!(compute_fetch_range(Some(100), 105), Some((101, 105)));
    assert_eq!(compute_fetch_range(Some(100), 100), None);
    assert_eq!(compute_fetch_range(None, 4), Some((0, 4)), "the lookback never reaches below slot 0");
}

#[test]
fn test_status_of_fetch_decides_each_answer() {
    assert_eq!(status_of_fetch(5, &Ok(vec![4, 5, 6])), ConfirmationStatus::Confirmed);
    assert_eq!(status_of_fetch(5, &Ok(vec![4, 6])), ConfirmationStatus::NotConfirmed);
    assert_eq!(status_of_fetch(5, &Err(RpcError::Transport)), ConfirmationStatus::Error);
}

#[test]
fn test_config_missing_rpc_url() {
    let result = Config::from_env_file("API_KEY=12345");
    assert_eq!(result.err().unwrap(), ConfigError::MissingRpcUrl);
}

#[test]
fn test_config_defaults() {
    let config = Config::from_env_file("SOLANA_RPC_URL=http://x/\nAPI_KEY=k").unwrap();
    assert_eq!(config.poll_interval_ms, 15_000);
    assert_eq!(config.cache_capacity, 1000);
    assert_eq!(config.lru_cache_capacity, 1000);
    assert_eq!(config.max_retries, 3);
    assert_eq!(config.initial_backoff_ms, 500);
    assert_eq!(config.circuit_failure_threshold, 3);
    assert_eq!(config.circuit_open_duration_ms, 10_000);
}

#[test]
fn test_config_comments_overrides_and_trimming() {
    let content = "# a comment\n SOLANA_RPC_URL = http://first/ \nAPI_KEY=k\nSOLANA_RPC_URL=http://second/\nbroken line\nMAX_RETRIES = 2 ";
    let config = Config::from_env_file(content).unwrap();
    assert_eq!(config.rpc_url, "http://second/", "a later line overrides an earlier one");
    assert_eq!(config.api_key, "k");
    assert_eq!(config.max_retries, 2);
}

#[test]
fn test_config_unreadable_number_falls_back_to_default() {
    let config = Config::from_env_file("SOLANA_RPC_URL=http://x/\nAPI_KEY=k\nMAX_RETRIES=many").unwrap();
    assert_eq!(config.max_retries, 3);
}

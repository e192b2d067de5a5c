//! One cycle of the background poller that keeps the window cache fresh.
//!
//! A cycle asks the endpoint for its latest slot, computes the range of
//! slots the window is missing, fetches the confirmed blocks in that range,
//! and inserts them into the window cache.  The variants compose retry, a
//! shutdown check and the circuit breaker around the two remote calls, just
//! as the long-running task wires them; the task itself — the interval
//! timer, the sleeps between retries and the signal wait — lives with the
//! surrounding program, which runs one of these cycles per tick.

use crate::cache::slot_cache::{window_insert_all_spec, window_insert_spec, SlotCache};
use crate::circuit_breaker::{failure_spec, resolve_spec, success_spec, CircuitBreaker};
use crate::metrics::Metrics;
use crate::rpc::rpc_api::{RpcApi, RpcError};
use crate::utils::error_utils::IsTransient;
use crate::utils::retry::{
    lemma_backoff_bounds,
    lemma_total_backoff_step,
    next_retry_step,
    total_backoff_spec,
    RetryDecision,
    RetryOutcome,
};
use vstd::arithmetic::power2::lemma2_to64;
use vstd::prelude::*;

verus! {

/// How many slots before the chain's tip a cycle reaches back when the
/// window is still empty, to seed it with recent history.
pub const SLOT_LOOKBACK: u64 = 10;

/// The latest slot a window holds, if any.
pub open spec fn cache_latest_spec(s: Seq<u64>) -> Option<u64> {
    if s.len() == 0 {
        None
    } else {
        Some(s.last())
    }
}

/// The range of slots a cycle must fetch: from just past the latest cached
/// slot (or the lookback behind the tip while the window is empty, never
/// reaching below slot 0) up to the chain's tip; `None` when the window is
/// already current.
pub open spec fn fetch_range_spec(latest_cached: Option<u64>, latest_on_chain: u64) -> Option<
    (u64, u64),
> {
    match latest_cached {
        Some(latest) => if latest >= latest_on_chain {
            None
        } else {
            Some(((latest + 1) as u64, latest_on_chain))
        },
        None => Some(
            (
                if latest_on_chain >= SLOT_LOOKBACK {
                    (latest_on_chain - SLOT_LOOKBACK) as u64
                } else {
                    0u64
                },
                latest_on_chain,
            ),
        ),
    }
}

/// How one poll cycle ended.
#[derive(Debug)]
pub enum PollOutcome {
    /// The shutdown signal took priority; the cycle did nothing.
    ShutDown,
    /// The latest-slot call failed (or the circuit was open); the cycle was
    /// abandoned.
    LatestSlotUnavailable,
    /// The window already covers the chain's tip; nothing to fetch.
    UpToDate { latest_on_chain: u64 },
    /// The block fetch for the computed range failed; the window is
    /// unchanged.
    FetchFailed { start_slot: u64, end_slot: u64 },
    /// The confirmed blocks fetched for the computed range, every one
    /// inserted into the window.
    Fetched { start_slot: u64, end_slot: u64, slots: Vec<u64> },
}

/// What each outcome says of the window: only a fetch changes it, by
/// inserting exactly the fetched slots in order, and any fetched range is
/// the one the window's prior state called for.
pub open spec fn poll_outcome_spec(
    outcome: PollOutcome,
    before: Seq<u64>,
    after: Seq<u64>,
    cap: nat,
) -> bool {
    match outcome {
        PollOutcome::ShutDown => after == before,
        PollOutcome::LatestSlotUnavailable => after == before,
        PollOutcome::UpToDate { latest_on_chain } => after == before && fetch_range_spec(
            cache_latest_spec(before),
            latest_on_chain,
        ) is None,
        PollOutcome::FetchFailed { start_slot, end_slot } => after == before && fetch_range_spec(
            cache_latest_spec(before),
            end_slot,
        ) == Some((start_slot, end_slot)),
        PollOutcome::Fetched { start_slot, end_slot, slots } => fetch_range_spec(
            cache_latest_spec(before),
            end_slot,
        ) == Some((start_slot, end_slot)) && after == window_insert_all_spec(before, slots@, cap),
    }
}

/// The range of slots a cycle must fetch, as an executable step.
pub fn compute_fetch_range(latest_cached: Option<u64>, latest_on_chain: u64) -> (range: Option<
    (u64, u64),
>)
    ensures
        range == fetch_range_spec(latest_cached, latest_on_chain),
{
    match latest_cached {
        Some(latest) => {
            if latest >= latest_on_chain {
                None
            } else {
                Some((latest + 1, latest_on_chain))
            }
        },
        None => {
            let start = if latest_on_chain >= SLOT_LOOKBACK {
                latest_on_chain - SLOT_LOOKBACK
            } else {
                0
            };
            Some((start, latest_on_chain))
        },
    }
}

/// The largest fetched slot, if any were fetched.
pub fn max_slot(slots: &Vec<u64>) -> (largest: Option<u64>)
    ensures
        match largest {
            None => slots@.len() == 0,
            Some(v) => slots@.contains(v) && forall|j: int| 0 <= j < slots@.len() ==> slots@[j] <= v,
        },
{
    if slots.len() == 0 {
        return None;
    }
    let mut best: u64 = slots[0];
    let mut i: usize = 1;
    proof {
        assert(slots@[0] == best);
    }
    while i < slots.len()
        invariant
            1 <= i <= slots@.len(),
            slots@.contains(best),
            forall|j: int| 0 <= j < i ==> slots@[j] <= best,
        decreases slots@.len() - i,
    {
        if slots[i] > best {
            best = slots[i];
            proof {
                assert(slots@[i as int] == best);
            }
        }
        i += 1;
    }
    Some(best)
}

/// Inserts every fetched slot into the window, in order.
fn insert_all(cache: &mut SlotCache, slots: &Vec<u64>)
    requires
        old(cache).wf(),
    ensures
        final(cache).wf(),
        final(cache).cap() == old(cache).cap(),
        final(cache)@ == window_insert_all_spec(old(cache)@, slots@, old(cache).cap()),
{
    let mut i: usize = 0;
    proof {
        assert(slots@.skip(0) =~= slots@);
    }
    while i < slots.len()
        invariant
            i <= slots@.len(),
            cache.wf(),
            cache.cap() == old(cache).cap(),
            window_insert_all_spec(old(cache)@, slots@, old(cache).cap()) == window_insert_all_spec(
                cache@,
                slots@.skip(i as int),
                old(cache).cap(),
            ),
        decreases slots@.len() - i,
    {
        let ghost before = cache@;
        let ghost rest = slots@.skip(i as int);
        cache.insert(slots[i]);
        proof {
            assert(rest[0] == slots@[i as int]);
            assert(rest.skip(1) =~= slots@.skip(i as int + 1));
            assert(window_insert_all_spec(before, rest, old(cache).cap())
                == window_insert_all_spec(
                window_insert_spec(before, rest[0], old(cache).cap()),
                rest.skip(1),
                old(cache).cap(),
            ));
        }
        i += 1;
    }
    proof {
        assert(slots@.skip(slots@.len() as int) =~= Seq::<u64>::empty());
    }
}

/// Fetches the blocks for a computed range and folds them into the window,
/// recording the largest fetched slot.
fn fetch_and_insert<R: RpcApi, M: Metrics>(
    rpc_client: &mut R,
    cache: &mut SlotCache,
    metrics: &mut M,
    start_slot: u64,
    end_slot: u64,
) -> (outcome: PollOutcome)
    requires
        old(cache).wf(),
    ensures
        final(cache).wf(),
        final(cache).cap() == old(cache).cap(),
        match outcome {
            PollOutcome::FetchFailed { start_slot: s, end_slot: e } => final(cache)@ == old(
                cache,
            )@ && s == start_slot && e == end_slot,
            PollOutcome::Fetched { start_slot: s, end_slot: e, slots } => s == start_slot && e
                == end_slot && final(cache)@ == window_insert_all_spec(
                old(cache)@,
                slots@,
                old(cache).cap(),
            ),
            _ => false,
        },
{
    let fetched = rpc_client.get_blocks(start_slot, Some(end_slot));
    match fetched {
        Ok(slots) => {
            if let Some(largest) = max_slot(&slots) {
                metrics.record_latest_slot(largest);
            }
            insert_all(cache, &slots);
            PollOutcome::Fetched { start_slot, end_slot, slots }
        },
        Err(_) => PollOutcome::FetchFailed { start_slot, end_slot },
    }
}

/// Fetches the blocks for a range under the retry policy: every failure is
/// retried on the doubling schedule, up to `max_retries + 1` attempts.
fn get_blocks_with_retry<R: RpcApi>(
    rpc_client: &mut R,
    start_slot: u64,
    end_slot: u64,
    max_retries: u32,
    initial_backoff_ms: u64,
) -> (outcome: RetryOutcome<Vec<u64>, RpcError>)
    requires
        max_retries < u32::MAX,
        total_backoff_spec(initial_backoff_ms, max_retries as nat) <= u64::MAX,
    ensures
        1 <= outcome.attempts <= max_retries + 1,
        outcome.total_backoff_ms == total_backoff_spec(
            initial_backoff_ms,
            (outcome.attempts - 1) as nat,
        ),
        outcome.result is Err ==> outcome.attempts == max_retries + 1,
{
    let mut attempts: u32 = 0;
    let mut total_backoff_ms: u64 = 0;
    proof {
        lemma2_to64();
    }
    loop
        invariant
            max_retries < u32::MAX,
            total_backoff_spec(initial_backoff_ms, max_retries as nat) <= u64::MAX,
            attempts <= max_retries,
            total_backoff_ms == total_backoff_spec(initial_backoff_ms, attempts as nat),
        decreases max_retries - attempts,
    {
        match rpc_client.get_blocks(start_slot, Some(end_slot)) {
            Ok(slots) => {
                return RetryOutcome { result: Ok(slots), attempts: attempts + 1, total_backoff_ms };
            },
            Err(e) => {
                attempts = attempts + 1;
                proof {
                    if attempts <= max_retries {
                        lemma_backoff_bounds(initial_backoff_ms, attempts, max_retries);
                        lemma_total_backoff_step(initial_backoff_ms, attempts);
                    }
                }
                match next_retry_step(attempts, max_retries, initial_backoff_ms) {
                    RetryDecision::GiveUp => {
                        return RetryOutcome { result: Err(e), attempts, total_backoff_ms };
                    },
                    RetryDecision::RetryAfter { pause_ms } => {
                        total_backoff_ms = total_backoff_ms + pause_ms;
                    },
                }
            },
        }
    }
}

/// Fetches the blocks for a range under the transient-aware retry policy: a
/// failure classified non-transient is returned at once; only transient
/// failures use the schedule up.
fn get_blocks_with_transient_retry<R: RpcApi>(
    rpc_client: &mut R,
    start_slot: u64,
    end_slot: u64,
    max_retries: u32,
    initial_backoff_ms: u64,
) -> (outcome: RetryOutcome<Vec<u64>, RpcError>)
    requires
        max_retries < u32::MAX,
        total_backoff_spec(initial_backoff_ms, max_retries as nat) <= u64::MAX,
    ensures
        1 <= outcome.attempts <= max_retries + 1,
        outcome.total_backoff_ms == total_backoff_spec(
            initial_backoff_ms,
            (outcome.attempts - 1) as nat,
        ),
        match outcome.result {
            Ok(_) => true,
            Err(e) => e.is_transient_spec() ==> outcome.attempts == max_retries + 1,
        },
{
    let mut attempts: u32 = 0;
    let mut total_backoff_ms: u64 = 0;
    proof {
        lemma2_to64();
    }
    loop
        invariant
            max_retries < u32::MAX,
            total_backoff_spec(initial_backoff_ms, max_retries as nat) <= u64::MAX,
            attempts <= max_retries,
            total_backoff_ms == total_backoff_spec(initial_backoff_ms, attempts as nat),
        decreases max_retries - attempts,
    {
        match rpc_client.get_blocks(start_slot, Some(end_slot)) {
            Ok(slots) => {
                return RetryOutcome { result: Ok(slots), attempts: attempts + 1, total_backoff_ms };
            },
            Err(e) => {
                if !e.is_transient() {
                    return RetryOutcome { result: Err(e), attempts: attempts + 1, total_backoff_ms };
                }
                attempts = attempts + 1;
                proof {
                    if attempts <= max_retries {
                        lemma_backoff_bounds(initial_backoff_ms, attempts, max_retries);
                        lemma_total_backoff_step(initial_backoff_ms, attempts);
                    }
                }
                match next_retry_step(attempts, max_retries, initial_backoff_ms) {
                    RetryDecision::GiveUp => {
                        return RetryOutcome { result: Err(e), attempts, total_backoff_ms };
                    },
                    RetryDecision::RetryAfter { pause_ms } => {
                        total_backoff_ms = total_backoff_ms + pause_ms;
                    },
                }
            },
        }
    }
}

/// One plain poll cycle: fetch the chain's tip, compute the missing range,
/// fetch it and fold it into the window.  A failed call abandons the cycle
/// and leaves the window as it was.
pub fn poll<R: RpcApi, M: Metrics>(rpc_client: &mut R, cache: &mut SlotCache, metrics: &mut M) -> (outcome:
    PollOutcome)
    requires
        old(cache).wf(),
    ensures
        final(cache).wf(),
        final(cache).cap() == old(cache).cap(),
        poll_outcome_spec(outcome, old(cache)@, final(cache)@, old(cache).cap()),
        !(outcome is ShutDown),
{
    let latest_on_chain = match rpc_client.get_slot() {
        Ok(slot) => slot,
        Err(_) => {
            return PollOutcome::LatestSlotUnavailable;
        },
    };
    let latest_cached = cache.get_latest_cached_slot();
    match compute_fetch_range(latest_cached, latest_on_chain) {
        None => PollOutcome::UpToDate { latest_on_chain },
        Some((start_slot, end_slot)) => fetch_and_insert(
            rpc_client,
            cache,
            metrics,
            start_slot,
            end_slot,
        ),
    }
}


/// A poll cycle whose block fetch is retried on the doubling schedule: a
/// transient outage of the endpoint inside one cycle no longer loses the
/// cycle's range.
pub fn poll_with_retry<R: RpcApi, M: Metrics>(
    rpc_client: &mut R,
    cache: &mut SlotCache,
    metrics: &mut M,
    max_retries: u32,
    initial_backoff_ms: u64,
) -> (outcome: PollOutcome)
    requires
        old(cache).wf(),
        max_retries < u32::MAX,
        total_backoff_spec(initial_backoff_ms, max_retries as nat) <= u64::MAX,
    ensures
        final(cache).wf(),
        final(cache).cap() == old(cache).cap(),
        poll_outcome_spec(outcome, old(cache)@, final(cache)@, old(cache).cap()),
        !(outcome is ShutDown),
{
    let latest_on_chain = match rpc_client.get_slot() {
        Ok(slot) => slot,
        Err(_) => {
            return PollOutcome::LatestSlotUnavailable;
        },
    };
    let latest_cached = cache.get_latest_cached_slot();
    match compute_fetch_range(latest_cached, latest_on_chain) {
        None => PollOutcome::UpToDate { latest_on_chain },
        Some((start_slot, end_slot)) => {
            let fetched = get_blocks_with_retry(
                rpc_client,
                start_slot,
                end_slot,
                max_retries,
                initial_backoff_ms,
            );
            match fetched.result {
                Ok(slots) => {
                    if let Some(largest) = max_slot(&slots) {
                        metrics.record_latest_slot(largest);
                    }
                    insert_all(cache, &slots);
                    PollOutcome::Fetched { start_slot, end_slot, slots }
                },
                Err(_) => PollOutcome::FetchFailed { start_slot, end_slot },
            }
        },
    }
}

/// A poll cycle whose block fetch is retried only while the failures are
/// transient: a permanent failure abandons the cycle at once.
pub fn poll_with_transient_retry<R: RpcApi, M: Metrics>(
    rpc_client: &mut R,
    cache: &mut SlotCache,
    metrics: &mut M,
    max_retries: u32,
    initial_backoff_ms: u64,
) -> (outcome: PollOutcome)
    requires
        old(cache).wf(),
        max_retries < u32::MAX,
        total_backoff_spec(initial_backoff_ms, max_retries as nat) <= u64::MAX,
    ensures
        final(cache).wf(),
        final(cache).cap() == old(cache).cap(),
        poll_outcome_spec(outcome, old(cache)@, final(cache)@, old(cache).cap()),
        !(outcome is ShutDown),
{
    let latest_on_chain = match rpc_client.get_slot() {
        Ok(slot) => slot,
        Err(_) => {
            return PollOutcome::LatestSlotUnavailable;
        },
    };
    let latest_cached = cache.get_latest_cached_slot();
    match compute_fetch_range(latest_cached, latest_on_chain) {
        None => PollOutcome::UpToDate { latest_on_chain },
        Some((start_slot, end_slot)) => {
            let fetched = get_blocks_with_transient_retry(
                rpc_client,
                start_slot,
                end_slot,
                max_retries,
                initial_backoff_ms,
            );
            match fetched.result {
                Ok(slots) => {
                    if let Some(largest) = max_slot(&slots) {
                        metrics.record_latest_slot(largest);
                    }
                    insert_all(cache, &slots);
                    PollOutcome::Fetched { start_slot, end_slot, slots }
                },
                Err(_) => PollOutcome::FetchFailed { start_slot, end_slot },
            }
        },
    }
}

/// A poll cycle that observes the shutdown signal first: once shutdown is
/// requested the cycle does nothing, with priority over any fetching.
pub fn poll_with_transient_retry_and_signals<R: RpcApi, M: Metrics>(
    rpc_client: &mut R,
    cache: &mut SlotCache,
    metrics: &mut M,
    max_retries: u32,
    initial_backoff_ms: u64,
    shutdown_requested: bool,
) -> (outcome: PollOutcome)
    requires
        old(cache).wf(),
        max_retries < u32::MAX,
        total_backoff_spec(initial_backoff_ms, max_retries as nat) <= u64::MAX,
    ensures
        final(cache).wf(),
        final(cache).cap() == old(cache).cap(),
        poll_outcome_spec(outcome, old(cache)@, final(cache)@, old(cache).cap()),
        shutdown_requested <==> outcome is ShutDown,
{
    if shutdown_requested {
        return PollOutcome::ShutDown;
    }
    poll_with_transient_retry(rpc_client, cache, metrics, max_retries, initial_backoff_ms)
}

/// The fully composed poll cycle: shutdown priority, both remote calls
/// guarded by the shared circuit breaker, and the block fetch retried only
/// while its failures are transient.
pub fn poll_with_transient_retry_and_signals_and_breaker<R: RpcApi, M: Metrics>(
    rpc_client: &mut R,
    cache: &mut SlotCache,
    metrics: &mut M,
    circuit_breaker: &mut CircuitBreaker,
    max_retries: u32,
    initial_backoff_ms: u64,
    shutdown_requested: bool,
    now_ms: u64,
) -> (outcome: PollOutcome)
    requires
        old(cache).wf(),
        max_retries < u32::MAX,
        total_backoff_spec(initial_backoff_ms, max_retries as nat) <= u64::MAX,
    ensures
        final(cache).wf(),
        final(cache).cap() == old(cache).cap(),
        poll_outcome_spec(outcome, old(cache)@, final(cache)@, old(cache).cap()),
        shutdown_requested <==> outcome is ShutDown,
        shutdown_requested ==> *final(circuit_breaker) == *old(circuit_breaker),
        !shutdown_requested ==> ({
            let resolved = resolve_spec(*old(circuit_breaker), now_ms);
            if resolved.state is Open {
                &&& outcome is LatestSlotUnavailable
                &&& *final(circuit_breaker) == resolved
                &&& final(cache)@ == old(cache)@
            } else {
                match outcome {
                    PollOutcome::ShutDown => false,
                    PollOutcome::LatestSlotUnavailable => *final(circuit_breaker) == failure_spec(
                        resolved,
                        now_ms,
                    ) && final(cache)@ == old(cache)@,
                    PollOutcome::UpToDate { .. } => *final(circuit_breaker) == success_spec(
                        resolved,
                    ) && final(cache)@ == old(cache)@,
                    PollOutcome::Fetched { .. } => *final(circuit_breaker) == success_spec(
                        success_spec(resolved),
                    ),
                    PollOutcome::FetchFailed { .. } => *final(circuit_breaker) == failure_spec(
                        success_spec(resolved),
                        now_ms,
                    ),
                }
            }
        }),
{
    if shutdown_requested {
        return PollOutcome::ShutDown;
    }
    let proceed = circuit_breaker.try_acquire(now_ms);
    if !proceed {
        return PollOutcome::LatestSlotUnavailable;
    }
    let latest_on_chain = match rpc_client.get_slot() {
        Ok(slot) => {
            circuit_breaker.handle_result(true, now_ms);
            slot
        },
        Err(_) => {
            circuit_breaker.handle_result(false, now_ms);
            return PollOutcome::LatestSlotUnavailable;
        },
    };
    let latest_cached = cache.get_latest_cached_slot();
    match compute_fetch_range(latest_cached, latest_on_chain) {
        None => PollOutcome::UpToDate { latest_on_chain },
        Some((start_slot, end_slot)) => {
            let proceed_fetch = circuit_breaker.try_acquire(now_ms);
            if !proceed_fetch {
                // A cycle holds one clock value, so the breaker a successful
                // latest-slot call just closed cannot have reopened here.
                proof {
                    assert(success_spec(resolve_spec(*old(circuit_breaker), now_ms)).state
                        is Closed);
                }
                return PollOutcome::FetchFailed { start_slot, end_slot };
            }
            let fetched = get_blocks_with_transient_retry(
                rpc_client,
                start_slot,
                end_slot,
                max_retries,
                initial_backoff_ms,
            );
            match fetched.result {
                Ok(slots) => {
                    circuit_breaker.handle_result(true, now_ms);
                    if let Some(largest) = max_slot(&slots) {
                        metrics.record_latest_slot(largest);
                    }
                    insert_all(cache, &slots);
                    PollOutcome::Fetched { start_slot, end_slot, slots }
                },
                Err(_) => {
                    circuit_breaker.handle_result(false, now_ms);
                    PollOutcome::FetchFailed { start_slot, end_slot }
                },
            }
        },
    }
}

} // verus!

//! Answers a single slot's confirmation status: the window cache first, then
//! the LRU cache, then a guarded remote fallback whose confirmed answers are
//! memoized in the LRU cache.  Unconfirmed answers are never memoized, since
//! the slot may become confirmed later.

use crate::cache::lru_cache::{move_to_front_spec, put_spec};
use crate::cache::{LruCache, SlotCache};
use crate::circuit_breaker::{failure_spec, resolve_spec, success_spec, CircuitBreaker};
use crate::rpc::rpc_api::{RpcApi, RpcError};
use vstd::prelude::*;

verus! {

/// The three-valued answer a confirmation query gets.
#[derive(Clone, Copy, Debug, PartialEq, Eq, Structural)]
pub enum ConfirmationStatus {
    Confirmed,
    NotConfirmed,
    Error,
}

/// The endpoint's answer for the range `[slot, slot]`, as a value contracts
/// can match on.
pub open spec fn fetched_view(fetched: Result<Vec<u64>, RpcError>) -> Result<Seq<u64>, RpcError> {
    match fetched {
        Ok(blocks) => Ok(blocks@),
        Err(e) => Err(e),
    }
}

/// The status the endpoint's answer decides: confirmed iff the returned
/// range holds the slot, and an error for a failed call.
pub open spec fn fetch_status_spec(slot: u64, fetched: Result<Seq<u64>, RpcError>) -> ConfirmationStatus {
    match fetched {
        Ok(blocks) => if blocks.contains(slot) {
            ConfirmationStatus::Confirmed
        } else {
            ConfirmationStatus::NotConfirmed
        },
        Err(_) => ConfirmationStatus::Error,
    }
}

/// Whether the fetched range holds the slot.
fn blocks_contain(blocks: &Vec<u64>, slot: u64) -> (present: bool)
    ensures
        present == blocks@.contains(slot),
{
    let mut i: usize = 0;
    while i < blocks.len()
        invariant
            i <= blocks@.len(),
            forall|j: int| 0 <= j < i ==> blocks@[j] != slot,
        decreases blocks@.len() - i,
    {
        if blocks[i] == slot {
            return true;
        }
        i += 1;
    }
    false
}

/// Decides the status the endpoint's answer for `[slot, slot]` yields,
/// without touching any cache.
pub fn status_of_fetch(slot: u64, fetched: &Result<Vec<u64>, RpcError>) -> (status:
    ConfirmationStatus)
    ensures
        status == fetch_status_spec(slot, fetched_view(*fetched)),
{
    match fetched {
        Ok(blocks) => {
            if blocks_contain(blocks, slot) {
                ConfirmationStatus::Confirmed
            } else {
                ConfirmationStatus::NotConfirmed
            }
        },
        Err(_) => ConfirmationStatus::Error,
    }
}

/// Applies the endpoint's answer for `[slot, slot]`: a confirmed slot is
/// stored in the LRU cache; any other answer leaves the cache untouched.
pub fn apply_fetch_result(lru_cache: &mut LruCache, slot: u64, fetched: &Result<
    Vec<u64>,
    RpcError,
>) -> (status: ConfirmationStatus)
    requires
        old(lru_cache).wf(),
    ensures
        final(lru_cache).wf(),
        final(lru_cache).cap() == old(lru_cache).cap(),
        status == fetch_status_spec(slot, fetched_view(*fetched)),
        status is Confirmed ==> final(lru_cache)@ == put_spec(
            old(lru_cache)@,
            slot,
            old(lru_cache).cap(),
        ) && final(lru_cache)@.contains(slot),
        !(status is Confirmed) ==> final(lru_cache)@ == old(lru_cache)@,
{
    let status = status_of_fetch(slot, fetched);
    if matches!(status, ConfirmationStatus::Confirmed) {
        lru_cache.put(slot);
        proof {
            let s0 = old(lru_cache)@;
            let cap = old(lru_cache).cap();
            assert(lru_cache@ == put_spec(s0, slot, cap));
            if s0.contains(slot) {
                assert(lru_cache@ == seq![slot] + s0.remove(s0.index_of(slot)));
            } else if s0.len() + 1 > cap {
                assert(lru_cache@ == (seq![slot] + s0).drop_last());
                assert(lru_cache@[0] == (seq![slot] + s0)[0]);
            } else {
                assert(lru_cache@ == seq![slot] + s0);
            }
            assert(lru_cache@[0] == slot);
            assert(lru_cache@.contains(slot));
        }
    }
    status
}

/// Resolves a slot against the window cache alone, with a remote fallback:
/// a slot in the window is confirmed without a remote call; otherwise the
/// endpoint's answer for `[slot, slot]` decides.
pub fn confirm<R: RpcApi>(cache: &SlotCache, rpc_client: &mut R, slot: u64) -> (status:
    ConfirmationStatus)
    requires
        cache.wf(),
    ensures
        cache@.contains(slot) ==> status == ConfirmationStatus::Confirmed,
{
    if cache.contains(&slot) {
        ConfirmationStatus::Confirmed
    } else {
        let fetched = rpc_client.get_blocks(slot, Some(slot));
        status_of_fetch(slot, &fetched)
    }
}

/// Resolves a slot through the full cache chain: the window cache, then the
/// LRU cache (a hit refreshes its recency), then the remote fallback, whose
/// confirmed answer is stored in the LRU cache.
pub fn confirm_with_lru<R: RpcApi>(
    cache: &SlotCache,
    lru_cache: &mut LruCache,
    rpc_client: &mut R,
    slot: u64,
) -> (status: ConfirmationStatus)
    requires
        cache.wf(),
        old(lru_cache).wf(),
    ensures
        final(lru_cache).wf(),
        final(lru_cache).cap() == old(lru_cache).cap(),
        cache@.contains(slot) ==> status == ConfirmationStatus::Confirmed && final(lru_cache)@
            == old(lru_cache)@,
        !cache@.contains(slot) && old(lru_cache)@.contains(slot) ==> status
            == ConfirmationStatus::Confirmed && final(lru_cache)@ == move_to_front_spec(
            old(lru_cache)@,
            slot,
        ),
        !cache@.contains(slot) && !old(lru_cache)@.contains(slot) ==> match status {
            ConfirmationStatus::Confirmed => final(lru_cache)@ == put_spec(
                old(lru_cache)@,
                slot,
                old(lru_cache).cap(),
            ) && final(lru_cache)@.contains(slot),
            ConfirmationStatus::NotConfirmed => final(lru_cache)@ == old(lru_cache)@,
            ConfirmationStatus::Error => final(lru_cache)@ == old(lru_cache)@,
        },
{
    if cache.contains(&slot) {
        ConfirmationStatus::Confirmed
    } else if lru_cache.get(&slot) {
        ConfirmationStatus::Confirmed
    } else {
        let fetched = rpc_client.get_blocks(slot, Some(slot));
        apply_fetch_result(lru_cache, slot, &fetched)
    }
}

/// Resolves a slot through the full chain with the remote fallback under the
/// circuit breaker: while the circuit is open the endpoint is left alone and
/// the query reports `Error`; otherwise the call's outcome drives both the
/// breaker and the LRU cache.
pub fn confirm_with_lru_and_breaker<R: RpcApi>(
    cache: &SlotCache,
    lru_cache: &mut LruCache,
    circuit_breaker: &mut CircuitBreaker,
    rpc_client: &mut R,
    slot: u64,
    now_ms: u64,
) -> (status: ConfirmationStatus)
    requires
        cache.wf(),
        old(lru_cache).wf(),
    ensures
        final(lru_cache).wf(),
        final(lru_cache).cap() == old(lru_cache).cap(),
        cache@.contains(slot) || old(lru_cache)@.contains(slot) ==> *final(circuit_breaker)
            == *old(circuit_breaker),
        cache@.contains(slot) ==> status == ConfirmationStatus::Confirmed && final(lru_cache)@
            == old(lru_cache)@,
        !cache@.contains(slot) && old(lru_cache)@.contains(slot) ==> status
            == ConfirmationStatus::Confirmed && final(lru_cache)@ == move_to_front_spec(
            old(lru_cache)@,
            slot,
        ),
        !cache@.contains(slot) && !old(lru_cache)@.contains(slot) ==> ({
            let resolved = resolve_spec(*old(circuit_breaker), now_ms);
            if resolved.state is Open {
                status == ConfirmationStatus::Error && *final(circuit_breaker) == resolved
                    && final(lru_cache)@ == old(lru_cache)@
            } else {
                match status {
                    ConfirmationStatus::Confirmed => *final(circuit_breaker) == success_spec(
                        resolved,
                    ) && final(lru_cache)@ == put_spec(
                        old(lru_cache)@,
                        slot,
                        old(lru_cache).cap(),
                    ) && final(lru_cache)@.contains(slot),
                    ConfirmationStatus::NotConfirmed => *final(circuit_breaker) == success_spec(
                        resolved,
                    ) && final(lru_cache)@ == old(lru_cache)@,
                    ConfirmationStatus::Error => *final(circuit_breaker) == failure_spec(
                        resolved,
                        now_ms,
                    ) && final(lru_cache)@ == old(lru_cache)@,
                }
            }
        }),
{
    if cache.contains(&slot) {
        ConfirmationStatus::Confirmed
    } else if lru_cache.get(&slot) {
        ConfirmationStatus::Confirmed
    } else {
        let proceed = circuit_breaker.try_acquire(now_ms);
        if proceed {
            let fetched = rpc_client.get_blocks(slot, Some(slot));
            circuit_breaker.handle_result(fetched.is_ok(), now_ms);
            apply_fetch_result(lru_cache, slot, &fetched)
        } else {
            ConfirmationStatus::Error
        }
    }
}

} // verus!

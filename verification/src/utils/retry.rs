//! Retry execution with exponential backoff.
//!
//! An operation is attempted up to `max_retries + 1` times.  The pause the
//! policy schedules before retry number `a` is the initial backoff doubled
//! `a - 1` times; a caller that sleeps between attempts takes its pauses
//! from `backoff_ms`.  The transient-aware variant consults the error's
//! classification and abandons the operation on the first failure a retry
//! cannot fix.

use crate::utils::error_utils::IsTransient;
use vstd::arithmetic::mul::{lemma_mul_basics, lemma_mul_inequality};
use vstd::arithmetic::power2::{
    lemma2_to64,
    lemma2_to64_rest,
    lemma_pow2_pos,
    lemma_pow2_strictly_increases,
    lemma_pow2_unfold,
    pow2,
};
use vstd::bits::lemma_u64_shl_is_mul;
use vstd::prelude::*;

verus! {

/// The pause the policy schedules before retry number `attempt` (1-based):
/// the initial backoff doubled `attempt - 1` times.
pub open spec fn backoff_ms_spec(initial_backoff_ms: u64, attempt: u32) -> int
    recommends
        attempt >= 1,
{
    initial_backoff_ms * pow2((attempt - 1) as nat)
}

/// The total pause an execution sleeps when it takes `retries` retries:
/// `initial * (2^retries - 1)`, the sum of the doubling pauses.
pub open spec fn total_backoff_spec(initial_backoff_ms: u64, retries: nat) -> int {
    initial_backoff_ms * (pow2(retries) - 1)
}

/// How a retry execution ended: the operation's final result, how many
/// attempts were made, and the total pause the backoff schedule put between
/// them.
pub struct RetryOutcome<T, E> {
    pub result: Result<T, E>,
    pub attempts: u32,
    pub total_backoff_ms: u64,
}

/// The pause before retry number `attempt`.
pub fn backoff_ms(initial_backoff_ms: u64, attempt: u32) -> (backoff: u64)
    requires
        1 <= attempt,
        backoff_ms_spec(initial_backoff_ms, attempt) <= u64::MAX,
    ensures
        backoff == backoff_ms_spec(initial_backoff_ms, attempt),
{
    if initial_backoff_ms == 0 {
        proof {
            lemma_mul_basics(pow2((attempt - 1) as nat) as int);
        }
        0
    } else {
        let shift: u64 = (attempt - 1) as u64;
        proof {
            let e = shift as nat;
            if shift >= 64 {
                lemma2_to64_rest();
                if shift > 64 {
                    lemma_pow2_strictly_increases(64, e);
                }
                lemma_mul_inequality(1, initial_backoff_ms as int, pow2(e) as int);
                assert(false);
            }
            lemma_u64_shl_is_mul(initial_backoff_ms, shift);
        }
        initial_backoff_ms << shift
    }
}

/// What the policy does after a failed attempt: pause and retry, or give
/// the failure back.
#[derive(Clone, Copy, Debug, PartialEq, Eq, Structural)]
pub enum RetryDecision {
    /// Retry after the scheduled pause.
    RetryAfter { pause_ms: u64 },
    /// Every attempt is spent; return the failure.
    GiveUp,
}

/// Decides what follows failure number `failures` (1-based): retrying after
/// the scheduled pause while retries remain, giving up once `max_retries`
/// retries are spent.
pub fn next_retry_step(failures: u32, max_retries: u32, initial_backoff_ms: u64) -> (decision:
    RetryDecision)
    requires
        1 <= failures,
        failures <= max_retries ==> backoff_ms_spec(initial_backoff_ms, failures) <= u64::MAX,
    ensures
        match decision {
            RetryDecision::GiveUp => failures > max_retries,
            RetryDecision::RetryAfter { pause_ms } => failures <= max_retries && pause_ms
                == backoff_ms_spec(initial_backoff_ms, failures),
        },
{
    if failures > max_retries {
        RetryDecision::GiveUp
    } else {
        RetryDecision::RetryAfter { pause_ms: backoff_ms(initial_backoff_ms, failures) }
    }
}

/// The pauses taken so far, plus the next one, make the total for one more
/// retry.
pub(crate) proof fn lemma_total_backoff_step(initial_backoff_ms: u64, attempt: u32)
    requires
        attempt >= 1,
    ensures
        total_backoff_spec(initial_backoff_ms, (attempt - 1) as nat) + backoff_ms_spec(
            initial_backoff_ms,
            attempt,
        ) == total_backoff_spec(initial_backoff_ms, attempt as nat),
{
    let e = (attempt - 1) as nat;
    lemma_pow2_pos(e);
    lemma_pow2_unfold(attempt as nat);
    let p = pow2(e) as int;
    let i = initial_backoff_ms as int;
    assert(i * (p - 1) + i * p == i * (2 * p - 1)) by (nonlinear_arith);
}

/// Each scheduled pause, and every partial total, fits below the total for
/// the full schedule.
pub(crate) proof fn lemma_backoff_bounds(initial_backoff_ms: u64, attempt: u32, max_retries: u32)
    requires
        1 <= attempt <= max_retries,
    ensures
        backoff_ms_spec(initial_backoff_ms, attempt) <= total_backoff_spec(
            initial_backoff_ms,
            max_retries as nat,
        ),
        total_backoff_spec(initial_backoff_ms, attempt as nat) <= total_backoff_spec(
            initial_backoff_ms,
            max_retries as nat,
        ),
{
    let a1 = (attempt - 1) as nat;
    let m1 = (max_retries - 1) as nat;
    let m = max_retries as nat;
    let i = initial_backoff_ms as int;
    lemma_pow2_pos(a1);
    lemma_pow2_pos(m1);
    lemma_pow2_unfold(m);
    if attempt < max_retries {
        lemma_pow2_strictly_increases(a1, m1);
        lemma_pow2_strictly_increases(attempt as nat, m);
    }
    assert(pow2(a1) <= pow2(m) - 1);
    assert(pow2(attempt as nat) - 1 <= pow2(m) - 1);
    lemma_mul_inequality(pow2(a1) as int, pow2(m) - 1, i);
    lemma_mul_inequality(pow2(attempt as nat) - 1, pow2(m) - 1, i);
    assert(i * pow2(a1) == pow2(a1) * i) by (nonlinear_arith);
    assert(i * (pow2(m) - 1) == (pow2(m) - 1) * i) by (nonlinear_arith);
    assert(i * (pow2(attempt as nat) - 1) == (pow2(attempt as nat) - 1) * i) by (nonlinear_arith);
}

/// Attempts `operation` up to `max_retries + 1` times, pausing on the
/// doubling schedule between failed attempts, and returns the last result.
/// A failure is final only once every attempt is spent, so a returned error
/// always carries the full attempt count.
pub fn with_retry<T, E, F: Fn() -> Result<T, E>>(
    operation: F,
    max_retries: u32,
    initial_backoff_ms: u64,
) -> (outcome: RetryOutcome<T, E>)
    requires
        call_requires(operation, ()),
        max_retries < u32::MAX,
        total_backoff_spec(initial_backoff_ms, max_retries as nat) <= u64::MAX,
    ensures
        1 <= outcome.attempts <= max_retries + 1,
        outcome.total_backoff_ms == total_backoff_spec(
            initial_backoff_ms,
            (outcome.attempts - 1) as nat,
        ),
        match outcome.result {
            Ok(v) => call_ensures(operation, (), Ok::<T, E>(v)),
            Err(e) => call_ensures(operation, (), Err::<T, E>(e)) && outcome.attempts
                == max_retries + 1,
        },
        outcome.attempts > 1 ==> exists|e: E| call_ensures(operation, (), Err::<T, E>(e)),
{
    let mut attempts: u32 = 0;
    let mut total_backoff_ms: u64 = 0;
    proof {
        lemma2_to64();
    }
    loop
        invariant
            call_requires(operation, ()),
            max_retries < u32::MAX,
            total_backoff_spec(initial_backoff_ms, max_retries as nat) <= u64::MAX,
            attempts <= max_retries,
            total_backoff_ms == total_backoff_spec(initial_backoff_ms, attempts as nat),
            attempts >= 1 ==> exists|e: E| call_ensures(operation, (), Err::<T, E>(e)),
        decreases max_retries - attempts,
    {
        match operation() {
            Ok(v) => {
                return RetryOutcome { result: Ok(v), attempts: attempts + 1, total_backoff_ms };
            },
            Err(e) => {
                attempts = attempts + 1;
                proof {
                    if attempts <= max_retries {
                        lemma_backoff_bounds(initial_backoff_ms, attempts, max_retries);
                        lemma_total_backoff_step(initial_backoff_ms, attempts);
                    }
                }
                match next_retry_step(attempts, max_retries, initial_backoff_ms) {
                    RetryDecision::GiveUp => {
                        return RetryOutcome { result: Err(e), attempts, total_backoff_ms };
                    },
                    RetryDecision::RetryAfter { pause_ms } => {
                        total_backoff_ms = total_backoff_ms + pause_ms;
                    },
                }
            },
        }
    }
}

/// Like `with_retry`, but a failure classified non-transient is returned at
/// once: retrying cannot fix it, so no further attempt and no pause is
/// spent.  Only transient failures use the schedule up.
pub fn with_transient_retry<T, E: IsTransient, F: Fn() -> Result<T, E>>(
    operation: F,
    max_retries: u32,
    initial_backoff_ms: u64,
) -> (outcome: RetryOutcome<T, E>)
    requires
        call_requires(operation, ()),
        max_retries < u32::MAX,
        total_backoff_spec(initial_backoff_ms, max_retries as nat) <= u64::MAX,
    ensures
        1 <= outcome.attempts <= max_retries + 1,
        outcome.total_backoff_ms == total_backoff_spec(
            initial_backoff_ms,
            (outcome.attempts - 1) as nat,
        ),
        match outcome.result {
            Ok(v) => call_ensures(operation, (), Ok::<T, E>(v)),
            Err(e) => call_ensures(operation, (), Err::<T, E>(e)) && (e.is_transient_spec()
                ==> outcome.attempts == max_retries + 1),
        },
        outcome.attempts > 1 ==> exists|e: E|
            call_ensures(operation, (), Err::<T, E>(e)) && e.is_transient_spec(),
{
    let mut attempts: u32 = 0;
    let mut total_backoff_ms: u64 = 0;
    proof {
        lemma2_to64();
    }
    loop
        invariant
            call_requires(operation, ()),
            max_retries < u32::MAX,
            total_backoff_spec(initial_backoff_ms, max_retries as nat) <= u64::MAX,
            attempts <= max_retries,
            total_backoff_ms == total_backoff_spec(initial_backoff_ms, attempts as nat),
            attempts >= 1 ==> exists|e: E|
                call_ensures(operation, (), Err::<T, E>(e)) && e.is_transient_spec(),
        decreases max_retries - attempts,
    {
        match operation() {
            Ok(v) => {
                return RetryOutcome { result: Ok(v), attempts: attempts + 1, total_backoff_ms };
            },
            Err(e) => {
                if !e.is_transient() {
                    return RetryOutcome { result: Err(e), attempts: attempts + 1, total_backoff_ms };
                }
                attempts = attempts + 1;
                proof {
                    if attempts <= max_retries {
                        lemma_backoff_bounds(initial_backoff_ms, attempts, max_retries);
                        lemma_total_backoff_step(initial_backoff_ms, attempts);
                    }
                }
                match next_retry_step(attempts, max_retries, initial_backoff_ms) {
                    RetryDecision::GiveUp => {
                        return RetryOutcome { result: Err(e), attempts, total_backoff_ms };
                    },
                    RetryDecision::RetryAfter { pause_ms } => {
                        total_backoff_ms = total_backoff_ms + pause_ms;
                    },
                }
            },
        }
    }
}

} // verus!

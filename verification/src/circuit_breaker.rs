//! A three-state circuit breaker guarding calls against a remote endpoint.
//!
//! The breaker is `Closed` while the endpoint behaves, `Open` (short-circuiting
//! every call) for a configured cooldown after too many consecutive failures,
//! and `HalfOpen` for a single probe call once the cooldown has elapsed.
//! Time enters every transition as an explicit millisecond clock value, so the
//! whole state machine is plain data.

use vstd::prelude::*;

verus! {

/// The breaker's state.  `Open` carries the clock value from which the next
/// call may probe the endpoint again.
#[derive(Clone, Copy, Debug, PartialEq, Eq, Structural)]
pub enum BreakerState {
    Closed,
    Open { until_ms: u64 },
    HalfOpen,
}

/// The error a guarded call reports: either the breaker short-circuited the
/// call (`CircuitOpen`, the operation was never invoked), or the operation
/// ran and failed (`Inner`).
#[derive(Debug)]
pub enum CircuitBreakerError<E> {
    CircuitOpen,
    Inner(E),
}

/// A circuit breaker with a consecutive-failure counter.
#[derive(Clone, Copy, Debug, PartialEq, Eq, Structural)]
pub struct CircuitBreaker {
    pub state: BreakerState,
    pub failure_threshold: u32,
    pub open_duration_ms: u64,
    pub consecutive_failures: u32,
}

/// When the circuit opens at `now_ms` it stays open until `now_ms` plus the
/// configured duration, saturating at the clock's end.
pub open spec fn open_until_spec(now_ms: u64, open_duration_ms: u64) -> u64 {
    if now_ms + open_duration_ms > u64::MAX {
        u64::MAX
    } else {
        (now_ms + open_duration_ms) as u64
    }
}

/// The counter increment; it saturates instead of wrapping.
pub open spec fn saturating_inc_spec(c: u32) -> u32 {
    if c == u32::MAX {
        c
    } else {
        (c + 1) as u32
    }
}

/// State resolution at the top of a call: an `Open` circuit whose cooldown
/// has elapsed promotes to `HalfOpen`; everything else is unchanged.
pub open spec fn resolve_spec(b: CircuitBreaker, now_ms: u64) -> CircuitBreaker {
    match b.state {
        BreakerState::Open { until_ms } => if now_ms >= until_ms {
            CircuitBreaker { state: BreakerState::HalfOpen, ..b }
        } else {
            b
        },
        _ => b,
    }
}

/// The transition on a successful call: a `HalfOpen` probe success closes
/// the circuit and resets the counter; a success while `Closed` resets the
/// counter.
pub open spec fn success_spec(b: CircuitBreaker) -> CircuitBreaker {
    match b.state {
        BreakerState::HalfOpen => CircuitBreaker {
            state: BreakerState::Closed,
            consecutive_failures: 0,
            ..b
        },
        BreakerState::Closed => CircuitBreaker { consecutive_failures: 0, ..b },
        _ => b,
    }
}

/// The transition on a failed call: a `HalfOpen` probe failure reopens the
/// circuit at once (no threshold applies); a failure while `Closed` counts,
/// and opens the circuit when the count reaches the threshold.
pub open spec fn failure_spec(b: CircuitBreaker, now_ms: u64) -> CircuitBreaker {
    match b.state {
        BreakerState::HalfOpen => CircuitBreaker {
            state: BreakerState::Open { until_ms: open_until_spec(now_ms, b.open_duration_ms) },
            ..b
        },
        BreakerState::Closed => {
            let c = saturating_inc_spec(b.consecutive_failures);
            if c >= b.failure_threshold {
                CircuitBreaker {
                    state: BreakerState::Open {
                        until_ms: open_until_spec(now_ms, b.open_duration_ms),
                    },
                    consecutive_failures: c,
                    ..b
                }
            } else {
                CircuitBreaker { consecutive_failures: c, ..b }
            }
        },
        _ => b,
    }
}

impl CircuitBreaker {
    /// Creates a closed breaker with the given threshold and cooldown.
    pub fn new(failure_threshold: u32, open_duration_ms: u64) -> (b: CircuitBreaker)
        ensures
            b == (CircuitBreaker {
                state: BreakerState::Closed,
                failure_threshold,
                open_duration_ms,
                consecutive_failures: 0u32,
            }),
    {
        CircuitBreaker {
            state: BreakerState::Closed,
            failure_threshold,
            open_duration_ms,
            consecutive_failures: 0,
        }
    }

    /// Resolves the state at `now_ms` and says whether a call may proceed:
    /// it may unless the circuit is (still) open.
    pub fn try_acquire(&mut self, now_ms: u64) -> (proceed: bool)
        ensures
            *final(self) == resolve_spec(*old(self), now_ms),
            proceed == !(final(self).state is Open),
    {
        if let BreakerState::Open { until_ms } = self.state {
            if now_ms >= until_ms {
                self.state = BreakerState::HalfOpen;
            }
        }
        !(matches!(self.state, BreakerState::Open { .. }))
    }

    /// Applies a call's outcome to the breaker.
    pub fn handle_result(&mut self, success: bool, now_ms: u64)
        ensures
            *final(self) == if success {
                success_spec(*old(self))
            } else {
                failure_spec(*old(self), now_ms)
            },
    {
        if success {
            match self.state {
                BreakerState::HalfOpen => {
                    self.state = BreakerState::Closed;
                    self.consecutive_failures = 0;
                },
                BreakerState::Closed => {
                    self.consecutive_failures = 0;
                },
                _ => {},
            }
        } else {
            match self.state {
                BreakerState::HalfOpen => {
                    self.state = BreakerState::Open { until_ms: self.open_until(now_ms) };
                },
                BreakerState::Closed => {
                    let c = if self.consecutive_failures == u32::MAX {
                        u32::MAX
                    } else {
                        self.consecutive_failures + 1
                    };
                    self.consecutive_failures = c;
                    if c >= self.failure_threshold {
                        self.state = BreakerState::Open { until_ms: self.open_until(now_ms) };
                    }
                },
                _ => {},
            }
        }
    }

    /// The clock value until which a circuit opened at `now_ms` stays open.
    fn open_until(&self, now_ms: u64) -> (until_ms: u64)
        ensures
            until_ms == open_until_spec(now_ms, self.open_duration_ms),
    {
        if now_ms > u64::MAX - self.open_duration_ms {
            u64::MAX
        } else {
            now_ms + self.open_duration_ms
        }
    }

    /// Runs `operation` under the breaker at clock value `now_ms`.  While the
    /// circuit is open the operation is not invoked and `CircuitOpen` is
    /// returned; otherwise the operation runs and its outcome drives the
    /// state transition.
    pub fn execute<T, E, F: Fn() -> Result<T, E>>(&mut self, now_ms: u64, operation: F) -> (r:
        Result<T, CircuitBreakerError<E>>)
        requires
            call_requires(operation, ()),
        ensures
            ({
                let resolved = resolve_spec(*old(self), now_ms);
                match r {
                    Ok(t) => !(resolved.state is Open) && call_ensures(operation, (), Ok::<T, E>(t))
                        && *final(self) == success_spec(resolved),
                    Err(CircuitBreakerError::Inner(e)) => !(resolved.state is Open)
                        && call_ensures(operation, (), Err::<T, E>(e)) && *final(self)
                        == failure_spec(resolved, now_ms),
                    Err(CircuitBreakerError::CircuitOpen) => resolved.state is Open && *final(self)
                        == resolved,
                }
            }),
    {
        let proceed = self.try_acquire(now_ms);
        if proceed {
            match operation() {
                Ok(t) => {
                    self.handle_result(true, now_ms);
                    Ok(t)
                },
                Err(e) => {
                    self.handle_result(false, now_ms);
                    Err(CircuitBreakerError::Inner(e))
                },
            }
        } else {
            Err(CircuitBreakerError::CircuitOpen)
        }
    }
}

/// The breaker after `n` consecutive failed calls, all at clock value
/// `now_ms`.
pub open spec fn apply_failures_spec(b: CircuitBreaker, n: nat, now_ms: u64) -> CircuitBreaker
    decreases n,
{
    if n == 0 {
        b
    } else {
        failure_spec(apply_failures_spec(b, (n - 1) as nat, now_ms), now_ms)
    }
}

/// While fewer failures than the threshold have accumulated, the circuit
/// stays closed and the counter counts them exactly.
proof fn lemma_breaker_counts_failures(b0: CircuitBreaker, n: nat, now_ms: u64)
    requires
        b0.state is Closed,
        b0.consecutive_failures == 0,
        n < b0.failure_threshold,
    ensures
        apply_failures_spec(b0, n, now_ms) == (CircuitBreaker {
            state: BreakerState::Closed,
            consecutive_failures: n as u32,
            ..b0
        }),
    decreases n,
{
    if n > 0 {
        lemma_breaker_counts_failures(b0, (n - 1) as nat, now_ms);
    }
}

/// Breaker tripping law: from a fresh closed breaker with threshold `T >= 1`,
/// `T` consecutive failures open the circuit until `now_ms` plus the
/// configured cooldown; while the cooldown lasts, resolution leaves the
/// circuit open (so a call short-circuits), and once it has elapsed the next
/// resolution promotes the circuit to `HalfOpen`.
pub proof fn lemma_breaker_opens_after_threshold(
    failure_threshold: u32,
    open_duration_ms: u64,
    now_ms: u64,
)
    requires
        1 <= failure_threshold,
    ensures
        ({
            let b0 = CircuitBreaker {
                state: BreakerState::Closed,
                failure_threshold,
                open_duration_ms,
                consecutive_failures: 0u32,
            };
            let until_ms = open_until_spec(now_ms, open_duration_ms);
            let bt = apply_failures_spec(b0, failure_threshold as nat, now_ms);
            &&& bt.state == (BreakerState::Open { until_ms })
            &&& forall|now2: u64| now2 < until_ms ==> resolve_spec(bt, now2) == bt
            &&& forall|now2: u64|
                now2 >= until_ms ==> resolve_spec(bt, now2).state is HalfOpen
        }),
{
    let b0 = CircuitBreaker {
        state: BreakerState::Closed,
        failure_threshold,
        open_duration_ms,
        consecutive_failures: 0u32,
    };
    lemma_breaker_counts_failures(b0, (failure_threshold - 1) as nat, now_ms);
    assert(apply_failures_spec(b0, failure_threshold as nat, now_ms) == failure_spec(
        apply_failures_spec(b0, (failure_threshold - 1) as nat, now_ms),
        now_ms,
    ));
}

/// Probe law: the single `HalfOpen` probe decides the circuit alone.  A
/// successful probe closes the circuit and resets the counter; a failed
/// probe reopens it at once, with no threshold consulted.
pub proof fn lemma_breaker_probe(b: CircuitBreaker, now_ms: u64)
    requires
        b.state is HalfOpen,
    ensures
        success_spec(b) == (CircuitBreaker {
            state: BreakerState::Closed,
            consecutive_failures: 0u32,
            ..b
        }),
        failure_spec(b, now_ms) == (CircuitBreaker {
            state: BreakerState::Open { until_ms: open_until_spec(now_ms, b.open_duration_ms) },
            ..b
        }),
{
}

} // verus!

//! Retrying an operation with exponential backoff between attempts.
use vstd::prelude::*;
use std::time::Duration;
use vstd::arithmetic::power2::{lemma_pow2, lemma_pow2_unfold, pow2};

verus! {

/// The longest duration there is, in nanoseconds.
pub const DURATION_MAX_NANOS: u128 = 18_446_744_073_709_551_615_999_999_999;

/// Configuration for the retry functions.
#[derive(Debug, Clone, Copy, PartialEq, Eq)]
pub struct ExponentialBackoff {
    /// Number of retries after the first failed attempt.
    pub max_retries: u32,
    /// Wait duration before the first retry.
    pub initial_wait: Duration,
    /// Maximum wait duration between retries.
    pub max_wait: Duration,
}

impl ExponentialBackoff {
    pub fn new(max_retries: u32, initial_wait: Duration, max_wait: Duration) -> (r: Self)
        ensures
            r.max_retries == max_retries,
            r.initial_wait == initial_wait,
            r.max_wait == max_wait,
    {
        ExponentialBackoff { max_retries, initial_wait, max_wait }
    }
}

impl Default for ExponentialBackoff {
    /// Three retries, waiting one second at first and at most thirty.
    fn default() -> (r: Self)
        ensures
            r.max_retries == 3,
            nanos_of(r.initial_wait) == 1_000_000_000,
            nanos_of(r.max_wait) == 30_000_000_000,
    {
        ExponentialBackoff {
            max_retries: 3,
            initial_wait: duration_from_secs(1),
            max_wait: duration_from_secs(30),
        }
    }
}

/// How an attempt failed.
pub enum RetryError<E> {
    /// A transient failure: the operation is retried after a backoff.
    Retryable(E),
    /// A permanent failure: the operation is not retried.
    Fatal(E),
}

impl<E> RetryError<E> {
    /// The error, whichever way the attempt failed.
    pub fn into_inner(self) -> (e: E)
        ensures
            e == match self {
                RetryError::Retryable(x) => x,
                RetryError::Fatal(x) => x,
            },
    {
        match self {
            RetryError::Retryable(e) => e,
            RetryError::Fatal(e) => e,
        }
    }
}

/// The error of a failed attempt, whichever way it failed.
pub open spec fn inner_error<E>(x: RetryError<E>) -> E {
    match x {
        RetryError::Retryable(e) => e,
        RetryError::Fatal(e) => e,
    }
}

/// Whether an attempt that gave `x` leads to the result `r`.
pub open spec fn gives<T, E>(x: Result<T, RetryError<E>>, r: Result<T, E>) -> bool {
    match (x, r) {
        (Ok(a), Ok(b)) => a == b,
        (Err(a), Err(b)) => inner_error(a) == b,
        _ => false,
    }
}

pub open spec fn min(a: int, b: int) -> int {
    if a <= b {
        a
    } else {
        b
    }
}

/// The wait before the first retry: the initial wait, capped.
pub open spec fn spec_first_wait(initial: int, max: int) -> int {
    min(initial, max)
}

/// The wait after `w`: twice `w` (saturating at the longest duration),
/// capped at `max`.
pub open spec fn spec_next_wait(w: int, max: int) -> int {
    min(min(2 * w, DURATION_MAX_NANOS as int), max)
}

/// The wait before retry number `k + 1`.
pub open spec fn spec_nth_wait(initial: int, max: int, k: nat) -> int
    decreases k,
{
    if k == 0 {
        spec_first_wait(initial, max)
    } else {
        spec_next_wait(spec_nth_wait(initial, max, (k - 1) as nat), max)
    }
}

/// Each retry waits twice as long as the one before, starting from the
/// initial wait, but never longer than the maximum wait: the wait before
/// retry `k + 1` is `min(initial * 2^k, max)`.
pub proof fn wait_doubles_until_capped(initial: nat, max: nat, k: nat)
    requires
        max <= DURATION_MAX_NANOS,
    ensures
        spec_nth_wait(initial as int, max as int, k) == min((initial * pow2(k)) as int, max as int),
    decreases k,
{
    if k == 0 {
        assert(pow2(0) == 1) by {
            lemma_pow2(0);
            reveal(vstd::arithmetic::power::pow);
        }
    } else {
        wait_doubles_until_capped(initial, max, (k - 1) as nat);
        lemma_pow2_unfold(k);
        let prev = initial * pow2((k - 1) as nat);
        assert(initial * pow2(k) == 2 * prev) by (nonlinear_arith)
            requires
                pow2(k) == 2 * pow2((k - 1) as nat),
                prev == initial * pow2((k - 1) as nat),
        ;
    }
}

/// The wait before the first retry.
pub fn first_wait(initial: u128, max: u128) -> (w: u128)
    ensures
        w == spec_first_wait(initial as int, max as int),
{
    if initial <= max {
        initial
    } else {
        max
    }
}

/// The wait that follows a wait of `w`.
pub fn next_wait(w: u128, max: u128) -> (r: u128)
    requires
        w <= DURATION_MAX_NANOS,
    ensures
        r == spec_next_wait(w as int, max as int),
{
    let doubled = if w <= DURATION_MAX_NANOS / 2 {
        w * 2
    } else {
        DURATION_MAX_NANOS
    };
    if doubled <= max {
        doubled
    } else {
        max
    }
}

/// What `Duration::as_secs` gives: the whole seconds.
pub uninterp spec fn duration_secs(d: Duration) -> u64;

/// What `Duration::subsec_nanos` gives: the nanoseconds past the whole
/// seconds.
pub uninterp spec fn duration_subsec_nanos(d: Duration) -> u32;

/// The length of a duration in nanoseconds.
pub open spec fn nanos_of(d: Duration) -> int {
    duration_secs(d) * 1_000_000_000 + duration_subsec_nanos(d)
}

/// `Duration::from_secs`: `secs` whole seconds.
#[verifier::external_body]
pub(crate) fn duration_from_secs(secs: u64) -> (d: Duration)
    ensures
        duration_secs(d) == secs,
        duration_subsec_nanos(d) == 0,
{
    Duration::from_secs(secs)
}

/// `Duration::new`: `secs` seconds and `nanos` nanoseconds, which stay below
/// a second.
#[verifier::external_body]
fn duration_new(secs: u64, nanos: u32) -> (d: Duration)
    requires
        nanos < 1_000_000_000,
    ensures
        duration_secs(d) == secs,
        duration_subsec_nanos(d) == nanos,
{
    Duration::new(secs, nanos)
}

/// `Duration::as_secs`.
#[verifier::external_body]
fn duration_as_secs(d: &Duration) -> (secs: u64)
    ensures
        secs == duration_secs(*d),
{
    d.as_secs()
}

/// `Duration::subsec_nanos`, which is below one second.
#[verifier::external_body]
fn duration_subsec_nanos_of(d: &Duration) -> (nanos: u32)
    ensures
        nanos == duration_subsec_nanos(*d),
        nanos < 1_000_000_000,
{
    d.subsec_nanos()
}

/// The length of `d` in nanoseconds.
pub fn duration_to_nanos(d: &Duration) -> (n: u128)
    ensures
        n == nanos_of(*d),
        n <= DURATION_MAX_NANOS,
{
    let secs = duration_as_secs(d) as u128;
    let nanos = duration_subsec_nanos_of(d) as u128;
    secs * 1_000_000_000 + nanos
}

/// The duration of `n` nanoseconds.
pub fn duration_from_nanos(n: u128) -> (d: Duration)
    requires
        n <= DURATION_MAX_NANOS,
    ensures
        nanos_of(d) == n,
{
    let secs = (n / 1_000_000_000) as u64;
    let nanos = (n % 1_000_000_000) as u32;
    duration_new(secs, nanos)
}

/// What to do after a failed attempt.
#[derive(Debug, Clone, Copy, PartialEq, Eq)]
pub enum RetryDecision {
    /// Give up and return the error.
    Stop,
    /// Sleep this many nanoseconds, then try again.
    SleepThenRetry(u128),
}

/// The decision after failed attempt number `attempt` of `total_attempts`,
/// when the next wait would be `wait`.
pub fn decide_after_failure(attempt: u64, total_attempts: u64, retryable: bool, wait: u128) -> (r:
    RetryDecision)
    ensures
        r == if !retryable || attempt >= total_attempts {
            RetryDecision::Stop
        } else {
            RetryDecision::SleepThenRetry(wait)
        },
{
    if !retryable || attempt >= total_attempts {
        RetryDecision::Stop
    } else {
        RetryDecision::SleepThenRetry(wait)
    }
}

/// Whether attempt number `i` (counted from 1) of `operation` gave `r`.
pub open spec fn attempt_gave<T, E, F: FnMut(u64) -> Result<T, E>>(
    operation: F,
    i: int,
    r: Result<T, E>,
) -> bool {
    call_ensures(operation, (i as u64,), r)
}

/// Whether attempt number `i` of `operation` failed.
pub open spec fn attempt_failed<T, E, F: FnMut(u64) -> Result<T, E>>(operation: F, i: int) -> bool {
    exists|e: E| #[trigger] attempt_gave(operation, i, Err::<T, E>(e))
}

/// Whether attempt number `i` of a selective `operation` failed with a
/// retryable error.
pub open spec fn attempt_retryable<T, E, F: FnMut(u64) -> Result<T, RetryError<E>>>(
    operation: F,
    i: int,
) -> bool {
    exists|e: E| #[trigger] attempt_gave(operation, i, Err::<T, RetryError<E>>(RetryError::Retryable(e)))
}

/// Whether `sleep` was handed, before retry number `i`, a duration of `wait`
/// nanoseconds.
pub open spec fn slept<S: FnMut(u64, Duration)>(sleep: S, i: int, wait: int) -> bool {
    exists|d: Duration| nanos_of(d) == wait && #[trigger] call_ensures(sleep, (i as u64, d), ())
}

/// The wait before retry number `i` (counted from 1) under `backoff`.
pub open spec fn backoff_wait(backoff: ExponentialBackoff, i: int) -> int {
    spec_nth_wait(nanos_of(backoff.initial_wait), nanos_of(backoff.max_wait), (i - 1) as nat)
}

/// Runs `operation` until it succeeds or `backoff.max_retries` retries have
/// failed. Attempt `i` (counted from 1) is `operation(i)`; before retry `i`,
/// `sleep(i, wait)` is called with the backoff wait: the initial wait
/// first, each further one twice the one before, never beyond the maximum
/// wait. The result is that of the last attempt made: the first success,
/// or the error of attempt `max_retries + 1`.
pub fn retry_with_exponential_backoff_with_sleep<T, E, F, S>(
    operation_name: &str,
    backoff: ExponentialBackoff,
    operation: F,
    sleep: S,
) -> (r: Result<T, E>) where F: FnMut(u64) -> Result<T, E>, S: FnMut(u64, Duration)
    requires
        forall|i: u64| call_requires(operation, (i,)),
        forall|i: u64, d: Duration| call_requires(sleep, (i, d)),
    ensures
        exists|n: int|
            {
                &&& 1 <= n <= backoff.max_retries + 1
                &&& forall|i: int| 1 <= i < n ==> #[trigger] attempt_failed(operation, i)
                &&& forall|i: int|
                    1 <= i < n ==> #[trigger] slept(sleep, i, backoff_wait(backoff, i))
                &&& #[trigger] attempt_gave(operation, n, r)
                &&& r is Err ==> n == backoff.max_retries + 1
            },
{
    let mut op = operation;
    let mut sl = sleep;
    let total: u64 = backoff.max_retries as u64 + 1;
    let max = duration_to_nanos(&backoff.max_wait);
    let mut wait = first_wait(duration_to_nanos(&backoff.initial_wait), max);
    let mut attempt: u64 = 1;
    loop
        invariant
            op == operation,
            sl == sleep,
            forall|i: u64| call_requires(operation, (i,)),
            forall|i: u64, d: Duration| call_requires(sleep, (i, d)),
            1 <= attempt <= total,
            total == backoff.max_retries as u64 + 1,
            max == nanos_of(backoff.max_wait),
            max <= DURATION_MAX_NANOS,
            wait == backoff_wait(backoff, attempt as int),
            wait <= max,
            forall|i: int| 1 <= i < attempt ==> #[trigger] attempt_failed(operation, i),
            forall|i: int| 1 <= i < attempt ==> #[trigger] slept(sleep, i, backoff_wait(backoff, i)),
        decreases total - attempt,
    {
        let result = op(attempt);
        assert(attempt_gave(operation, attempt as int, result));
        match result {
            Ok(v) => {
                return Ok(v);
            },
            Err(e) => {
                assert(attempt_gave(operation, attempt as int, Err::<T, E>(e)));
                match decide_after_failure(attempt, total, true, wait) {
                    RetryDecision::Stop => {
                        return Err(e);
                    },
                    RetryDecision::SleepThenRetry(w) => {
                        let d = duration_from_nanos(w);
                        sl(attempt, d);
                        assert(call_ensures(sleep, (attempt, d), ()));
                        assert(slept(sleep, attempt as int, backoff_wait(backoff, attempt as int)));
                        wait = next_wait(wait, max);
                        attempt = attempt + 1;
                    },
                }
            },
        }
    }
}

/// Like [`retry_with_exponential_backoff_with_sleep`], but an attempt that
/// fails with [`RetryError::Fatal`] ends the retries at once; the result is
/// then its error.
pub fn retry_with_exponential_backoff_selective_with_sleep<T, E, F, S>(
    operation_name: &str,
    backoff: ExponentialBackoff,
    operation: F,
    sleep: S,
) -> (r: Result<T, E>) where F: FnMut(u64) -> Result<T, RetryError<E>>, S: FnMut(u64, Duration)
    requires
        forall|i: u64| call_requires(operation, (i,)),
        forall|i: u64, d: Duration| call_requires(sleep, (i, d)),
    ensures
        exists|n: int, x: Result<T, RetryError<E>>|
            {
                &&& 1 <= n <= backoff.max_retries + 1
                &&& forall|i: int| 1 <= i < n ==> #[trigger] attempt_retryable(operation, i)
                &&& forall|i: int|
                    1 <= i < n ==> #[trigger] slept(sleep, i, backoff_wait(backoff, i))
                &&& #[trigger] attempt_gave(operation, n, x)
                &&& gives(x, r)
                &&& x matches Err(RetryError::Retryable(_)) ==> n == backoff.max_retries + 1
            },
{
    let mut op = operation;
    let mut sl = sleep;
    let total: u64 = backoff.max_retries as u64 + 1;
    let max = duration_to_nanos(&backoff.max_wait);
    let mut wait = first_wait(duration_to_nanos(&backoff.initial_wait), max);
    let mut attempt: u64 = 1;
    loop
        invariant
            op == operation,
            sl == sleep,
            forall|i: u64| call_requires(operation, (i,)),
            forall|i: u64, d: Duration| call_requires(sleep, (i, d)),
            1 <= attempt <= total,
            total == backoff.max_retries as u64 + 1,
            max == nanos_of(backoff.max_wait),
            max <= DURATION_MAX_NANOS,
            wait == backoff_wait(backoff, attempt as int),
            wait <= max,
            forall|i: int| 1 <= i < attempt ==> #[trigger] attempt_retryable(operation, i),
            forall|i: int| 1 <= i < attempt ==> #[trigger] slept(sleep, i, backoff_wait(backoff, i)),
        decreases total - attempt,
    {
        let result = op(attempt);
        let ghost x = result;
        assert(attempt_gave(operation, attempt as int, x));
        match result {
            Ok(v) => {
                assert(gives(x, Ok::<T, E>(v)));
                return Ok(v);
            },
            Err(failure) => {
                let retryable = match &failure {
                    RetryError::Retryable(_) => true,
                    RetryError::Fatal(_) => false,
                };
                match decide_after_failure(attempt, total, retryable, wait) {
                    RetryDecision::Stop => {
                        let e = failure.into_inner();
                        assert(gives(x, Err::<T, E>(e)));
                        return Err(e);
                    },
                    RetryDecision::SleepThenRetry(w) => {
                        proof {
                            let e0 = inner_error(failure);
                            assert(x == Err::<T, RetryError<E>>(RetryError::Retryable(e0)));
                            assert(attempt_gave(
                                operation,
                                attempt as int,
                                Err::<T, RetryError<E>>(RetryError::Retryable(e0)),
                            ));
                        }
                        let d = duration_from_nanos(w);
                        sl(attempt, d);
                        assert(call_ensures(sleep, (attempt, d), ()));
                        assert(slept(sleep, attempt as int, backoff_wait(backoff, attempt as int)));
                        wait = next_wait(wait, max);
                        attempt = attempt + 1;
                    },
                }
            },
        }
    }
}

} // verus!

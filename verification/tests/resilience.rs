use finance_as_code::resilience::{
    duration_from_nanos, duration_to_nanos, first_wait, next_wait,
    retry_with_exponential_backoff_selective_with_sleep, retry_with_exponential_backoff_with_sleep,
    ExponentialBackoff, RetryError,
};
use std::cell::RefCell;
use std::time::Duration;

#[test]
fn retries_then_returns_success() {
    let waits = RefCell::new(Vec::<Duration>::new());
    let mut attempts = 0;

    let result = retry_with_exponential_backoff_with_sleep(
        "test-op",
        ExponentialBackoff::new(5, Duration::from_millis(10), Duration::from_millis(100)),
        |_attempt| {
            attempts += 1;
            if attempts < 4 {
                Err("temporary")
            } else {
                Ok("ok")
            }
        },
        |_retry, duration| waits.borrow_mut().push(duration),
    );

    assert_eq!(result.unwrap(), "ok");
    assert_eq!(attempts, 4);
    let waits = waits.into_inner();
    assert_eq!(
        waits.as_slice(),
        &[Duration::from_millis(10), Duration::from_millis(20), Duration::from_millis(40)]
    );
}

#[test]
fn backoff_wait_is_capped_by_max_wait() {
    let waits = RefCell::new(Vec::<Duration>::new());
    let mut attempts = 0;

    let result = retry_with_exponential_backoff_with_sleep(
        "test-op",
        ExponentialBackoff::new(3, Duration::from_millis(50), Duration::from_millis(60)),
        |_attempt| {
            attempts += 1;
            if attempts < 4 {
                Err("temporary")
            } else {
                Ok(7_u32)
            }
        },
        |_retry, duration| waits.borrow_mut().push(duration),
    );

    assert_eq!(result.unwrap(), 7);
    let waits = waits.into_inner();
    assert_eq!(
        waits.as_slice(),
        &[Duration::from_millis(50), Duration::from_millis(60), Duration::from_millis(60)]
    );
}

#[test]
fn returns_last_error_after_retries_are_exhausted() {
    let waits = RefCell::new(Vec::<Duration>::new());
    let mut attempts = 0;

    let result = retry_with_exponential_backoff_with_sleep(
        "test-op",
        ExponentialBackoff::new(2, Duration::from_millis(5), Duration::from_millis(20)),
        |_attempt| -> Result<(), &str> {
            attempts += 1;
            Err("still failing")
        },
        |_retry, duration| waits.borrow_mut().push(duration),
    );

    assert_eq!(result.unwrap_err(), "still failing");
    assert_eq!(attempts, 3);
    let waits = waits.into_inner();
    assert_eq!(waits.as_slice(), &[Duration::from_millis(5), Duration::from_millis(10)]);
}

#[test]
fn successful_first_attempt_does_not_sleep() {
    let waits = RefCell::new(Vec::<Duration>::new());

    let result = retry_with_exponential_backoff_with_sleep(
        "test-op",
        ExponentialBackoff::new(3, Duration::from_millis(5), Duration::from_millis(20)),
        |_attempt| Ok::<_, &str>(123_i32),
        |_retry, duration| waits.borrow_mut().push(duration),
    );

    assert_eq!(result.unwrap(), 123);
    assert!(waits.into_inner().is_empty());
}

#[test]
fn selective_fatal_error_stops_immediately_without_retrying() {
    let waits = RefCell::new(Vec::<Duration>::new());
    let mut attempts = 0;

    let result: Result<&str, &str> = retry_with_exponential_backoff_selective_with_sleep(
        "test-op",
        ExponentialBackoff::new(3, Duration::from_millis(5), Duration::from_millis(20)),
        |_attempt| {
            attempts += 1;
            Err(RetryError::Fatal("permanent error"))
        },
        |_retry, duration| waits.borrow_mut().push(duration),
    );

    assert_eq!(result.unwrap_err(), "permanent error");
    assert_eq!(attempts, 1);
    assert!(waits.into_inner().is_empty());
}

#[test]
fn selective_retryable_error_retries_then_succeeds() {
    let waits = RefCell::new(Vec::<Duration>::new());
    let mut attempts = 0;

    let result = retry_with_exponential_backoff_selective_with_sleep(
        "test-op",
        ExponentialBackoff::new(3, Duration::from_millis(5), Duration::from_millis(20)),
        |_attempt| -> Result<&str, RetryError<&str>> {
            attempts += 1;
            if attempts < 3 {
                Err(RetryError::Retryable("transient"))
            } else {
                Ok("done")
            }
        },
        |_retry, duration| waits.borrow_mut().push(duration),
    );

    assert_eq!(result.unwrap(), "done");
    assert_eq!(attempts, 3);
    assert_eq!(waits.into_inner().len(), 2);
}

#[test]
fn waits_double_until_the_cap_then_stay() {
    let max: u128 = 1_000;
    let mut w = first_wait(30, max);
    let mut seen = vec![w];
    for _ in 0..6 {
        w = next_wait(w, max);
        seen.push(w);
    }
    assert_eq!(seen, vec![30, 60, 120, 240, 480, 960, 1000]);
}

#[test]
fn default_backoff_is_three_retries_from_one_to_thirty_seconds() {
    let b = ExponentialBackoff::default();
    assert_eq!(b.max_retries, 3);
    assert_eq!(b.initial_wait, Duration::from_secs(1));
    assert_eq!(b.max_wait, Duration::from_secs(30));
}

#[test]
fn retry_error_gives_back_its_error() {
    assert_eq!(RetryError::Retryable(5).into_inner(), 5);
    assert_eq!(RetryError::Fatal("x").into_inner(), "x");
}

#[test]
fn durations_convert_to_nanoseconds_and_back() {
    let d = Duration::new(3, 250);
    assert_eq!(duration_to_nanos(&d), 3_000_000_250);
    assert_eq!(duration_from_nanos(3_000_000_250), d);
}

#[test]
fn attempts_and_retries_are_numbered_from_one() {
    let attempts = RefCell::new(Vec::<u64>::new());
    let sleeps = RefCell::new(Vec::<(u64, Duration)>::new());
    let result = retry_with_exponential_backoff_with_sleep(
        "test-op",
        ExponentialBackoff::new(2, Duration::from_millis(5), Duration::from_millis(20)),
        |attempt| -> Result<(), &str> {
            attempts.borrow_mut().push(attempt);
            Err("still failing")
        },
        |retry, duration| sleeps.borrow_mut().push((retry, duration)),
    );
    assert_eq!(result, Err("still failing"));
    assert_eq!(attempts.into_inner(), vec![1, 2, 3]);
    assert_eq!(
        sleeps.into_inner(),
        vec![(1, Duration::from_millis(5)), (2, Duration::from_millis(10))]
    );
}

#[test]
fn selective_fatal_error_after_a_retry_ends_the_loop() {
    let attempts = RefCell::new(Vec::<u64>::new());
    let sleeps = RefCell::new(Vec::<Duration>::new());
    let result: Result<&str, &str> = retry_with_exponential_backoff_selective_with_sleep(
        "upload",
        ExponentialBackoff::new(3, Duration::from_millis(10), Duration::from_millis(40)),
        |attempt| {
            attempts.borrow_mut().push(attempt);
            match attempt {
                1 => Err(RetryError::Retryable("transient")),
                2 => Err(RetryError::Fatal("permanent")),
                _ => Ok("done"),
            }
        },
        |_retry, duration| sleeps.borrow_mut().push(duration),
    );
    assert_eq!(result, Err("permanent"));
    assert_eq!(attempts.into_inner(), vec![1, 2]);
    assert_eq!(sleeps.into_inner(), vec![Duration::from_millis(10)]);
}

use cr_price::limiter::{RateLimitExceeded, RateLimiter};

#[test]
fn first_call_is_accepted() {
    let mut limiter = RateLimiter::new(2_000_000_000);
    assert_eq!(limiter.last_accepted_nanos(), None);
    assert_eq!(limiter.interval_nanos(), 2_000_000_000);
    assert_eq!(limiter.try_acquire_at(0), Ok(()));
    assert_eq!(limiter.last_accepted_nanos(), Some(0));
}

#[test]
fn second_call_within_interval_is_refused_with_the_wait() {
    let mut limiter = RateLimiter::new(1_000);
    assert_eq!(limiter.try_acquire_at(500), Ok(()));
    assert_eq!(limiter.try_acquire_at(500), Err(RateLimitExceeded { wait_nanos: 1_000 }));
    assert_eq!(limiter.try_acquire_at(900), Err(RateLimitExceeded { wait_nanos: 600 }));
    assert_eq!(limiter.try_acquire_at(1_499), Err(RateLimitExceeded { wait_nanos: 1 }));
    assert_eq!(limiter.last_accepted_nanos(), Some(500));
}

#[test]
fn calls_spaced_by_the_interval_are_accepted() {
    let mut limiter = RateLimiter::new(1_000);
    assert_eq!(limiter.try_acquire_at(500), Ok(()));
    assert_eq!(limiter.try_acquire_at(1_500), Ok(()));
    assert_eq!(limiter.last_accepted_nanos(), Some(1_500));
    assert_eq!(limiter.try_acquire_at(9_000), Ok(()));
}

#[test]
fn refused_call_does_not_move_the_stamp() {
    let mut limiter = RateLimiter::new(1_000);
    assert_eq!(limiter.try_acquire_at(0), Ok(()));
    assert!(limiter.try_acquire_at(999).is_err());
    assert_eq!(limiter.try_acquire_at(1_000), Ok(()));
}

#[test]
fn zero_interval_accepts_every_call() {
    let mut limiter = RateLimiter::new(0);
    assert_eq!(limiter.try_acquire_at(7), Ok(()));
    assert_eq!(limiter.try_acquire_at(7), Ok(()));
}

#[test]
fn largest_times_do_not_overflow() {
    let mut limiter = RateLimiter::new(u64::MAX);
    assert_eq!(limiter.try_acquire_at(u64::MAX), Ok(()));
    assert_eq!(
        limiter.try_acquire_at(u64::MAX),
        Err(RateLimitExceeded { wait_nanos: u64::MAX as u128 })
    );
}

#[test]
fn clock_driven_calls_within_interval() {
    let interval: u64 = 3_600_000_000_000;
    let mut limiter = RateLimiter::new(interval);
    assert_eq!(limiter.try_acquire(), Ok(()));
    let stamp = limiter.last_accepted_nanos();
    assert!(stamp.is_some());
    match limiter.try_acquire() {
        Err(e) => {
            assert!(e.wait_nanos > 0);
            assert!(e.wait_nanos <= interval as u128);
        }
        Ok(()) => panic!("second call within the interval was accepted"),
    }
    assert_eq!(limiter.last_accepted_nanos(), stamp);
}

#[test]
fn clock_driven_calls_without_interval() {
    let mut limiter = RateLimiter::new(0);
    assert_eq!(limiter.try_acquire(), Ok(()));
    assert_eq!(limiter.try_acquire(), Ok(()));
}

use rate_guard_core::cores::{
    ApproximateSlidingWindowCore, FixedWindowCounterCore, LeakyBucketCore, SlidingWindowCounterCore,
    TokenBucketCore,
};
use rate_guard_core::rate_limit::RateLimitCore;
use rate_guard_core::rate_limiter_core::RateLimiterCore;
use rate_guard_core::{SimpleRateLimitError, VerboseRateLimitError};

fn all_limiters() -> Vec<Box<dyn RateLimitCore>> {
    vec![
        Box::new(FixedWindowCounterCore::new(10, 5)),
        Box::new(LeakyBucketCore::new(10, 5, 2)),
        Box::new(TokenBucketCore::new(10, 5, 2)),
        Box::new(SlidingWindowCounterCore::new(10, 5, 2)),
        Box::new(ApproximateSlidingWindowCore::new(10, 5)),
    ]
}

fn plain_limiters() -> Vec<Box<dyn RateLimiterCore>> {
    vec![
        Box::new(FixedWindowCounterCore::new(10, 5)),
        Box::new(LeakyBucketCore::new(10, 5, 2)),
        Box::new(TokenBucketCore::new(10, 5, 2)),
        Box::new(SlidingWindowCounterCore::new(10, 5, 2)),
        Box::new(ApproximateSlidingWindowCore::new(10, 5)),
    ]
}

#[test]
fn every_limiter_grants_zero_units_at_any_tick() {
    for limiter in all_limiters() {
        assert_eq!(limiter.try_acquire_at(50, 10), Ok(()));
        assert_eq!(limiter.try_acquire_at(50, 0), Ok(()));
        assert_eq!(limiter.try_acquire_at(0, 0), Ok(()));
        assert_eq!(limiter.try_acquire_verbose_at(0, 0), Ok(()));
        assert_eq!(limiter.try_acquire_at(u64::MAX, 0), Ok(()));
        assert_eq!(limiter.try_acquire_at(50, 1), Err(SimpleRateLimitError::InsufficientCapacity));
    }
}

#[test]
fn every_limiter_refuses_more_than_its_capacity() {
    for limiter in all_limiters() {
        assert_eq!(limiter.try_acquire_at(3, 11), Err(SimpleRateLimitError::InsufficientCapacity));
        assert_eq!(
            limiter.try_acquire_verbose_at(3, 11),
            Err(VerboseRateLimitError::BeyondCapacity { acquiring: 11, capacity: 10 })
        );
        assert_eq!(limiter.try_acquire_at(3, 10), Ok(()));
    }
}

#[test]
fn every_limiter_refuses_a_tick_before_its_minimum() {
    for limiter in all_limiters() {
        assert_eq!(limiter.try_acquire_at(23, 1), Ok(()));
        assert_eq!(limiter.try_acquire_at(19, 1), Err(SimpleRateLimitError::ExpiredTick));
        assert_eq!(
            limiter.try_acquire_verbose_at(19, 1),
            Err(VerboseRateLimitError::ExpiredTick { min_acceptable_tick: 20 })
        );
        assert_eq!(limiter.capacity_remaining(19), Err(SimpleRateLimitError::ExpiredTick));
        assert_eq!(limiter.capacity_remaining_or_0(19), 0);
        assert_eq!(limiter.try_acquire_at(20, 1), Ok(()));
    }
}

#[test]
fn every_limiter_answers_through_the_plain_interface() {
    let expected: [u64; 5] = [6, 4, 6, 6, 6];
    for (limiter, left) in plain_limiters().iter().zip(expected) {
        assert_eq!(limiter.try_acquire_at(0, 0), Ok(()));
        assert_eq!(limiter.try_acquire_at(0, 4), Ok(()));
        assert_eq!(limiter.capacity_remaining(0), left);
        assert_eq!(limiter.try_acquire_at(0, 7), Err(SimpleRateLimitError::InsufficientCapacity));
    }
}

#[test]
fn every_limiter_knows_its_parameters() {
    let fixed = FixedWindowCounterCore::new(10, 5);
    assert_eq!((fixed.capacity(), fixed.window_ticks()), (10, 5));
    let leaky = LeakyBucketCore::new(10, 5, 2);
    assert_eq!((leaky.capacity(), leaky.leak_interval(), leaky.leak_amount()), (10, 5, 2));
    let token = TokenBucketCore::new(10, 5, 2);
    assert_eq!((token.capacity(), token.refill_interval(), token.refill_amount()), (10, 5, 2));
    let sliding = SlidingWindowCounterCore::new(10, 5, 2);
    assert_eq!((sliding.capacity(), sliding.bucket_ticks(), sliding.bucket_count()), (10, 5, 2));
    let approximate = ApproximateSlidingWindowCore::new(10, 5);
    assert_eq!((approximate.capacity(), approximate.window_ticks()), (10, 5));
}

#[test]
fn every_limiter_grants_what_it_reports() {
    for limiter in all_limiters() {
        assert_eq!(limiter.try_acquire_at(3, 4), Ok(()));
        let mut tick = 3;
        while tick < 40 {
            let left = limiter.capacity_remaining(tick).unwrap();
            assert!(left <= 10);
            assert_eq!(limiter.try_acquire_at(tick, left), Ok(()));
            assert_eq!(limiter.try_acquire_at(tick, 1), Err(SimpleRateLimitError::InsufficientCapacity));
            tick += 3;
        }
    }
}

#[test]
fn both_paths_decide_alike() {
    let short = all_limiters();
    let diagnostic = all_limiters();
    for (a, b) in short.iter().zip(diagnostic.iter()) {
        let mut tick = 0;
        for step in 0..200u64 {
            tick += step % 3;
            let tokens = (step * 7) % 13;
            let plain = a.try_acquire_at(tick, tokens);
            let detailed = b.try_acquire_verbose_at(tick, tokens);
            match detailed {
                Ok(()) => assert_eq!(plain, Ok(())),
                Err(VerboseRateLimitError::BeyondCapacity { acquiring, capacity }) => {
                    assert_eq!((acquiring, capacity), (tokens, 10));
                    assert_eq!(plain, Err(SimpleRateLimitError::InsufficientCapacity));
                }
                Err(error) => assert_eq!(plain, Err(error.simplify())),
            }
        }
    }
}

struct Scripted {
    left: Result<u64, SimpleRateLimitError>,
}

impl RateLimitCore for Scripted {
    fn limit(&self) -> u64 {
        u64::MAX
    }

    fn try_acquire_at(&self, _tick: u64, tokens: u64) -> Result<(), SimpleRateLimitError> {
        match self.left {
            Ok(left) if tokens <= left => Ok(()),
            Ok(_) => Err(SimpleRateLimitError::InsufficientCapacity),
            Err(_) if tokens == 0 => Ok(()),
            Err(error) => Err(error),
        }
    }

    fn try_acquire_verbose_at(&self, _tick: u64, tokens: u64) -> Result<(), VerboseRateLimitError> {
        if tokens == 0 {
            Ok(())
        } else {
            Err(VerboseRateLimitError::ContentionFailure)
        }
    }

    fn capacity_remaining(&self, _tick: u64) -> Result<u64, SimpleRateLimitError> {
        self.left
    }
}

#[test]
fn remaining_or_zero_counts_every_failure_as_zero() {
    assert_eq!(Scripted { left: Ok(7) }.capacity_remaining_or_0(3), 7);
    assert_eq!(Scripted { left: Ok(0) }.capacity_remaining_or_0(3), 0);
    assert_eq!(Scripted { left: Err(SimpleRateLimitError::ExpiredTick) }.capacity_remaining_or_0(3), 0);
    assert_eq!(
        Scripted { left: Err(SimpleRateLimitError::ContentionFailure) }.capacity_remaining_or_0(3),
        0
    );
    for limiter in all_limiters() {
        assert_eq!(limiter.try_acquire_at(23, 4), Ok(()));
        assert_eq!(limiter.capacity_remaining_or_0(23), limiter.capacity_remaining(23).unwrap());
        assert_eq!(limiter.capacity_remaining(19), Err(SimpleRateLimitError::ExpiredTick));
        assert_eq!(limiter.capacity_remaining_or_0(19), 0);
    }
}

//! Quotas, denials, and the limiters themselves.

use governor::clock::QuantaClock;
use governor::state::keyed::DefaultKeyedStateStore;
use governor::state::InMemoryState;
use std::num::NonZeroU32;
use tower_gcra::limiter::{read_clock, DirectLimiter, KeyedLimiter, NotUntil, Quota, Verdict};

const HOUR: u64 = 3_600_000_000_000;

#[test]
fn quotas_that_no_limiter_can_be_made_for() {
    assert!(Quota { max_burst: 1, replenish_1_per: 1 }.is_valid());
    assert!(Quota { max_burst: u32::MAX, replenish_1_per: 1 }.is_valid());
    assert!(!Quota { max_burst: 0, replenish_1_per: 1 }.is_valid());
    assert!(!Quota { max_burst: 1, replenish_1_per: 0 }.is_valid());
    assert!(Quota { max_burst: 1, replenish_1_per: 1 << 63 }.is_valid());
    assert!(!Quota { max_burst: 1, replenish_1_per: (1 << 63) + 1 }.is_valid());
    assert!(!Quota { max_burst: 2, replenish_1_per: 1 << 63 }.is_valid());
    assert!(!Quota { max_burst: u32::MAX, replenish_1_per: u64::MAX }.is_valid());
}

#[test]
fn quotas_from_their_parts() {
    // More than a thousand million cells per second leave an interval of zero.
    let fast = governor::Quota::per_second(NonZeroU32::new(2_000_000_000).unwrap());
    assert_eq!(fast.replenish_interval().as_nanos(), 0);
    let quota = Quota::new(fast.burst_size().get(), 0).unwrap();
    assert_eq!(quota, Quota { max_burst: 2_000_000_000, replenish_1_per: 1 });
    assert_eq!(DirectLimiter::for_quota(quota).take(), Ok(()));
    assert_eq!(Quota::new(3, 7), Some(Quota { max_burst: 3, replenish_1_per: 7 }));
    assert_eq!(Quota::new(0, 7), None);
    assert_eq!(Quota::new(2, u64::MAX), None);
}

#[test]
fn the_longest_quota_is_enforced() {
    let quota = Quota { max_burst: 1, replenish_1_per: 1 << 63 };
    let limiter = DirectLimiter::for_quota(quota);
    assert!(limiter.take().is_ok());
    assert_eq!(limiter.take().unwrap_err().quota, quota);
}

#[test]
fn the_wait_runs_until_the_earliest_time() {
    let quota = Quota { max_burst: 1, replenish_1_per: 1 };
    let e = NotUntil { earliest: 1000, quota };
    assert_eq!(e.wait_time_from(400), 600);
    assert_eq!(e.wait_time_from(999), 1);
    assert_eq!(e.wait_time_from(1000), 0);
    assert_eq!(e.wait_time_from(u64::MAX), 0);
    assert_eq!(NotUntil { earliest: u64::MAX, quota }.wait_time_from(0), u64::MAX);
}

#[test]
fn a_direct_limiter_admits_its_burst_and_no_more() {
    let quota = Quota { max_burst: 3, replenish_1_per: HOUR };
    let limiter = DirectLimiter::for_quota(quota);
    for _ in 0..3 {
        assert_eq!(limiter.take(), Ok(()));
    }
    let before = limiter.reading();
    let e = limiter.take().unwrap_err();
    assert_eq!(e.quota, quota);
    assert!(e.earliest > before);
    assert!(e.earliest <= before + HOUR);
    match limiter.judge() {
        Verdict::Wait(wait) => assert!(wait > 0 && wait <= HOUR),
        Verdict::Admit => panic!("the burst is used up"),
    }
}

#[test]
fn a_direct_limiter_admits_again_in_time() {
    let limiter = DirectLimiter::for_quota(Quota { max_burst: 1, replenish_1_per: 1_000_000 });
    assert_eq!(limiter.judge(), Verdict::Admit);
    let mut waited = 0;
    while let Verdict::Wait(wait) = limiter.judge() {
        assert!(wait <= 1_000_000);
        waited += 1;
    }
    assert!(waited > 0);
}

#[test]
fn a_limiter_keeps_the_state_that_it_was_made_over() {
    let quota = Quota { max_burst: 1, replenish_1_per: HOUR };
    let used = DirectLimiter::new(quota, InMemoryState::default(), QuantaClock::default());
    assert!(used.take().is_ok());
    // The cell that was taken stays taken.
    let reused = DirectLimiter::new(quota, used.into_state_store(), QuantaClock::default());
    assert!(reused.take().is_err());

    let used = KeyedLimiter::new(quota, DefaultKeyedStateStore::default(), QuantaClock::default());
    assert!(used.take(&1u64).is_ok());
    let reused = KeyedLimiter::new(quota, used.into_state_store(), QuantaClock::default());
    assert!(reused.take(&1u64).is_err());
    assert!(reused.take(&2u64).is_ok());
}

#[test]
fn a_keyed_limiter_counts_each_key_by_itself() {
    let quota = Quota { max_burst: 2, replenish_1_per: HOUR };
    let limiter = KeyedLimiter::for_quota(quota);
    for key in ["foo.com", "bar.com"] {
        assert_eq!(limiter.take(&key), Ok(()));
        assert_eq!(limiter.take(&key), Ok(()));
        let before = limiter.reading();
        let e = limiter.take(&key).unwrap_err();
        assert_eq!(e.quota, quota);
        assert!(e.earliest > before);
        assert!(e.earliest <= before + HOUR);
    }
    assert_eq!(limiter.take(&"splat.com"), Ok(()));
}

#[test]
fn clocks_agree_and_go_forward() {
    let clock = QuantaClock::default();
    let limiter = DirectLimiter::for_quota(Quota { max_burst: 1, replenish_1_per: 1 });
    let first = read_clock(&clock);
    let mut second = limiter.reading();
    while second <= first {
        second = limiter.reading();
    }
    assert!(second - first < 1_000_000_000);
}

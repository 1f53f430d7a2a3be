//! Keyed rate limiting.

use either::Either;
use governor::clock::QuantaClock;
use governor::state::keyed::DefaultKeyedStateStore;
use itertools::Itertools;
use std::collections::HashMap;
use std::convert::Infallible;
use std::hash::Hash;
use std::num::NonZeroU32;
use std::sync::{Arc, RwLock};
use std::time::{Duration, Instant};
use tower_gcra::driver::{Action, Event};
use tower_gcra::extractors::KeyedDashmapMiddleware;
use tower_gcra::keyed::{inner_outcome, CallFuture, Governor, KeyExtractor, Layer, RateLimiter};
use tower_gcra::limiter::{DirectLimiter, KeyedLimiter, NotUntil, Quota, Verdict};

const HOUR: u64 = 3_600_000_000_000;

/// A service that answers with its request and notes when it was called.
#[derive(Clone, Debug)]
struct RecordingService {
    calls: Arc<RwLock<Vec<(usize, Instant)>>>,
}

impl RecordingService {
    fn new() -> Self {
        Self { calls: Arc::new(RwLock::new(Vec::new())) }
    }

    fn call(&self, req: usize) -> Result<usize, Infallible> {
        self.calls.write().unwrap().push((req, Instant::now()));
        Ok(req)
    }

    fn intervals(&self) -> Vec<Duration> {
        self.calls
            .read()
            .unwrap()
            .iter()
            .tuple_windows()
            .map(|((_, then), (_, now))| *now - *then)
            .collect()
    }
}

/// The key is the request.
#[derive(Clone)]
struct RecordingRequestKeyExtractor;

impl KeyExtractor<usize> for RecordingRequestKeyExtractor {
    type Key = usize;
    type Error = Infallible;
    fn extract(&self, req: &usize) -> Result<Self::Key, Self::Error> {
        Ok(*req)
    }
}

/// The key is the length of the request, and empty requests have none.
#[derive(Clone, Debug, PartialEq)]
struct LengthExtractor;

#[derive(Debug, PartialEq)]
struct Empty;

impl KeyExtractor<&'static str> for LengthExtractor {
    type Key = usize;
    type Error = Empty;
    fn extract(&self, req: &&'static str) -> Result<Self::Key, Self::Error> {
        if req.is_empty() {
            Err(Empty)
        } else {
            Ok(req.len())
        }
    }
}

fn per_second(n: u32) -> Quota {
    let quota = governor::Quota::per_second(NonZeroU32::new(n).unwrap());
    Quota {
        max_burst: quota.burst_size().get(),
        replenish_1_per: quota.replenish_interval().as_nanos() as u64,
    }
}

fn sleep(nanos: u64) {
    let runtime = tokio::runtime::Builder::new_current_thread().enable_time().build().unwrap();
    runtime.block_on(async { tokio::time::sleep(Duration::from_nanos(nanos)).await });
}

/// A limiter over a new store, with quotas for single keys.
fn keyed_with<K: Hash + Eq + Clone>(
    quota: Quota,
    middleware: KeyedDashmapMiddleware<K>,
) -> RateLimiter<K> {
    let (state, clock) = (DefaultKeyedStateStore::default(), QuantaClock::default());
    RateLimiter::new(quota, state, clock, middleware)
}

/// A limiter whose own quotas are in a map of another kind.
struct HashmapLimiter {
    general: KeyedLimiter<usize>,
    keys: RwLock<HashMap<usize, DirectLimiter>>,
}

impl HashmapLimiter {
    fn judge(&self, key: &usize) -> Verdict {
        let own: Option<Result<(), NotUntil>> =
            self.keys.read().unwrap().get(key).map(|limiter| limiter.take());
        match own.unwrap_or_else(|| self.general.take(key)) {
            Ok(()) => Verdict::Admit,
            Err(e) => Verdict::Wait(e.wait_time_from(self.general.reading())),
        }
    }
}

type HashmapGovernor =
    Governor<RecordingService, RecordingRequestKeyExtractor, usize, HashmapLimiter>;

fn drive_with_hashmap(
    governor: &HashmapGovernor,
    req: usize,
) -> Result<usize, Either<Infallible, Infallible>> {
    let key = governor.key_extractor().extract(&req).unwrap();
    let verdict = governor.limiter().judge(&key);
    let mut fut = governor.begin(req, key, verdict);
    let mut event = Event::Resume;
    loop {
        let (next, action) = fut.step(event);
        fut = next;
        event = match action {
            Action::Sleep(nanos) => {
                sleep(nanos);
                let (limiter, key) = fut.limiter().unwrap();
                Event::TimerElapsed(limiter.judge(key))
            }
            Action::Invoke(inner, req) => Event::InnerReady(inner.call(req)),
            Action::Pending => panic!("nothing is pending here"),
            Action::Complete(out) => return out,
        };
    }
}

#[test]
fn keyed_rate_limiting_smoke_test() {
    let limiter = HashmapLimiter {
        general: KeyedLimiter::for_quota(per_second(1)),
        keys: RwLock::new(HashMap::from([(1, DirectLimiter::for_quota(per_second(2)))])),
    };
    let governor = Governor::new_with_limiter(
        RecordingService::new(),
        RecordingRequestKeyExtractor,
        Arc::new(limiter),
    );

    drive_with_hashmap(&governor, 0).unwrap();
    drive_with_hashmap(&governor, 0).unwrap(); // 0: Should be rate limited
    drive_with_hashmap(&governor, 1).unwrap(); // 1: Should go through
    drive_with_hashmap(&governor, 1).unwrap(); // 2: Should go through
    drive_with_hashmap(&governor, 0).unwrap(); // 3: Should be rate limited
    drive_with_hashmap(&governor, 2).unwrap(); // 4: Should go through-- new key

    let intervals = governor.inner().intervals();
    assert!(intervals[0].as_millis() >= 999);
    assert!(intervals[1].as_millis() < 1);
    assert!(intervals[2].as_millis() < 1);
    assert!(intervals[3].as_millis() >= 999);
    assert!(intervals[4].as_millis() < 1);
}

type DashmapGovernor =
    Governor<RecordingService, RecordingRequestKeyExtractor, usize, RateLimiter<usize>>;

fn drive(governor: &DashmapGovernor, req: usize) -> Result<usize, Either<Infallible, Infallible>> {
    let mut fut = governor.call(req);
    let mut event = Event::Resume;
    loop {
        let (next, action) = fut.poll(event);
        fut = next;
        event = match action {
            Action::Sleep(nanos) => {
                sleep(nanos);
                Event::TimerElapsed(())
            }
            Action::Invoke(inner, req) => Event::InnerReady(inner.call(req)),
            Action::Pending => panic!("nothing is pending here"),
            Action::Complete(out) => return out,
        };
    }
}

#[test]
fn keyed_rate_limiting_with_dashmap_smoke_test() {
    let limiter =
        keyed_with(per_second(1), KeyedDashmapMiddleware::from(vec![(1, per_second(2))]));
    let governor = Governor::new_with_limiter(
        RecordingService::new(),
        RecordingRequestKeyExtractor,
        Arc::new(limiter),
    );

    drive(&governor, 0).unwrap();
    drive(&governor, 0).unwrap(); // 0: Should be rate limited
    drive(&governor, 1).unwrap(); // 1: Should go through
    drive(&governor, 1).unwrap(); // 2: Should go through
    drive(&governor, 0).unwrap(); // 3: Should be rate limited
    drive(&governor, 2).unwrap(); // 4: Should go through-- new key

    let intervals = governor.inner().intervals();
    assert!(intervals[0].as_millis() >= 999);
    assert!(intervals[1].as_millis() < 1);
    assert!(intervals[2].as_millis() < 1);
    assert!(intervals[3].as_millis() >= 999);
    assert!(intervals[4].as_millis() < 1);
}

#[test]
fn requests_under_different_keys_do_not_wait_for_each_other() {
    let limiter = keyed_with(
        per_second(3),
        KeyedDashmapMiddleware::from(vec![(10, per_second(2)), (11, per_second(1))]),
    );
    let layer = Layer::new_with_limiter(RecordingRequestKeyExtractor, limiter);
    let governor = layer.layer(RecordingService::new());
    let then = Instant::now();
    for req in [10, 11, 12] {
        assert_eq!(drive(&governor, req), Ok(req));
    }
    assert!(then.elapsed().as_millis() < 1000);
}

#[test]
fn each_key_is_turned_away_under_its_own_quota() {
    let general = Quota { max_burst: 1, replenish_1_per: HOUR };
    let own = Quota { max_burst: 2, replenish_1_per: 2 * HOUR };
    let limiter = keyed_with(general, KeyedDashmapMiddleware::from(vec![(7u64, own)]));
    assert_eq!(limiter.check_key(&6), Ok(()));
    assert_eq!(limiter.check_key(&6).unwrap_err().quota, general);
    assert_eq!(limiter.check_key(&7), Ok(()));
    assert_eq!(limiter.check_key(&7), Ok(()));
    assert_eq!(limiter.check_key(&7).unwrap_err().quota, own);
    assert_eq!(limiter.check_key(&8), Ok(()));
    match limiter.judge(&7) {
        Verdict::Wait(wait) => assert!(wait > HOUR && wait <= 2 * HOUR),
        Verdict::Admit => panic!("the burst is used up"),
    }
    assert_eq!(limiter.judge(&9), Verdict::Admit);
}

#[test]
fn a_limiter_without_own_quotas_has_one_for_all_keys() {
    let quota = Quota { max_burst: 1, replenish_1_per: HOUR };
    let limiter = RateLimiter::keyed(quota);
    for key in ["a", "b", "c"] {
        assert_eq!(limiter.check_key(&key), Ok(()));
        assert_eq!(limiter.check_key(&key).unwrap_err().quota, quota);
    }
}

#[test]
fn the_last_of_several_quotas_of_a_key_counts() {
    let first = Quota { max_burst: 1, replenish_1_per: HOUR };
    let last = Quota { max_burst: 1, replenish_1_per: 2 * HOUR };
    let middleware = KeyedDashmapMiddleware::from(vec![(1u64, first), (2, first), (1, last)]);
    let read = |quota: &Quota| *quota;
    assert_eq!(middleware.check_quota(&1, read), Some(last));
    assert_eq!(middleware.check_quota(&2, read), Some(first));
    assert_eq!(middleware.check_quota(&3, read), None);
    assert_eq!(KeyedDashmapMiddleware::<u64>::from(Vec::new()).check_quota(&3, read), None);

    // So it does for a limiter.
    let limiter = keyed_with(Quota { max_burst: 3, replenish_1_per: HOUR }, middleware);
    assert_eq!(limiter.check_key(&1), Ok(()));
    assert_eq!(limiter.check_key(&1).unwrap_err().quota, last);
    assert_eq!(limiter.check_key(&2), Ok(()));
    assert_eq!(limiter.check_key(&2).unwrap_err().quota, first);
    for _ in 0..3 {
        assert_eq!(limiter.check_key(&3), Ok(()));
    }
    assert!(limiter.check_key(&3).is_err());
}

#[test]
fn a_request_without_a_key_fails_and_goes_nowhere() {
    let quota = Quota { max_burst: 1, replenish_1_per: HOUR };
    let governor = Governor::default("inner", LengthExtractor, quota);
    let (_, action) = governor.call("").poll::<(), ()>(Event::Resume);
    match action {
        Action::Complete(out) => assert_eq!(out, Err(Either::Left(Empty))),
        _ => panic!("the call is to fail"),
    }
    // No cell was taken.
    let (_, action) = governor.call("x").poll::<(), ()>(Event::Resume);
    assert!(matches!(action, Action::Invoke("inner", "x")));
    // The key of "y" is that of "x".
    let fut = governor.call("y");
    assert_eq!(fut.limiter().unwrap().1, &1);
    let (_, action) = fut.poll::<(), ()>(Event::Resume);
    assert!(matches!(action, Action::Sleep(_)));
    let (_, action) = governor.call("xy").poll::<(), ()>(Event::Resume);
    assert!(matches!(action, Action::Invoke("inner", "xy")));
}

#[test]
fn outcomes_of_the_inner_service_are_marked_as_its_own() {
    let answered = |out: Result<u8, char>| {
        let fut = CallFuture::<u8, LengthExtractor, &'static str, u8>::new(3, "req");
        let (fut, action) = fut.step::<u8, char>(Event::Resume);
        assert!(matches!(action, Action::Invoke(3, "req")));
        let (fut, action) = fut.step::<u8, char>(Event::InnerPending);
        assert!(matches!(action, Action::Pending));
        match fut.step(Event::InnerReady(out)).1 {
            Action::Complete(out) => out,
            _ => panic!("the call is to complete"),
        }
    };
    assert_eq!(answered(Ok(5)), Ok(5));
    assert_eq!(answered(Err('e')), Err(Either::Right('e')));
    assert_eq!(inner_outcome::<u8, Empty, char>(Ok(1)), Ok(1));
    assert_eq!(inner_outcome::<u8, Empty, char>(Err('f')), Err(Either::Right('f')));
}

#[test]
fn a_keyed_call_turned_away_sleeps_as_told_and_is_made_once_admitted() {
    type Fut = CallFuture<char, LengthExtractor, &'static str, u8>;
    let fut = Fut::new_from_until(40, Arc::new(5), 3, 'i', "req");
    assert_eq!(fut.limiter(), Some((&5, &3)));
    let (fut, action) = fut.step::<(), ()>(Event::Resume);
    assert!(matches!(action, Action::Sleep(40)));
    let (fut, action) = fut.step::<(), ()>(Event::TimerPending);
    assert!(matches!(action, Action::Pending));
    let (fut, action) = fut.step::<(), ()>(Event::TimerElapsed(Verdict::Wait(9)));
    assert!(matches!(action, Action::Sleep(9)));
    assert_eq!(fut.limiter(), Some((&5, &3)));
    let (fut, action) = fut.step::<(), ()>(Event::TimerElapsed(Verdict::Admit));
    assert!(matches!(action, Action::Invoke('i', "req")));
    assert_eq!(fut.limiter(), None);

    let fut = Fut::new_from_extract_error(Empty);
    assert_eq!(fut.limiter(), None);
    match fut.step::<(), ()>(Event::Resume).1 {
        Action::Complete(out) => assert_eq!(out, Err(Either::Left(Empty))),
        _ => panic!("the call is to fail"),
    }
}

#[test]
fn keyed_clones_and_layered_services_share_the_limiter() {
    let quota = Quota { max_burst: 1, replenish_1_per: HOUR };
    let own = Quota { max_burst: 1, replenish_1_per: 2 * HOUR };
    let layer = Layer::<&'static str, _, _>::new(
        LengthExtractor,
        quota,
        DefaultKeyedStateStore::default(),
        QuantaClock::default(),
        KeyedDashmapMiddleware::from(vec![(2, own)]),
    );
    let first = layer.layer('1');
    let second = layer.layer('2');
    let third = first.clone();
    assert_eq!((*first.inner(), *second.inner(), *third.inner()), ('1', '2', '1'));
    assert_eq!(third.key_extractor(), &LengthExtractor);
    assert_eq!(first.limiter().check_key(&1), Ok(()));
    assert_eq!(second.limiter().check_key(&1).unwrap_err().quota, quota);
    assert_eq!(third.limiter().check_key(&1).unwrap_err().quota, quota);
    assert_eq!(second.limiter().check_key(&2), Ok(()));
    assert_eq!(third.limiter().check_key(&2).unwrap_err().quota, own);

    let layer = Layer::<&'static str, _, _>::default(LengthExtractor, quota);
    assert_eq!(layer.layer('3').limiter().check_key(&1), Ok(()));
    assert_eq!(layer.layer('4').limiter().check_key(&1).unwrap_err().quota, quota);
}

#[test]
fn keyed_governor_made_of_its_parts_enforces_its_quotas() {
    let quota = Quota { max_burst: 1, replenish_1_per: HOUR };
    let own = Quota { max_burst: 1, replenish_1_per: 2 * HOUR };
    let governor = Governor::<_, _, &'static str, _>::new(
        'i',
        LengthExtractor,
        quota,
        DefaultKeyedStateStore::default(),
        QuantaClock::default(),
        KeyedDashmapMiddleware::from(vec![(2, own)]),
    );
    for (req, at_least, at_most) in [("x", 0, HOUR), ("xy", HOUR, 2 * HOUR)] {
        let (_, action) = governor.call(req).poll::<(), ()>(Event::Resume);
        assert!(matches!(action, Action::Invoke('i', _)));
        match governor.call(req).poll::<(), ()>(Event::Resume).1 {
            Action::Sleep(nanos) => assert!(nanos > at_least && nanos <= at_most),
            _ => panic!("the second call is to wait"),
        }
    }
}

#[test]
fn keys_with_equal_quotas_of_their_own_do_not_share_cells() {
    let general = Quota { max_burst: 1, replenish_1_per: HOUR };
    let own = Quota { max_burst: 2, replenish_1_per: HOUR };
    let middleware = KeyedDashmapMiddleware::from(vec![(1u64, own), (2, own), (3, own)]);
    let limiter = keyed_with(general, middleware);
    for key in [2, 1, 3] {
        assert_eq!(limiter.check_key(&key), Ok(()));
        assert_eq!(limiter.check_key(&key), Ok(()));
        assert_eq!(limiter.check_key(&key).unwrap_err().quota, own);
    }
    for key in [4, 5] {
        assert_eq!(limiter.check_key(&key), Ok(()));
        assert_eq!(limiter.check_key(&key).unwrap_err().quota, general);
    }
}

#[test]
fn checks_leave_the_quotas_of_single_keys_as_they_are() {
    let own = Quota { max_burst: 1, replenish_1_per: HOUR };
    let middleware = KeyedDashmapMiddleware::from(vec![("a".to_string(), own)]);
    for _ in 0..3 {
        assert_eq!(middleware.check_quota(&"b".to_string(), |quota: &Quota| *quota), None);
        assert_eq!(middleware.check_quota(&"a".to_string(), |quota: &Quota| *quota), Some(own));
    }
}

#[test]
fn no_key_of_a_default_governor_has_a_quota_of_its_own() {
    #[derive(Clone)]
    struct Whole;

    impl KeyExtractor<&'static str> for Whole {
        type Key = String;
        type Error = Infallible;
        fn extract(&self, req: &&'static str) -> Result<Self::Key, Self::Error> {
            Ok(req.to_string())
        }
    }

    let quota = Quota { max_burst: 1, replenish_1_per: HOUR };
    let governor = Governor::<_, _, &'static str, _>::default('i', Whole, quota);
    let layered = Layer::<&'static str, _, _>::default(Whole, quota).layer('i');
    for key in ["foo.com", "bar.com", ""] {
        for governor in [&governor, &layered] {
            assert_eq!(governor.limiter().check_key(&key.to_string()), Ok(()));
            let e = governor.limiter().check_key(&key.to_string()).unwrap_err();
            assert_eq!(e.quota, quota);
        }
    }
}

#[test]
fn a_keyed_call_dropped_while_it_waits_uses_no_cell() {
    let quota = Quota { max_burst: 1, replenish_1_per: 50_000_000 };
    let governor = Governor::<_, _, usize, _>::default(
        RecordingService::new(),
        RecordingRequestKeyExtractor,
        quota,
    );
    assert_eq!(governor.limiter().judge(&7), Verdict::Admit);
    let before = governor.limiter().check_key(&7).unwrap_err();
    for _ in 0..3 {
        let (fut, action) = governor.call(7).poll::<usize, Infallible>(Event::Resume);
        assert!(matches!(action, Action::Sleep(_)));
        drop(fut);
    }
    assert_eq!(governor.limiter().check_key(&7).unwrap_err(), before);
    sleep(50_000_000);
    assert_eq!(governor.limiter().judge(&7), Verdict::Admit);
    assert!(governor.inner().calls.read().unwrap().is_empty());
}

#[test]
fn the_ways_of_building_a_keyed_governor_agree() {
    type Built = Governor<char, LengthExtractor, &'static str, RateLimiter<usize>>;
    let quota = Quota { max_burst: 1, replenish_1_per: HOUR };
    let none = || KeyedDashmapMiddleware::from(Vec::new());
    let store = || DefaultKeyedStateStore::<usize>::default();
    let clock = QuantaClock::default;
    let limiter = RateLimiter::new(quota, store(), clock(), none());
    let governors: Vec<Built> = vec![
        Governor::default('i', LengthExtractor, quota),
        Governor::new('i', LengthExtractor, quota, store(), clock(), none()),
        Governor::new_with_limiter('i', LengthExtractor, Arc::new(limiter)),
        Layer::default(LengthExtractor, quota).layer('i'),
        Layer::new(LengthExtractor, quota, store(), clock(), none()).layer('i'),
        Layer::new_with_limiter(LengthExtractor, RateLimiter::keyed(quota)).layer('i'),
    ];
    for governor in governors {
        assert_eq!(*governor.inner(), 'i');
        assert_eq!(governor.key_extractor(), &LengthExtractor);
        for req in ["x", "xy"] {
            let (_, action) = governor.call(req).poll::<(), ()>(Event::Resume);
            assert!(matches!(action, Action::Invoke('i', _)));
            assert_eq!(governor.limiter().check_key(&req.len()).unwrap_err().quota, quota);
            let (_, action) = governor.call(req).poll::<(), ()>(Event::Resume);
            assert!(matches!(action, Action::Sleep(_)));
        }
    }
}

#[test]
fn a_check_runs_its_callback_on_the_quota_of_the_key_or_not_at_all() {
    let middleware = KeyedDashmapMiddleware::<u32>::from(vec![(1, per_second(2))]);
    let granted: Option<Result<(), NotUntil>> = middleware.check_quota(&1, |_: &Quota| Ok(()));
    assert_eq!(granted, Some(Ok(())));
    let denied = middleware.check_quota(&1, |quota: &Quota| Err::<(), _>(quota.max_burst));
    assert_eq!(denied, Some(Err(2)));
    let missing = middleware.check_quota(&2, |_: &Quota| -> Result<(), NotUntil> {
        panic!("the key has no quota of its own")
    });
    assert_eq!(missing, None);
}

#[test]
fn a_key_with_its_own_quota_goes_on_where_the_given_states_stand() {
    let quota = Quota { max_burst: 1, replenish_1_per: HOUR };
    let own = Quota { max_burst: 1, replenish_1_per: 2 * HOUR };
    let used = KeyedLimiter::new(quota, DefaultKeyedStateStore::default(), QuantaClock::default());
    assert_eq!(used.take(&1u64), Ok(()));
    assert_eq!(used.take(&3u64), Ok(()));
    let limiter = RateLimiter::new(
        quota,
        used.into_state_store(),
        QuantaClock::default(),
        KeyedDashmapMiddleware::from(vec![(1, own), (2, own)]),
    );
    // What was taken stays taken, whichever quota applies now.
    assert_eq!(limiter.check_key(&1).unwrap_err().quota, own);
    assert_eq!(limiter.check_key(&3).unwrap_err().quota, quota);
    match limiter.judge(&1) {
        Verdict::Wait(wait) => assert!(wait > 0 && wait <= HOUR),
        Verdict::Admit => panic!("the cell is taken"),
    }
    // The others are as new.
    assert_eq!(limiter.check_key(&2), Ok(()));
    assert_eq!(limiter.check_key(&2).unwrap_err().quota, own);
    assert_eq!(limiter.check_key(&4), Ok(()));
}

#[test]
fn keyed_calls_go_by_the_judge_that_is_given() {
    let governor = Governor::<_, _, &'static str, _>::new_with_limiter(
        'i',
        LengthExtractor,
        Arc::new(RwLock::new(Vec::new())),
    );
    let judge = |asked: &RwLock<Vec<usize>>, key: &usize| {
        asked.write().unwrap().push(*key);
        if asked.read().unwrap().len() < 3 {
            Verdict::Wait(*key as u64)
        } else {
            Verdict::Admit
        }
    };
    let fut = governor.call_with("xy", judge);
    let (fut, action) = fut.poll_with::<(), (), _>(Event::Resume, judge);
    assert!(matches!(action, Action::Sleep(2)));
    let (fut, action) = fut.poll_with::<(), (), _>(Event::TimerPending, judge);
    assert!(matches!(action, Action::Pending));
    let (fut, action) = fut.poll_with::<(), (), _>(Event::TimerElapsed(()), judge);
    assert!(matches!(action, Action::Sleep(2)));
    let (fut, action) = fut.poll_with::<(), (), _>(Event::TimerElapsed(()), judge);
    assert!(matches!(action, Action::Invoke('i', "xy")));
    match fut.poll_with::<(), (), _>(Event::InnerReady(Err(())), judge).1 {
        Action::Complete(out) => assert_eq!(out, Err(Either::Right(()))),
        _ => panic!("the call is to complete"),
    }
    assert_eq!(*governor.limiter().read().unwrap(), vec![2, 2, 2]);

    // Without a key nothing is asked.
    match governor.call_with("", judge).poll_with::<(), (), _>(Event::Resume, judge).1 {
        Action::Complete(out) => assert_eq!(out, Err(Either::Left(Empty))),
        _ => panic!("the call is to fail"),
    }
    assert_eq!(governor.limiter().read().unwrap().len(), 3);
}

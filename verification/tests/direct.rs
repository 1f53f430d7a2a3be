//! Direct rate limiting, against the real limiter and against a clock that stands still.

use governor::clock::{Clock, FakeRelativeClock, QuantaClock};
use governor::middleware::NoOpMiddleware;
use governor::nanos::Nanos;
use governor::state::{InMemoryState, NotKeyed};
use itertools::Itertools;
use std::convert::Infallible;
use std::num::NonZeroU32;
use std::sync::{Arc, RwLock};
use std::time::{Duration, Instant};
use tower_gcra::direct::{CallFuture, Governor, Layer};
use tower_gcra::driver::{Action, Event};
use tower_gcra::limiter::{DirectLimiter, Quota, Verdict};

/// A service that answers with its request and notes when it was called.
#[derive(Clone, Debug)]
struct RecordingService {
    calls: Arc<RwLock<Vec<(usize, Instant)>>>,
}

impl RecordingService {
    fn new() -> Self {
        Self { calls: Arc::new(RwLock::new(Vec::new())) }
    }

    fn call(&self, req: usize) -> Result<usize, Infallible> {
        self.calls.write().unwrap().push((req, Instant::now()));
        Ok(req)
    }

    fn requests(&self) -> Vec<usize> {
        self.calls.read().unwrap().iter().map(|call| call.0).collect()
    }

    fn intervals(&self) -> Vec<Duration> {
        self.calls
            .read()
            .unwrap()
            .iter()
            .tuple_windows()
            .map(|((_, then), (_, now))| *now - *then)
            .collect()
    }
}

fn per_second(n: u32) -> Quota {
    let quota = governor::Quota::per_second(NonZeroU32::new(n).unwrap());
    Quota {
        max_burst: quota.burst_size().get(),
        replenish_1_per: quota.replenish_interval().as_nanos() as u64,
    }
}

fn sleep(nanos: u64) {
    let runtime = tokio::runtime::Builder::new_current_thread().enable_time().build().unwrap();
    runtime.block_on(async { tokio::time::sleep(Duration::from_nanos(nanos)).await });
}

fn drive(fut: CallFuture<RecordingService, usize, DirectLimiter>) -> Result<usize, Infallible> {
    let mut fut = fut;
    let mut event = Event::Resume;
    loop {
        let (next, action) = fut.poll(event);
        fut = next;
        event = match action {
            Action::Sleep(nanos) => {
                sleep(nanos);
                Event::TimerElapsed(())
            }
            Action::Invoke(inner, req) => Event::InnerReady(inner.call(req)),
            Action::Pending => panic!("nothing is pending here"),
            Action::Complete(out) => return out,
        };
    }
}

fn requests(
    gov: Governor<RecordingService, usize, DirectLimiter>,
    num_requests: usize,
) -> Vec<Duration> {
    for i in 0..num_requests {
        assert_eq!(drive(gov.call(i)), Ok(i));
    }
    gov.inner().intervals()
}

#[test]
fn direct_rate_limiting_smoke_test() {
    let governor = Governor::new_with_limiter(
        RecordingService::new(),
        Arc::new(DirectLimiter::for_quota(per_second(1))),
    );

    let intervals = requests(governor, 3);

    assert_eq!(intervals.len(), 2);
    intervals.iter().for_each(|d| {
        assert!(d.as_millis() >= 999);
    });
}

#[test]
fn default() {
    let governor = Governor::<_, usize, _>::default(RecordingService::new(), per_second(100));

    let intervals = requests(governor, 101);

    // Rate-limiting should start showing-up on the last invocation:
    assert!(intervals.iter().last().unwrap().as_millis() > 1);
}

#[test]
fn layer_tests() {
    fn handle(n: usize) -> usize {
        n
    }

    let governor = Layer::<usize, _>::default(per_second(10)).layer(handle);
    assert_eq!((governor.inner())(7), 7);

    let governor = Layer::<usize, _>::new(
        per_second(10),
        InMemoryState::default(),
        QuantaClock::default(),
    )
    .layer(handle);
    assert_eq!((governor.inner())(7), 7);

    let governor =
        Layer::<usize, _>::new_with_limiter(DirectLimiter::for_quota(per_second(10))).layer(handle);
    assert_eq!((governor.inner())(7), 7);
}

#[test]
fn three_requests_at_one_per_second_take_two_seconds() {
    fn echo(request: &'static str) -> &'static str {
        request
    }

    let layer = Layer::<&'static str, _>::new_with_limiter(DirectLimiter::for_quota(per_second(1)));
    let governor = layer.layer(echo);
    let runtime = tokio::runtime::Builder::new_current_thread().enable_time().build().unwrap();
    let duration = runtime.block_on(async {
        let then = Instant::now();
        for _ in 0..3 {
            let mut fut = governor.call("Hello, world!");
            let mut event = Event::Resume;
            let response = loop {
                let (next, action) = fut.poll(event);
                fut = next;
                event = match action {
                    Action::Sleep(nanos) => {
                        tokio::time::sleep(Duration::from_nanos(nanos)).await;
                        Event::TimerElapsed(())
                    }
                    Action::Invoke(inner, req) => Event::InnerReady(inner(req)),
                    Action::Pending => panic!("nothing is pending here"),
                    Action::Complete(out) => break out,
                };
            };
            assert_eq!(response, "Hello, world!");
        }
        Instant::now() - then
    });
    assert!(duration.as_millis() > 2000);
}

#[test]
fn clones_and_layered_services_share_the_limiter() {
    let quota = per_second(1);
    let layer = Layer::<usize, _>::new(quota, InMemoryState::default(), QuantaClock::default());
    let first = layer.layer(RecordingService::new());
    let second = layer.layer(RecordingService::new());
    let third = first.clone();
    assert!(first.limiter().take().is_ok());
    assert_eq!(second.limiter().take().unwrap_err().quota, quota);
    assert_eq!(third.limiter().take().unwrap_err().quota, quota);
    assert!(second.call(0).limiter().is_some());
    // A clone of the inner service is called, not another service.
    third.inner().call(9).unwrap();
    assert_eq!(first.inner().requests(), vec![9]);
    assert!(second.inner().requests().is_empty());
}

#[test]
fn governor_made_of_its_parts_enforces_its_quota() {
    let quota = Quota { max_burst: 2, replenish_1_per: 3_600_000_000_000 };
    let governor = Governor::<RecordingService, usize, _>::new(
        RecordingService::new(),
        quota,
        InMemoryState::default(),
        QuantaClock::default(),
    );
    assert_eq!(drive(governor.call(4)), Ok(4));
    assert_eq!(drive(governor.call(5)), Ok(5));
    let fut = governor.call(6);
    assert_eq!(fut.limiter().unwrap().take().unwrap_err().quota, quota);
    let (_, action) = fut.poll::<()>(Event::Resume);
    match action {
        Action::Sleep(nanos) => {
            assert!(nanos <= 3_600_000_000_000);
            assert!(nanos > 3_500_000_000_000);
        }
        _ => panic!("the third call is to wait"),
    }
    assert_eq!(governor.inner().requests(), vec![4, 5]);
}

type FakeLimiter =
    governor::RateLimiter<NotKeyed, InMemoryState, FakeRelativeClock, NoOpMiddleware<Nanos>>;

fn judge(limiter: &FakeLimiter) -> Verdict {
    match limiter.check() {
        Ok(()) => Verdict::Admit,
        Err(e) => Verdict::Wait(e.wait_time_from(limiter.clock().now()).as_nanos() as u64),
    }
}

#[test]
fn a_call_turned_away_sleeps_as_told_and_is_made_once_admitted() {
    let clock = FakeRelativeClock::default();
    let limiter = Arc::new(FakeLimiter::direct_with_clock(
        governor::Quota::per_second(NonZeroU32::new(1).unwrap()),
        clock.clone(),
    ));
    let governor = Governor::new_with_limiter("echo", limiter);

    let verdict = judge(governor.limiter());
    assert_eq!(verdict, Verdict::Admit);
    let fut = governor.begin(1, verdict);
    assert!(fut.limiter().is_none());
    let (fut, action) = fut.step::<char>(Event::Resume);
    assert!(matches!(action, Action::Invoke("echo", 1)));
    let (fut, action) = fut.step::<char>(Event::InnerPending);
    assert!(matches!(action, Action::Pending));
    let (_, action) = fut.step::<char>(Event::InnerReady('x'));
    assert!(matches!(action, Action::Complete('x')));

    clock.advance(Duration::from_millis(250));
    let verdict = judge(governor.limiter());
    assert_eq!(verdict, Verdict::Wait(750_000_000));
    let fut = governor.begin(2, verdict);
    let (fut, action) = fut.step::<char>(Event::Resume);
    assert!(matches!(action, Action::Sleep(750_000_000)));
    let (fut, action) = fut.step::<char>(Event::TimerPending);
    assert!(matches!(action, Action::Pending));

    // The timer runs out too early: the limiter turns the call away again.
    clock.advance(Duration::from_millis(700));
    let verdict = judge(fut.limiter().unwrap());
    assert_eq!(verdict, Verdict::Wait(50_000_000));
    let (fut, action) = fut.step::<char>(Event::TimerElapsed(verdict));
    assert!(matches!(action, Action::Sleep(50_000_000)));

    clock.advance(Duration::from_millis(50));
    let verdict = judge(fut.limiter().unwrap());
    assert_eq!(verdict, Verdict::Admit);
    let (fut, action) = fut.step::<char>(Event::TimerElapsed(verdict));
    assert!(matches!(action, Action::Invoke("echo", 2)));
    let (_, action) = fut.step::<char>(Event::InnerReady('y'));
    assert!(matches!(action, Action::Complete('y')));
}

#[test]
fn futures_begin_where_their_constructors_put_them() {
    let limiter = Arc::new(5u8);
    let fut = CallFuture::new_from_until(40, limiter, 'i', 'r');
    assert_eq!(fut.limiter(), Some(&5u8));
    let (_, action) = fut.step::<()>(Event::Resume);
    assert!(matches!(action, Action::Sleep(40)));

    let fut = CallFuture::<char, char, u8>::new('i', 'r');
    assert_eq!(fut.limiter(), None);
    let (_, action) = fut.step::<()>(Event::Resume);
    assert!(matches!(action, Action::Invoke('i', 'r')));
}

#[test]
fn calls_reach_the_service_when_the_limiter_admits_them() {
    let clock = FakeRelativeClock::default();
    let limiter = Arc::new(FakeLimiter::direct_with_clock(
        governor::Quota::per_second(NonZeroU32::new(2).unwrap()),
        clock.clone(),
    ));
    let governor = Governor::new_with_limiter((), limiter);

    // Five calls begin at once; the two of the burst go ahead.
    let mut made = Vec::new();
    let mut waiting = Vec::new();
    for req in 0..5 {
        let fut = governor.begin(req, judge(governor.limiter()));
        match fut.step::<()>(Event::Resume) {
            (_, Action::Invoke((), req)) => made.push((0, req)),
            (fut, Action::Sleep(_)) => waiting.push(fut),
            _ => panic!("a call begins with a timer or with the inner service"),
        }
    }
    assert_eq!(made, vec![(0, 0), (0, 1)]);

    // One more cell is there every half second.
    for tenths in 1..=20 {
        clock.advance(Duration::from_millis(100));
        let mut still_waiting = Vec::new();
        for fut in waiting {
            let verdict = judge(fut.limiter().unwrap());
            match fut.step::<()>(Event::TimerElapsed(verdict)) {
                (_, Action::Invoke((), req)) => {
                    assert_eq!(verdict, Verdict::Admit);
                    made.push((tenths, req))
                }
                (fut, Action::Sleep(nanos)) => {
                    assert_eq!(verdict, Verdict::Wait(nanos));
                    still_waiting.push(fut)
                }
                _ => panic!("a timer is followed by another or by the inner service"),
            }
        }
        waiting = still_waiting;
    }
    assert_eq!(made, vec![(0, 0), (0, 1), (5, 2), (10, 3), (15, 4)]);
    assert!(waiting.is_empty());
}

#[test]
fn a_call_dropped_while_it_waits_uses_no_cell() {
    let clock = FakeRelativeClock::default();
    let limiter = Arc::new(FakeLimiter::direct_with_clock(
        governor::Quota::per_second(NonZeroU32::new(1).unwrap()),
        clock.clone(),
    ));
    let governor = Governor::new_with_limiter(RecordingService::new(), limiter);
    assert_eq!(judge(governor.limiter()), Verdict::Admit);

    for req in 0..3 {
        let verdict = judge(governor.limiter());
        assert_eq!(verdict, Verdict::Wait(1_000_000_000));
        let (fut, action) = governor.begin(req, verdict).step::<()>(Event::Resume);
        assert!(matches!(action, Action::Sleep(1_000_000_000)));
        let (fut, action) = fut.step::<()>(Event::TimerElapsed(judge(governor.limiter())));
        assert!(matches!(action, Action::Sleep(1_000_000_000)));
        drop(fut);
    }
    assert!(governor.inner().requests().is_empty());

    // The next cell is there when it would have been without those calls.
    clock.advance(Duration::from_millis(1000));
    assert_eq!(judge(governor.limiter()), Verdict::Admit);
}

#[test]
fn the_ways_of_building_a_governor_agree() {
    type Built = Governor<char, usize, DirectLimiter>;
    let hour = 3_600_000_000_000;
    let quota = Quota { max_burst: 2, replenish_1_per: hour };
    let limiter = DirectLimiter::new(quota, InMemoryState::default(), QuantaClock::default());
    let governors: Vec<Built> = vec![
        Governor::default('i', quota),
        Governor::new('i', quota, InMemoryState::default(), QuantaClock::default()),
        Governor::new_with_limiter('i', Arc::new(limiter)),
        Layer::default(quota).layer('i'),
        Layer::new(quota, InMemoryState::default(), QuantaClock::default()).layer('i'),
        Layer::new_with_limiter(DirectLimiter::for_quota(quota)).layer('i'),
    ];
    for governor in governors {
        assert_eq!(*governor.inner(), 'i');
        for req in 0..2 {
            let (_, action) = governor.call(req).poll::<()>(Event::Resume);
            assert!(matches!(action, Action::Invoke('i', _)));
        }
        assert_eq!(governor.limiter().take().unwrap_err().quota, quota);
        match governor.call(2).poll::<()>(Event::Resume).1 {
            Action::Sleep(nanos) => assert!(nanos > hour - 60_000_000_000 && nanos <= hour),
            _ => panic!("the third call is to wait"),
        }
    }
}

#[test]
fn calls_go_by_the_judge_that_is_given() {
    let clock = FakeRelativeClock::default();
    let limiter = Arc::new(FakeLimiter::direct_with_clock(
        governor::Quota::per_second(NonZeroU32::new(1).unwrap()),
        clock.clone(),
    ));
    let governor = Governor::new_with_limiter('i', limiter);
    let (fut, action) = governor.call_with(1, judge).poll_with::<(), _>(Event::Resume, judge);
    assert!(matches!(action, Action::Invoke('i', 1)));
    let (_, action) = fut.poll_with(Event::InnerReady(()), judge);
    assert!(matches!(action, Action::Complete(())));

    let (fut, action) = governor.call_with(2, judge).poll_with::<(), _>(Event::Resume, judge);
    assert!(matches!(action, Action::Sleep(1_000_000_000)));
    clock.advance(Duration::from_millis(400));
    let (fut, action) = fut.poll_with::<(), _>(Event::TimerElapsed(()), judge);
    assert!(matches!(action, Action::Sleep(600_000_000)));
    clock.advance(Duration::from_millis(600));
    let (_, action) = fut.poll_with::<(), _>(Event::TimerElapsed(()), judge);
    assert!(matches!(action, Action::Invoke('i', 2)));
}

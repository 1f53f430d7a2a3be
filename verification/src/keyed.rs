//! Keyed rate limiting.
//!
//! A keyed limiter keeps one state per key, where a key is some attribute of a request (the address
//! of the peer, say). A quota applies to each key by itself, and a key can have a quota of its own.

use crate::driver::{Action, Event};
use crate::extractors::{
    last_at, last_under, lemma_last_at, lemma_last_at_goes_by_keys, KeyedDashmapMiddleware,
};
use crate::judging::{judge_direct, judge_keyed, judged_direct, judged_keyed};
use crate::limiter::{
    counted_store, Asked, Asks, DirectLimiter, KeyedLimiter, NotUntil, Quota, Verdict,
};
use either::Either;
use governor::clock::QuantaClock;
use governor::state::keyed::DefaultKeyedStateStore;
use governor::state::InMemoryState;
use std::hash::Hash;
use std::marker::PhantomData;
use std::sync::Arc;
use vstd::prelude::*;
use vstd::std_specs::hash::obeys_key_model;

verus! {

/// `either::Either`: one of two values. Its variants are public, and are read as they stand.
#[verifier::external_type_specification]
pub struct ExEither<L, R>(Either<L, R>);

/// Types implementing `KeyExtractor<Request>` extract rate-limiting keys from `Request`s. A key is
/// any type that implements [`Hash`].
pub trait KeyExtractor<Request> {
    type Key: Hash;

    type Error: Send + Sync + 'static;

    fn extract(&self, req: &Request) -> Result<Self::Key, Self::Error>;
}

/// The limiter of a key that has a quota of its own, and the key that it was made for.
pub struct Own<K> {
    pub key: Ghost<K>,
    pub limiter: DirectLimiter,
}

impl<K: Hash + Eq + Clone> Own<K> {
    /// The limiter was made for `key` and `quota`. It goes on where `store` stands under the key,
    /// and reads `clock`.
    pub open spec fn made_for(
        self,
        key: K,
        quota: Quota,
        store: DefaultKeyedStateStore<K>,
        clock: QuantaClock,
    ) -> bool {
        self.key@ == key && self.limiter.goes_on(quota, store, key, clock)
    }
}

/// A limiter with one quota for all keys but those that have a quota of their own.
#[verifier::reject_recursive_types(K)]
pub struct RateLimiter<K: Hash + Eq + Clone> {
    limiter: KeyedLimiter<K>,
    own: KeyedDashmapMiddleware<K, Own<K>>,
}

/// The quota that applies to `key`: its own if it has one among `entries`, and `quota` if not.
pub open spec fn quota_for<K>(quota: Quota, entries: Seq<(K, Quota)>, key: K) -> Quota {
    match last_under(entries, key) {
        Some(own) => own,
        None => quota,
    }
}

impl<K: Hash + Eq + Clone> RateLimiter<K> {
    /// The limiter for the keys that have no quota of their own.
    pub closed spec fn general(self) -> KeyedLimiter<K> {
        self.limiter
    }

    /// The keys that have a quota of their own, with the limiters for them.
    pub closed spec fn own(self) -> KeyedDashmapMiddleware<K, Own<K>> {
        self.own
    }

    /// The keys of `entries`, and no others, have a limiter of their own. It was made for the key,
    /// for the quota of the last entry under it, and for what `store` holds under it, and it reads
    /// `clock`.
    pub open spec fn sets_apart(
        self,
        entries: Seq<(K, Quota)>,
        store: DefaultKeyedStateStore<K>,
        clock: QuantaClock,
    ) -> bool {
        forall|key: K, found: Option<Arc<Own<K>>>| #[trigger]
            self.own().finds(key, found) ==> match last_under(entries, key) {
                Some(quota) => found matches Some(own) && own.made_for(key, quota, store, clock),
                None => found is None,
            }
    }

    /// Whatever limiter is a key's own was made for the quota of one of `entries` and for what
    /// `store` holds under some key, and it reads `clock`.
    pub open spec fn sets_apart_among(
        self,
        entries: Seq<(K, Quota)>,
        store: DefaultKeyedStateStore<K>,
        clock: QuantaClock,
    ) -> bool {
        forall|key: K, own: Arc<Own<K>>| #[trigger]
            self.own().finds(key, Some(own)) ==> exists|j: int|
                0 <= j < entries.len() && own.made_for(
                    own.key@,
                    (#[trigger] entries[j]).1,
                    store,
                    clock,
                )
    }

    /// No key has a quota of its own.
    pub open spec fn has_no_own(self) -> bool {
        forall|key: K, found: Option<Arc<Own<K>>>| #[trigger]
            self.own().finds(key, found) ==> found is None
    }

    /// The keys with a quota in `middleware`, and no others, have a limiter of their own, which
    /// goes on where `store` stands under the key and reads `clock`. Which keys those are is said
    /// of keys whose `==` is equality and whose hash agrees with it.
    pub open spec fn assigned(
        self,
        middleware: KeyedDashmapMiddleware<K>,
        store: DefaultKeyedStateStore<K>,
        clock: QuantaClock,
    ) -> bool {
        &&& forall|entries: Seq<(K, Quota)>| #[trigger]
            middleware.drawn_from(entries) ==> self.sets_apart_among(entries, store, clock)
        &&& middleware.holds(Seq::empty()) ==> self.has_no_own()
        &&& obeys_key_model::<K>() ==> self.own().steady()
        &&& obeys_key_model::<K>() ==> forall|entries: Seq<(K, Quota)>| #[trigger]
            middleware.holds(entries) ==> self.sets_apart(entries, store, clock)
    }

    /// The answer `r` is one that a check under `key` can give: the key's own limiter gives it if
    /// there is one, and the general limiter if not.
    pub open spec fn checked(self, key: K, r: Result<(), NotUntil>) -> bool {
        ||| exists|own: Arc<Own<K>>| #[trigger]
            self.own().finds(key, Some(own)) && own.limiter.checked(r)
        ||| self.own().finds(key, None) && self.general().checked(key, r)
    }

    /// The limiter turns `key` away in no other name than that of the quota which applies to it
    /// by `quota` and `entries`.
    pub open spec fn denies_by(self, quota: Quota, entries: Seq<(K, Quota)>) -> bool {
        forall|key: K, e: NotUntil| #[trigger]
            self.checked(key, Err(e)) ==> e.quota == quota_for(quota, entries, key)
    }

    /// The verdict `v` is one that this limiter can give on `key`: the key's own limiter gives it
    /// if there is one, and the general limiter if not.
    pub open spec fn judges(self, key: K, v: Verdict) -> bool {
        ||| exists|own: Arc<Own<K>>| #[trigger]
            self.own().finds(key, Some(own)) && own.limiter.judges(v)
        ||| self.own().finds(key, None) && self.general().judges(key, v)
    }

    /// A limiter for `quota`, over a default store and on a default clock. No key has a quota of
    /// its own.
    pub fn keyed(quota: Quota) -> (limiter: Self)
        requires
            quota.wf(),
        ensures
            limiter.general().made_of_defaults(quota),
            limiter.has_no_own(),
    {
        RateLimiter {
            limiter: KeyedLimiter::for_quota(quota),
            own: KeyedDashmapMiddleware::from(Vec::new()),
        }
    }

    /// A limiter for `quota`, over the given states and clock, and for the quotas of `middleware`.
    /// A key that has a quota of its own goes on where the given states stand under it, on the same
    /// clock.
    pub fn new(
        quota: Quota,
        state: DefaultKeyedStateStore<K>,
        clock: QuantaClock,
        middleware: KeyedDashmapMiddleware<K>,
    ) -> (limiter: Self)
        requires
            quota.wf(),
            counted_store(state),
            middleware.wf(),
        ensures
            limiter.general().made_of(quota, state, clock),
            limiter.assigned(middleware, state, clock),
    {
        let entries = middleware.into_entries();
        let ghost out = entries;
        let mut apart: Vec<(K, Own<K>)> = Vec::new();
        for entry in it: entries
            invariant
                it.seq() == out@,
                middleware.comes_out(out),
                middleware.wf(),
                counted_store(state),
                apart.len() == it.index(),
                forall|i: int|
                    0 <= i < apart.len() ==> (#[trigger] apart[i]).0 == out[i].0
                        && apart[i].1.made_for(out[i].0, *out[i].1, state, clock),
        {
            let (key, quota) = entry;
            assert(out[it.index()] == entry);
            let spare = InMemoryState::default();
            let limiter = DirectLimiter::for_key(*quota, &state, &key, spare, clock.clone());
            let own = Own { key: Ghost(key), limiter };
            apart.push((key, own));
        }
        let ghost made = apart@;
        let limiter = RateLimiter {
            own: KeyedDashmapMiddleware::from(apart),
            limiter: KeyedLimiter::new(quota, state, clock),
        };
        proof {
            assert forall|entries: Seq<(K, Quota)>| #[trigger]
                middleware.drawn_from(entries) implies limiter.sets_apart_among(
                entries,
                state,
                clock,
            ) by {
                assert forall|key: K, own: Arc<Own<K>>| #[trigger]
                    limiter.own().finds(key, Some(own)) implies exists|j: int|
                    0 <= j < entries.len() && own.made_for(
                        own.key@,
                        (#[trigger] entries[j]).1,
                        state,
                        clock,
                    ) by {
                    let i = choose|i: int| 0 <= i < made.len() && (#[trigger] made[i]).1 == *own;
                    assert(out[i].0 == made[i].0);
                    let j = choose|j: int|
                        0 <= j < entries.len() && (#[trigger] entries[j]).1 == *out[i].1;
                    assert(own.made_for(own.key@, entries[j].1, state, clock));
                }
            }
            assert forall|key: K, found: Option<Arc<Own<K>>>| #[trigger]
                limiter.own().finds(key, found) && middleware.holds(
                Seq::empty(),
            ) implies found is None by {
                if let Some(own) = found {
                    assert(limiter.own().finds(key, Some(own)));
                    let i = choose|i: int| 0 <= i < made.len() && (#[trigger] made[i]).1 == *own;
                    lemma_last_at(out@, out[i].0);
                    assert(last_under(out@, out[i].0) is Some);
                }
            }
            assert forall|entries: Seq<(K, Quota)>|
                #![trigger middleware.holds(entries)]
                middleware.holds(entries) && obeys_key_model::<K>() implies limiter.sets_apart(
                entries,
                state,
                clock,
            ) by {
                assert forall|key: K, found: Option<Arc<Own<K>>>| #[trigger]
                    limiter.own().finds(key, found) implies match last_under(entries, key) {
                    Some(quota) => found matches Some(own) && own.made_for(
                        key,
                        quota,
                        state,
                        clock,
                    ),
                    None => found is None,
                } by {
                    lemma_last_at(made, key);
                    lemma_last_at_goes_by_keys(made, out@, key);
                    assert(last_at(out@, key) == last_at(made, key));
                }
            }
        }
        limiter
    }

    /// Asks for one cell under `key`.
    pub fn check_key(&self, key: &K) -> (r: Result<(), NotUntil>)
        ensures
            self.checked(*key, r),
    {
        let ask = |own: &Own<K>| -> (r: Result<(), NotUntil>)
            ensures
                own.limiter.checked(r),
            { own.limiter.take() };
        match self.own.check_quota(key, ask) {
            Some(r) => r,
            None => self.limiter.take(key),
        }
    }

    /// The verdict `v` is what comes of the one cell that was asked for between `before` and
    /// `after`: of the key's own limiter if there is one, and of the general limiter if not.
    pub open spec fn judged(
        self,
        key: K,
        v: Verdict,
        before: Seq<Asked<K>>,
        after: Seq<Asked<K>>,
    ) -> bool {
        ||| exists|own: Arc<Own<K>>| #[trigger]
            self.own().finds(key, Some(own)) && judged_direct(own.limiter, v, before, after)
        ||| self.own().finds(key, None) && judged_keyed(self.general(), key, v, before, after)
    }

    /// Asks for one cell under `key` and, if there is none, for the time to wait. The limiter that
    /// is asked also reads its clock.
    pub fn judge(&self, key: &K) -> (v: Verdict)
        ensures
            self.judges(*key, v),
        opens_invariants [ 0int, 1int ]
    {
        let mut asks = Asks::new();
        self.judge_on_record(key, &mut asks)
    }

    /// As [`RateLimiter::judge`], and records the cell that is asked for.
    pub fn judge_on_record(&self, key: &K, asks: &mut Asks<K>) -> (v: Verdict)
        ensures
            self.judges(*key, v),
            self.judged(*key, v, old(asks)@, final(asks)@),
        opens_invariants [ 1int ]
    {
        let found = self.own.find(key);
        match &found {
            Some(own) => {
                assert(self.own().finds(*key, Some(*own)));
                judge_direct(&own.limiter, asks)
            },
            None => judge_keyed(&self.limiter, key, asks),
        }
    }
}

/// An outcome of the inner service, with its error marked as one of the inner service.
pub open spec fn from_inner<T, E, F>(outcome: Result<T, F>) -> Result<T, Either<E, F>> {
    match outcome {
        Ok(response) => Ok(response),
        Err(error) => Err(Either::Right(error)),
    }
}

/// Marks the error of `outcome` as one of the inner service.
pub fn inner_outcome<T, E, F>(outcome: Result<T, F>) -> (r: Result<T, Either<E, F>>)
    ensures
        r == from_inner::<T, E, F>(outcome),
{
    match outcome {
        Ok(response) => Ok(response),
        Err(error) => Err(Either::Right(error)),
    }
}

/// Where a call stands. `K` is the key of its request, and `E` is how extracting one can fail.
#[derive(Debug)]
pub enum FutureState<S, K, E, Request, L> {
    /// No key could be extracted from the request. `source` is why, until that has been handed out.
    Error { source: Option<E> },
    /// The limiter has turned the call away; it is to be asked again after `dur` nanoseconds.
    Ready { dur: u64, limiter: Arc<L>, key: K, inner: S, req: Request },
    /// The call is admitted. `start` is what the inner service is to be called with, until it has
    /// been.
    Call { start: Option<(S, Request)> },
}

impl<S, K, E, Request, L> FutureState<S, K, E, Request, L> {
    /// Where the call of `inner` with `req` stands once the limiter has given its first verdict on
    /// `key`.
    pub open spec fn opened(
        verdict: Verdict,
        limiter: Arc<L>,
        key: K,
        inner: S,
        req: Request,
    ) -> Self {
        match verdict {
            Verdict::Admit => FutureState::Call { start: Some((inner, req)) },
            Verdict::Wait(dur) => FutureState::Ready { dur, limiter, key, inner, req },
        }
    }

    /// A driver of a call that stands here can report `event`: a timer runs only while the call
    /// waits, the inner service is heard only once it has been called, and a failure is handed out
    /// once.
    pub open spec fn expects<V, Out>(self, event: Event<V, Out>) -> bool {
        match self {
            FutureState::Error { source: Some(_) } => event is Resume,
            FutureState::Error { source: None } => false,
            FutureState::Ready { .. } => event is Resume || event is TimerPending
                || event is TimerElapsed,
            FutureState::Call { start: Some(_) } => event is Resume,
            FutureState::Call { start: None } => event is InnerPending || event is InnerReady,
        }
    }

    /// Where the call stands after `event`, and what its driver is to do.
    pub open spec fn after<T, F>(self, event: Event<Verdict, Result<T, F>>) -> (Self, Action<
        S,
        Request,
        Result<T, Either<E, F>>,
    >) {
        match (self, event) {
            (FutureState::Error { source: Some(source) }, _) => (
                FutureState::Error { source: None },
                Action::Complete(Err(Either::Left(source))),
            ),
            (FutureState::Ready { limiter, key, inner, req, .. }, Event::TimerElapsed(verdict)) => (
                match verdict {
                    Verdict::Admit => (
                        FutureState::Call { start: None },
                        Action::Invoke(inner, req),
                    ),
                    Verdict::Wait(dur) => (
                        FutureState::Ready { dur, limiter, key, inner, req },
                        Action::Sleep(dur),
                    ),
                }),
            (FutureState::Ready { dur, .. }, Event::Resume) => (self, Action::Sleep(dur)),
            (FutureState::Call { start: Some((inner, req)) }, _) => (
                FutureState::Call { start: None },
                Action::Invoke(inner, req),
            ),
            (FutureState::Call { start: None }, Event::InnerReady(out)) => (
                self,
                Action::Complete(from_inner(out)),
            ),
            _ => (self, Action::Pending),
        }
    }
}

/// A call in progress.
pub struct CallFuture<S, KE: KeyExtractor<Request>, Request, L> {
    state: FutureState<S, KE::Key, KE::Error, Request, L>,
}

impl<S, KE: KeyExtractor<Request>, Request, L> View for CallFuture<S, KE, Request, L> {
    type V = FutureState<S, KE::Key, KE::Error, Request, L>;

    closed spec fn view(&self) -> FutureState<S, KE::Key, KE::Error, Request, L> {
        self.state
    }
}

impl<S, KE: KeyExtractor<Request>, Request, L> CallFuture<S, KE, Request, L> {
    /// A call that fails for want of a key.
    pub fn new_from_extract_error(source: KE::Error) -> (fut: Self)
        ensures
            fut@ == (FutureState::<S, KE::Key, KE::Error, Request, L>::Error {
                source: Some(source),
            }),
    {
        CallFuture { state: FutureState::Error { source: Some(source) } }
    }

    /// A call that has to wait `dur` nanoseconds before the limiter is asked again about `key`.
    pub fn new_from_until(
        dur: u64,
        limiter: Arc<L>,
        key: KE::Key,
        inner: S,
        req: Request,
    ) -> (fut: Self)
        ensures
            fut@ == (FutureState::<S, KE::Key, KE::Error, Request, L>::Ready {
                dur,
                limiter,
                key,
                inner,
                req,
            }),
    {
        CallFuture { state: FutureState::Ready { dur, limiter, key, inner, req } }
    }

    /// A call that may go to the inner service at once.
    pub fn new(inner: S, req: Request) -> (fut: Self)
        ensures
            fut@ == (FutureState::<S, KE::Key, KE::Error, Request, L>::Call {
                start: Some((inner, req)),
            }),
    {
        CallFuture { state: FutureState::Call { start: Some((inner, req)) } }
    }

    /// The limiter that is to be asked once the timer has run out, and the key that it is to be
    /// asked about, while the call waits.
    pub fn limiter(&self) -> (limiter: Option<(&L, &KE::Key)>)
        ensures
            limiter == match self@ {
                FutureState::Ready { limiter, key, .. } => Some((&*limiter, &key)),
                _ => None,
            },
    {
        match &self.state {
            FutureState::Ready { limiter, key, .. } => Some((&**limiter, key)),
            _ => None,
        }
    }

    /// Takes the call one step further, given what the driver reports and, where a timer has run
    /// out, what the limiter says.
    pub fn step<T, F>(self, event: Event<Verdict, Result<T, F>>) -> (r: (
        Self,
        Action<S, Request, Result<T, Either<KE::Error, F>>>,
    ))
        requires
            self@.expects(event),
        ensures
            (r.0@, r.1) == self@.after(event),
    {
        match self.state {
            FutureState::Error { source } => match source {
                Some(source) => (
                    CallFuture { state: FutureState::Error { source: None } },
                    Action::Complete(Err(Either::Left(source))),
                ),
                None => (
                    CallFuture { state: FutureState::Error { source: None } },
                    Action::Pending,
                ),
            },
            FutureState::Ready { dur, limiter, key, inner, req } => match event {
                Event::TimerElapsed(Verdict::Admit) => (
                    CallFuture { state: FutureState::Call { start: None } },
                    Action::Invoke(inner, req),
                ),
                Event::TimerElapsed(Verdict::Wait(dur)) => (
                    CallFuture { state: FutureState::Ready { dur, limiter, key, inner, req } },
                    Action::Sleep(dur),
                ),
                Event::Resume => (
                    CallFuture { state: FutureState::Ready { dur, limiter, key, inner, req } },
                    Action::Sleep(dur),
                ),
                _ => (
                    CallFuture { state: FutureState::Ready { dur, limiter, key, inner, req } },
                    Action::Pending,
                ),
            },
            FutureState::Call { start: Some((inner, req)) } => (
                CallFuture { state: FutureState::Call { start: None } },
                Action::Invoke(inner, req),
            ),
            FutureState::Call { start: None } => match event {
                Event::InnerReady(out) => (
                    CallFuture { state: FutureState::Call { start: None } },
                    Action::Complete(inner_outcome(out)),
                ),
                _ => (CallFuture { state: FutureState::Call { start: None } }, Action::Pending),
            },
        }
    }
}

impl<S, K, E, Request, L> FutureState<S, K, E, Request, L> {
    /// The report `event` can become `told` once `judge` has been run on the limiter and the key,
    /// which happens when a timer has run out, and only then.
    pub open spec fn consults_by<Out, J: FnOnce(&L, &K) -> Verdict>(
        self,
        judge: J,
        event: Event<(), Out>,
        told: Event<Verdict, Out>,
    ) -> bool {
        match event {
            Event::Resume => told is Resume,
            Event::TimerPending => told is TimerPending,
            Event::TimerElapsed(_) => self matches FutureState::Ready { limiter, key, .. }
                && told matches Event::TimerElapsed(verdict) && judge.ensures(
                (&*limiter, &key),
                verdict,
            ),
            Event::InnerPending => told is InnerPending,
            Event::InnerReady(out) => told == Event::<Verdict, Out>::InnerReady(out),
        }
    }
}

impl<S, K: Hash + Eq + Clone, E, Request> FutureState<S, K, E, Request, RateLimiter<K>> {
    /// The report `event` can become `told` once the limiter has been asked about the key, which
    /// happens when a timer has run out, and only then.
    pub open spec fn consults<Out>(self, event: Event<(), Out>, told: Event<Verdict, Out>) -> bool {
        match event {
            Event::Resume => told is Resume,
            Event::TimerPending => told is TimerPending,
            Event::TimerElapsed(_) => self matches FutureState::Ready { limiter, key, .. }
                && told matches Event::TimerElapsed(verdict) && limiter.judges(key, verdict),
            Event::InnerPending => told is InnerPending,
            Event::InnerReady(out) => told == Event::<Verdict, Out>::InnerReady(out),
        }
    }
}

impl<S, KE: KeyExtractor<Request>, Request, L> CallFuture<S, KE, Request, L> {
    /// Takes the call one step further, given what the driver reports. Where a timer has run out,
    /// `judge` is run on the limiter and the key.
    pub fn poll_with<T, F, J: FnOnce(&L, &KE::Key) -> Verdict>(
        self,
        event: Event<(), Result<T, F>>,
        judge: J,
    ) -> (r: (Self, Action<S, Request, Result<T, Either<KE::Error, F>>>))
        requires
            self@.expects(event),
            event is TimerElapsed ==> (self@ matches FutureState::Ready { limiter, key, .. }
                ==> judge.requires((&*limiter, &key))),
        ensures
            exists|told: Event<Verdict, Result<T, F>>| #[trigger]
                self@.consults_by(judge, event, told) && (r.0@, r.1) == self@.after(told),
    {
        let told = match event {
            Event::Resume => Event::Resume,
            Event::TimerPending => Event::TimerPending,
            Event::TimerElapsed(_) => match &self.state {
                FutureState::Ready { limiter, key, .. } => Event::TimerElapsed(
                    judge(&**limiter, key),
                ),
                // No timer runs.
                _ => Event::Resume,
            },
            Event::InnerPending => Event::InnerPending,
            Event::InnerReady(out) => Event::InnerReady(out),
        };
        assert(self@.consults_by(judge, event, told));
        self.step(told)
    }
}

impl<S, KE, Request> CallFuture<S, KE, Request, RateLimiter<KE::Key>> where
    KE: KeyExtractor<Request>,
    KE::Key: Clone + Eq,
 {
    /// Takes the call one step further, given what the driver reports. Where a timer has run out,
    /// the limiter is asked again about the key.
    pub fn poll<T, F>(self, event: Event<(), Result<T, F>>) -> (r: (
        Self,
        Action<S, Request, Result<T, Either<KE::Error, F>>>,
    ))
        requires
            self@.expects(event),
        ensures
            exists|told: Event<Verdict, Result<T, F>>| #[trigger]
                self@.consults(event, told) && (r.0@, r.1) == self@.after(told),
    {
        let judge = |limiter: &RateLimiter<KE::Key>, key: &KE::Key| -> (v: Verdict)
            ensures
                limiter.judges(*key, v),
            { limiter.judge(key) };
        let ghost state = self@;
        let r = self.poll_with(event, judge);
        proof {
            let told = choose|told: Event<Verdict, Result<T, F>>| #[trigger]
                state.consults_by(judge, event, told) && (r.0@, r.1) == state.after(told);
            assert(state.consults(event, told));
        }
        r
    }
}

/// A service whose requests are rate-limited by key.
///
/// - `S`: the inner service, which sees its requests rate-limited
/// - `KE`: the key extractor
/// - `Request`: what the inner service is asked
/// - `L`: the limiter
///
/// A `Governor` can be cloned. The clones share one limiter, so cloning evades no limit.
pub struct Governor<S, KE, Request, L> {
    inner: S,
    key_extractor: KE,
    phantom: PhantomData<Request>,
    limiter: Arc<L>,
}

impl<S, KE, Request, L> Governor<S, KE, Request, L> {
    /// The inner service.
    pub closed spec fn service(self) -> S {
        self.inner
    }

    /// The key extractor.
    pub closed spec fn extractor(self) -> KE {
        self.key_extractor
    }

    /// The limiter, which clones and calls in progress share.
    pub closed spec fn shared(self) -> Arc<L> {
        self.limiter
    }

    /// Rate-limits `inner` with a limiter that may already be in use.
    pub fn new_with_limiter(inner: S, key_extractor: KE, limiter: Arc<L>) -> (governor: Self)
        ensures
            governor.service() == inner,
            governor.extractor() == key_extractor,
            governor.shared() == limiter,
    {
        Governor { inner, key_extractor, phantom: PhantomData, limiter }
    }

    /// The inner service.
    pub fn inner(&self) -> (inner: &S)
        ensures
            *inner == self.service(),
    {
        &self.inner
    }

    /// The key extractor.
    pub fn key_extractor(&self) -> (key_extractor: &KE)
        ensures
            *key_extractor == self.extractor(),
    {
        &self.key_extractor
    }

    /// The inner service, to be changed.
    pub fn inner_mut(&mut self) -> (inner: &mut S)
        ensures
            *inner == old(self).service(),
            final(self).service() == *final(inner),
            final(self).extractor() == old(self).extractor(),
            final(self).shared() == old(self).shared(),
    {
        &mut self.inner
    }

    /// The limiter.
    pub fn limiter(&self) -> (limiter: &L)
        ensures
            *limiter == *self.shared(),
    {
        &*self.limiter
    }
}

impl<S: Clone, KE: KeyExtractor<Request>, Request, L> Governor<S, KE, Request, L> {
    /// The call `fut` of this service with `req`, whose key is `key`, is one that can begin with
    /// `verdict`: it is a call of a clone of the inner service.
    pub open spec fn begins(
        self,
        req: Request,
        key: KE::Key,
        verdict: Verdict,
        fut: FutureState<S, KE::Key, KE::Error, Request, L>,
    ) -> bool {
        exists|inner: S| #[trigger]
            cloned(self.service(), inner) && fut == FutureState::<
                S,
                KE::Key,
                KE::Error,
                Request,
                L,
            >::opened(verdict, self.shared(), key, inner, req)
    }

    /// Begins a call with `req`, whose key is `key`, given what the limiter says of it.
    pub fn begin(&self, req: Request, key: KE::Key, verdict: Verdict) -> (fut: CallFuture<
        S,
        KE,
        Request,
        L,
    >)
        ensures
            self.begins(req, key, verdict, fut@),
    {
        let inner = self.inner.clone();
        assert(cloned(self.service(), inner));
        match verdict {
            Verdict::Admit => CallFuture::new(inner, req),
            Verdict::Wait(dur) => CallFuture::new_from_until(
                dur,
                self.limiter.clone(),
                key,
                inner,
                req,
            ),
        }
    }

    /// Begins a call with `req`. If no key can be extracted from it, the call fails. Otherwise
    /// `judge` is run on the limiter and the key, and the call goes to the inner service at once or
    /// has to wait.
    pub fn call_with<J: FnOnce(&L, &KE::Key) -> Verdict>(&self, req: Request, judge: J) -> (fut:
        CallFuture<S, KE, Request, L>)
        requires
            forall|key: KE::Key|
                call_ensures(KE::extract, (&self.extractor(), &req), Ok(key))
                    ==> #[trigger] judge.requires((&*self.shared(), &key)),
        ensures
            exists|extracted: Result<KE::Key, KE::Error>| #[trigger]
                call_ensures(KE::extract, (&self.extractor(), &req), extracted) && match extracted {
                    Err(source) => fut@ == (FutureState::<
                        S,
                        KE::Key,
                        KE::Error,
                        Request,
                        L,
                    >::Error { source: Some(source) }),
                    Ok(key) => exists|verdict: Verdict| #[trigger]
                        judge.ensures((&*self.shared(), &key), verdict) && self.begins(
                            req,
                            key,
                            verdict,
                            fut@,
                        ),
                },
    {
        let key = match self.key_extractor.extract(&req) {
            Ok(key) => key,
            Err(source) => {
                return CallFuture::new_from_extract_error(source);
            },
        };
        assert(call_ensures(KE::extract, (&self.extractor(), &req), Ok(key)));
        assert(judge.requires((&*self.shared(), &key)));
        let verdict = judge(&*self.limiter, &key);
        self.begin(req, key, verdict)
    }
}

impl<S, KE, Request> Governor<S, KE, Request, RateLimiter<KE::Key>> where
    KE: KeyExtractor<Request>,
    KE::Key: Clone + Eq,
 {
    /// Rate-limits `inner` by `quota`, over a default store and on a default clock. No key has a
    /// quota of its own.
    pub fn default(inner: S, key_extractor: KE, quota: Quota) -> (governor: Self)
        requires
            quota.wf(),
        ensures
            governor.service() == inner,
            governor.extractor() == key_extractor,
            governor.shared().general().made_of_defaults(quota),
            governor.shared().has_no_own(),
    {
        Governor {
            inner,
            key_extractor,
            phantom: PhantomData,
            limiter: Arc::new(RateLimiter::keyed(quota)),
        }
    }

    /// Rate-limits `inner` by `quota`, over the given states and clock, and by the quotas of
    /// `middleware`.
    pub fn new(
        inner: S,
        key_extractor: KE,
        quota: Quota,
        state: DefaultKeyedStateStore<KE::Key>,
        clock: QuantaClock,
        middleware: KeyedDashmapMiddleware<KE::Key>,
    ) -> (governor: Self)
        requires
            quota.wf(),
            counted_store(state),
            middleware.wf(),
        ensures
            governor.service() == inner,
            governor.extractor() == key_extractor,
            governor.shared().general().made_of(quota, state, clock),
            governor.shared().assigned(middleware, state, clock),
    {
        Governor {
            inner,
            key_extractor,
            phantom: PhantomData,
            limiter: Arc::new(RateLimiter::new(quota, state, clock, middleware)),
        }
    }

    /// Begins a call with `req`. If no key can be extracted from it, the call fails. Otherwise the
    /// limiter is asked about the key, and the call goes to the inner service at once or has to
    /// wait.
    pub fn call(&self, req: Request) -> (fut: CallFuture<S, KE, Request, RateLimiter<KE::Key>>) where
        S: Clone,

        ensures
            exists|extracted: Result<KE::Key, KE::Error>| #[trigger]
                call_ensures(KE::extract, (&self.extractor(), &req), extracted) && match extracted {
                    Err(source) => fut@ == (FutureState::<
                        S,
                        KE::Key,
                        KE::Error,
                        Request,
                        RateLimiter<KE::Key>,
                    >::Error { source: Some(source) }),
                    Ok(key) => exists|verdict: Verdict| #[trigger]
                        self.shared().judges(key, verdict) && self.begins(req, key, verdict, fut@),
                },
    {
        let judge = |limiter: &RateLimiter<KE::Key>, key: &KE::Key| -> (v: Verdict)
            ensures
                limiter.judges(*key, v),
            { limiter.judge(key) };
        self.call_with(req, judge)
    }
}

impl<S: Clone, KE: Clone, Request, L> Clone for Governor<S, KE, Request, L> {
    /// A clone rate-limits a clone of the inner service, with the same limiter.
    fn clone(&self) -> (governor: Self)
        ensures
            cloned(self.service(), governor.service()),
            cloned(self.extractor(), governor.extractor()),
            governor.shared() == self.shared(),
    {
        Governor {
            inner: self.inner.clone(),
            key_extractor: self.key_extractor.clone(),
            phantom: PhantomData,
            limiter: self.limiter.clone(),
        }
    }
}

/// Puts one limiter in front of services.
pub struct Layer<Request, KE, L> {
    key_extractor: KE,
    limiter: Arc<L>,
    phantom: PhantomData<Request>,
}

impl<Request, KE, L> Layer<Request, KE, L> {
    /// The key extractor.
    pub closed spec fn extractor(self) -> KE {
        self.key_extractor
    }

    /// The limiter that the services share.
    pub closed spec fn shared(self) -> Arc<L> {
        self.limiter
    }

    /// A layer over a limiter.
    pub fn new_with_limiter(key_extractor: KE, limiter: L) -> (layer: Self)
        ensures
            layer.extractor() == key_extractor,
            *layer.shared() == limiter,
    {
        Layer { key_extractor, limiter: Arc::new(limiter), phantom: PhantomData }
    }

    /// Rate-limits `inner` with the limiter of this layer.
    pub fn layer<S>(&self, inner: S) -> (governor: Governor<S, KE, Request, L>) where KE: Clone
        ensures
            governor.service() == inner,
            cloned(self.extractor(), governor.extractor()),
            governor.shared() == self.shared(),
    {
        Governor::new_with_limiter(inner, self.key_extractor.clone(), self.limiter.clone())
    }
}

impl<Request, KE> Layer<Request, KE, RateLimiter<KE::Key>> where
    KE: KeyExtractor<Request>,
    KE::Key: Clone + Eq,
 {
    /// A layer that limits by `quota`, over a default store and on a default clock. No key has a
    /// quota of its own.
    pub fn default(key_extractor: KE, quota: Quota) -> (layer: Self)
        requires
            quota.wf(),
        ensures
            layer.extractor() == key_extractor,
            layer.shared().general().made_of_defaults(quota),
            layer.shared().has_no_own(),
    {
        Layer { key_extractor, limiter: Arc::new(RateLimiter::keyed(quota)), phantom: PhantomData }
    }

    /// A layer that limits by `quota`, over the given states and clock, and by the quotas of
    /// `middleware`.
    pub fn new(
        key_extractor: KE,
        quota: Quota,
        state: DefaultKeyedStateStore<KE::Key>,
        clock: QuantaClock,
        middleware: KeyedDashmapMiddleware<KE::Key>,
    ) -> (layer: Self)
        requires
            quota.wf(),
            counted_store(state),
            middleware.wf(),
        ensures
            layer.extractor() == key_extractor,
            layer.shared().general().made_of(quota, state, clock),
            layer.shared().assigned(middleware, state, clock),
    {
        Layer {
            key_extractor,
            limiter: Arc::new(RateLimiter::new(quota, state, clock, middleware)),
            phantom: PhantomData,
        }
    }
}

} // verus!

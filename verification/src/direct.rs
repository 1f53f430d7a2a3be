//! Direct rate limiting.
//!
//! A direct limiter keeps a single state, which all requests share.

use crate::driver::{Action, Event};
use crate::limiter::{counted_state, DirectLimiter, Quota, Verdict};
use governor::clock::QuantaClock;
use governor::state::InMemoryState;
use std::marker::PhantomData;
use std::sync::Arc;
use vstd::prelude::*;

verus! {

/// A service whose requests are rate-limited together.
///
/// - `S`: the inner service, which sees its requests rate-limited
/// - `Request`: what it is asked
/// - `L`: the limiter
///
/// A `Governor` can be cloned. The clones share one limiter, so cloning evades no limit.
#[derive(Debug)]
pub struct Governor<S, Request, L> {
    inner: S,
    phantom: PhantomData<Request>,
    limiter: Arc<L>,
}

/// Where a call stands.
#[derive(Debug)]
pub enum FutureState<S, Request, L> {
    /// The limiter has turned the call away; it is to be asked again after `dur` nanoseconds.
    Ready { dur: u64, limiter: Arc<L>, inner: S, req: Request },
    /// The call is admitted. `start` is what the inner service is to be called with, until it has
    /// been.
    Call { start: Option<(S, Request)> },
}

impl<S, Request, L> FutureState<S, Request, L> {
    /// Where the call of `inner` with `req` stands once the limiter has given its first verdict.
    pub open spec fn opened(verdict: Verdict, limiter: Arc<L>, inner: S, req: Request) -> Self {
        match verdict {
            Verdict::Admit => FutureState::Call { start: Some((inner, req)) },
            Verdict::Wait(dur) => FutureState::Ready { dur, limiter, inner, req },
        }
    }

    /// A driver of a call that stands here can report `event`: a timer runs only while the call
    /// waits, and the inner service is heard only once it has been called.
    pub open spec fn expects<V, Out>(self, event: Event<V, Out>) -> bool {
        match self {
            FutureState::Ready { .. } => event is Resume || event is TimerPending
                || event is TimerElapsed,
            FutureState::Call { start: Some(_) } => event is Resume,
            FutureState::Call { start: None } => event is InnerPending || event is InnerReady,
        }
    }

    /// Where the call stands after `event`, and what its driver is to do.
    pub open spec fn after<Out>(self, event: Event<Verdict, Out>) -> (Self, Action<
        S,
        Request,
        Out,
    >) {
        match (self, event) {
            (FutureState::Ready { limiter, inner, req, .. }, Event::TimerElapsed(verdict)) => (
                match verdict {
                    Verdict::Admit => (
                        FutureState::Call { start: None },
                        Action::Invoke(inner, req),
                    ),
                    Verdict::Wait(dur) => (
                        FutureState::Ready { dur, limiter, inner, req },
                        Action::Sleep(dur),
                    ),
                }),
            (FutureState::Ready { dur, .. }, Event::Resume) => (self, Action::Sleep(dur)),
            (FutureState::Call { start: Some((inner, req)) }, _) => (
                FutureState::Call { start: None },
                Action::Invoke(inner, req),
            ),
            (FutureState::Call { start: None }, Event::InnerReady(out)) => (
                self,
                Action::Complete(out),
            ),
            _ => (self, Action::Pending),
        }
    }
}

/// A call in progress.
#[derive(Debug)]
pub struct CallFuture<S, Request, L> {
    state: FutureState<S, Request, L>,
}

impl<S, Request, L> View for CallFuture<S, Request, L> {
    type V = FutureState<S, Request, L>;

    closed spec fn view(&self) -> FutureState<S, Request, L> {
        self.state
    }
}

impl<S, Request, L> CallFuture<S, Request, L> {
    /// A call that has to wait `dur` nanoseconds before the limiter is asked again.
    pub fn new_from_until(dur: u64, limiter: Arc<L>, inner: S, req: Request) -> (fut: Self)
        ensures
            fut@ == (FutureState::Ready { dur, limiter, inner, req }),
    {
        CallFuture { state: FutureState::Ready { dur, limiter, inner, req } }
    }

    /// A call that may go to the inner service at once.
    pub fn new(inner: S, req: Request) -> (fut: Self)
        ensures
            fut@ == (FutureState::<S, Request, L>::Call { start: Some((inner, req)) }),
    {
        CallFuture { state: FutureState::Call { start: Some((inner, req)) } }
    }

    /// The limiter that is to be asked once the timer has run out, while the call waits.
    pub fn limiter(&self) -> (limiter: Option<&L>)
        ensures
            limiter == match self@ {
                FutureState::Ready { limiter, .. } => Some(&*limiter),
                FutureState::Call { .. } => None,
            },
    {
        match &self.state {
            FutureState::Ready { limiter, .. } => Some(&**limiter),
            FutureState::Call { .. } => None,
        }
    }

    /// Takes the call one step further, given what the driver reports and, where a timer has run
    /// out, what the limiter says.
    pub fn step<Out>(self, event: Event<Verdict, Out>) -> (r: (Self, Action<S, Request, Out>))
        requires
            self@.expects(event),
        ensures
            (r.0@, r.1) == self@.after(event),
    {
        match self.state {
            FutureState::Ready { dur, limiter, inner, req } => match event {
                Event::TimerElapsed(Verdict::Admit) => (
                    CallFuture { state: FutureState::Call { start: None } },
                    Action::Invoke(inner, req),
                ),
                Event::TimerElapsed(Verdict::Wait(dur)) => (
                    CallFuture { state: FutureState::Ready { dur, limiter, inner, req } },
                    Action::Sleep(dur),
                ),
                Event::Resume => (
                    CallFuture { state: FutureState::Ready { dur, limiter, inner, req } },
                    Action::Sleep(dur),
                ),
                _ => (
                    CallFuture { state: FutureState::Ready { dur, limiter, inner, req } },
                    Action::Pending,
                ),
            },
            FutureState::Call { start: Some((inner, req)) } => (
                CallFuture { state: FutureState::Call { start: None } },
                Action::Invoke(inner, req),
            ),
            FutureState::Call { start: None } => match event {
                Event::InnerReady(out) => (
                    CallFuture { state: FutureState::Call { start: None } },
                    Action::Complete(out),
                ),
                _ => (CallFuture { state: FutureState::Call { start: None } }, Action::Pending),
            },
        }
    }
}

impl<S, Request, L> FutureState<S, Request, L> {
    /// The report `event` can become `told` once `judge` has been run on the limiter, which happens
    /// when a timer has run out, and only then.
    pub open spec fn consults_by<Out, J: FnOnce(&L) -> Verdict>(
        self,
        judge: J,
        event: Event<(), Out>,
        told: Event<Verdict, Out>,
    ) -> bool {
        match event {
            Event::Resume => told is Resume,
            Event::TimerPending => told is TimerPending,
            Event::TimerElapsed(_) => self matches FutureState::Ready { limiter, .. }
                && told matches Event::TimerElapsed(verdict) && judge.ensures(
                (&*limiter,),
                verdict,
            ),
            Event::InnerPending => told is InnerPending,
            Event::InnerReady(out) => told == Event::<Verdict, Out>::InnerReady(out),
        }
    }
}

impl<S, Request> FutureState<S, Request, DirectLimiter> {
    /// The report `event` can become `told` once the limiter has been asked, which happens when a
    /// timer has run out, and only then.
    pub open spec fn consults<Out>(self, event: Event<(), Out>, told: Event<Verdict, Out>) -> bool {
        match event {
            Event::Resume => told is Resume,
            Event::TimerPending => told is TimerPending,
            Event::TimerElapsed(_) => self matches FutureState::Ready { limiter, .. }
                && told matches Event::TimerElapsed(verdict) && limiter.judges(verdict),
            Event::InnerPending => told is InnerPending,
            Event::InnerReady(out) => told == Event::<Verdict, Out>::InnerReady(out),
        }
    }
}

impl<S, Request, L> CallFuture<S, Request, L> {
    /// Takes the call one step further, given what the driver reports. Where a timer has run out,
    /// `judge` is run on the limiter.
    pub fn poll_with<Out, J: FnOnce(&L) -> Verdict>(self, event: Event<(), Out>, judge: J) -> (r: (
        Self,
        Action<S, Request, Out>,
    ))
        requires
            self@.expects(event),
            event is TimerElapsed ==> (self@ matches FutureState::Ready { limiter, .. }
                ==> judge.requires((&*limiter,))),
        ensures
            exists|told: Event<Verdict, Out>| #[trigger]
                self@.consults_by(judge, event, told) && (r.0@, r.1) == self@.after(told),
    {
        let told = match event {
            Event::Resume => Event::Resume,
            Event::TimerPending => Event::TimerPending,
            Event::TimerElapsed(_) => match &self.state {
                FutureState::Ready { limiter, .. } => Event::TimerElapsed(judge(&**limiter)),
                // No timer runs.
                FutureState::Call { .. } => Event::Resume,
            },
            Event::InnerPending => Event::InnerPending,
            Event::InnerReady(out) => Event::InnerReady(out),
        };
        assert(self@.consults_by(judge, event, told));
        self.step(told)
    }
}

impl<S, Request> CallFuture<S, Request, DirectLimiter> {
    /// Takes the call one step further, given what the driver reports. Where a timer has run out,
    /// the limiter is asked again.
    pub fn poll<Out>(self, event: Event<(), Out>) -> (r: (Self, Action<S, Request, Out>))
        requires
            self@.expects(event),
        ensures
            exists|told: Event<Verdict, Out>| #[trigger]
                self@.consults(event, told) && (r.0@, r.1) == self@.after(told),
    {
        let judge = |limiter: &DirectLimiter| -> (v: Verdict)
            ensures
                limiter.judges(v),
            { limiter.judge() };
        let ghost state = self@;
        let r = self.poll_with(event, judge);
        proof {
            let told = choose|told: Event<Verdict, Out>| #[trigger]
                state.consults_by(judge, event, told) && (r.0@, r.1) == state.after(told);
            assert(state.consults(event, told));
        }
        r
    }
}

impl<S, Request, L> Governor<S, Request, L> {
    /// The inner service.
    pub closed spec fn service(self) -> S {
        self.inner
    }

    /// The limiter, which clones and calls in progress share.
    pub closed spec fn shared(self) -> Arc<L> {
        self.limiter
    }

    /// The call `fut` of this service with `req` is one that can begin with `verdict`: it is a call
    /// of a clone of the inner service.
    pub open spec fn begins(
        self,
        req: Request,
        verdict: Verdict,
        fut: FutureState<S, Request, L>,
    ) -> bool where S: Clone {
        exists|inner: S| #[trigger]
            cloned(self.service(), inner) && fut == FutureState::opened(
                verdict,
                self.shared(),
                inner,
                req,
            )
    }

    /// Rate-limits `inner` with a limiter that may already be in use.
    pub fn new_with_limiter(inner: S, limiter: Arc<L>) -> (governor: Self)
        ensures
            governor.service() == inner,
            governor.shared() == limiter,
    {
        Governor { inner, phantom: PhantomData, limiter }
    }

    /// The inner service.
    pub fn inner(&self) -> (inner: &S)
        ensures
            *inner == self.service(),
    {
        &self.inner
    }

    /// The inner service, to be changed.
    pub fn inner_mut(&mut self) -> (inner: &mut S)
        ensures
            *inner == old(self).service(),
            final(self).service() == *final(inner),
            final(self).shared() == old(self).shared(),
    {
        &mut self.inner
    }

    /// The limiter.
    pub fn limiter(&self) -> (limiter: &L)
        ensures
            *limiter == *self.shared(),
    {
        &*self.limiter
    }

    /// Begins a call with `req`, given what the limiter says of it.
    pub fn begin(&self, req: Request, verdict: Verdict) -> (fut: CallFuture<S, Request, L>) where
        S: Clone,

        ensures
            self.begins(req, verdict, fut@),
    {
        let inner = self.inner.clone();
        assert(cloned(self.service(), inner));
        match verdict {
            Verdict::Admit => CallFuture::new(inner, req),
            Verdict::Wait(dur) => CallFuture::new_from_until(dur, self.limiter.clone(), inner, req),
        }
    }

    /// Begins a call with `req`: `judge` is run on the limiter, and the call goes to the inner
    /// service at once or has to wait.
    pub fn call_with<J: FnOnce(&L) -> Verdict>(&self, req: Request, judge: J) -> (fut: CallFuture<
        S,
        Request,
        L,
    >) where S: Clone
        requires
            judge.requires((&*self.shared(),)),
        ensures
            exists|verdict: Verdict| #[trigger]
                judge.ensures((&*self.shared(),), verdict) && self.begins(req, verdict, fut@),
    {
        let verdict = judge(&*self.limiter);
        self.begin(req, verdict)
    }
}

impl<S, Request> Governor<S, Request, DirectLimiter> {
    /// Rate-limits `inner` by `quota`, over a default state and on a default clock.
    pub fn default(inner: S, quota: Quota) -> (governor: Self)
        requires
            quota.wf(),
        ensures
            governor.service() == inner,
            governor.shared().made_of_defaults(quota),
    {
        Governor {
            inner,
            phantom: PhantomData,
            limiter: Arc::new(DirectLimiter::for_quota(quota)),
        }
    }

    /// Rate-limits `inner` by `quota`, over the given state and clock.
    pub fn new(inner: S, quota: Quota, state: InMemoryState, clock: QuantaClock) -> (governor: Self)
        requires
            quota.wf(),
            counted_state(state),
        ensures
            governor.service() == inner,
            governor.shared().made_of(quota, state, clock),
    {
        Governor {
            inner,
            phantom: PhantomData,
            limiter: Arc::new(DirectLimiter::new(quota, state, clock)),
        }
    }

    /// Begins a call with `req`: the limiter is asked, and the call goes to the inner service at
    /// once or has to wait.
    pub fn call(&self, req: Request) -> (fut: CallFuture<S, Request, DirectLimiter>) where S: Clone
        ensures
            exists|verdict: Verdict| #[trigger]
                self.shared().judges(verdict) && self.begins(req, verdict, fut@),
    {
        let judge = |limiter: &DirectLimiter| -> (v: Verdict)
            ensures
                limiter.judges(v),
            { limiter.judge() };
        self.call_with(req, judge)
    }
}

impl<S: Clone, Request, L> Clone for Governor<S, Request, L> {
    /// A clone rate-limits a clone of the inner service, with the same limiter.
    fn clone(&self) -> (governor: Self)
        ensures
            cloned(self.service(), governor.service()),
            governor.shared() == self.shared(),
    {
        Governor { inner: self.inner.clone(), phantom: PhantomData, limiter: self.limiter.clone() }
    }
}

/// Puts one limiter in front of services.
#[derive(Debug)]
pub struct Layer<Request, L> {
    limiter: Arc<L>,
    phantom: PhantomData<Request>,
}

impl<Request, L> Layer<Request, L> {
    /// The limiter that the services share.
    pub closed spec fn shared(self) -> Arc<L> {
        self.limiter
    }

    /// A layer over a limiter.
    pub fn new_with_limiter(limiter: L) -> (layer: Self)
        ensures
            *layer.shared() == limiter,
    {
        Layer { limiter: Arc::new(limiter), phantom: PhantomData }
    }

    /// Rate-limits `inner` with the limiter of this layer.
    pub fn layer<S>(&self, inner: S) -> (governor: Governor<S, Request, L>)
        ensures
            governor.service() == inner,
            governor.shared() == self.shared(),
    {
        Governor::new_with_limiter(inner, self.limiter.clone())
    }
}

impl<Request> Layer<Request, DirectLimiter> {
    /// A layer that limits by `quota`, over a default state and on a default clock.
    pub fn default(quota: Quota) -> (layer: Self)
        requires
            quota.wf(),
        ensures
            layer.shared().made_of_defaults(quota),
    {
        Layer { limiter: Arc::new(DirectLimiter::for_quota(quota)), phantom: PhantomData }
    }

    /// A layer that limits by `quota`, over the given state and clock.
    pub fn new(quota: Quota, state: InMemoryState, clock: QuantaClock) -> (layer: Self)
        requires
            quota.wf(),
            counted_state(state),
        ensures
            layer.shared().made_of(quota, state, clock),
    {
        Layer { limiter: Arc::new(DirectLimiter::new(quota, state, clock)), phantom: PhantomData }
    }
}

} // verus!

//! What a pending call tells its driver to do, and what the driver reports back.
//!
//! A call neither sleeps nor calls the inner service itself. It names one [`Action`] at a time; the
//! driver carries it out and comes back with an [`Event`].

use crate::limiter::Verdict;
use vstd::prelude::*;

verus! {

/// What the driver of a call has to report. `V` is what it knows of the limiter's opinion when a
/// timer has run out.
#[derive(Debug)]
pub enum Event<V, Out> {
    /// The driver has neither a timer nor a call to the inner service under way.
    Resume,
    /// The timer is still running.
    TimerPending,
    /// The timer has run out.
    TimerElapsed(V),
    /// The inner service has not answered yet.
    InnerPending,
    /// The inner service has answered.
    InnerReady(Out),
}

/// What the driver of a call is to do next.
#[derive(Debug)]
pub enum Action<S, Request, Out> {
    /// Start a timer of so many nanoseconds, and go on with it at once.
    Sleep(u64),
    /// Call the inner service with the request, and go on with that call at once.
    Invoke(S, Request),
    /// Wait to be woken.
    Pending,
    /// Hand out the outcome of the call.
    Complete(Out),
}

/// How many of `events` bring the limiter's leave.
pub open spec fn admissions<Out>(events: Seq<Event<Verdict, Out>>) -> nat
    decreases events.len(),
{
    if events.len() == 0 {
        0
    } else {
        admissions(events.drop_last()) + if events.last() == Event::<Verdict, Out>::TimerElapsed(
            Verdict::Admit,
        ) {
            1nat
        } else {
            0
        }
    }
}

/// The last verdict heard, if the first was `first` and `events` were reported since.
pub open spec fn last_verdict<Out>(first: Verdict, events: Seq<Event<Verdict, Out>>) -> Verdict
    decreases events.len(),
{
    if events.len() == 0 {
        first
    } else if let Event::TimerElapsed(verdict) = events.last() {
        verdict
    } else {
        last_verdict(first, events.drop_last())
    }
}

/// How many of `actions` call the inner service.
pub open spec fn invocations<S, Request, Out>(actions: Seq<Action<S, Request, Out>>) -> nat
    decreases actions.len(),
{
    if actions.len() == 0 {
        0
    } else {
        invocations(actions.drop_last()) + if actions.last() is Invoke {
            1nat
        } else {
            0
        }
    }
}

} // verus!

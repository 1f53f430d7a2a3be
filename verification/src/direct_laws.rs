//! What holds of every direct call from beginning to end, and of any number of them together.

use crate::direct::{CallFuture, FutureState, Governor};
use crate::driver::{admissions, invocations, last_verdict, Action, Event};
use crate::limiter::{DirectLimiter, Verdict};
use crate::limiter_laws::{gives, lemma_gives};
use std::sync::Arc;
use vstd::prelude::*;

verus! {

/// Where a call that stood at `state` stands after `events`, and what its driver was told to do
/// upon each of them.
pub open spec fn run<S, Request, L, Out>(
    state: FutureState<S, Request, L>,
    events: Seq<Event<Verdict, Out>>,
) -> (FutureState<S, Request, L>, Seq<Action<S, Request, Out>>)
    decreases events.len(),
{
    if events.len() == 0 {
        (state, Seq::empty())
    } else {
        let (before, actions) = run(state, events.drop_last());
        let (now, action) = before.after(events.last());
        (now, actions.push(action))
    }
}

/// A driver can report `events`, one after the other, of a call that stands at `state`.
pub open spec fn possible<S, Request, L, Out>(
    state: FutureState<S, Request, L>,
    events: Seq<Event<Verdict, Out>>,
) -> bool
    decreases events.len(),
{
    events.len() > 0 ==> {
        &&& possible(state, events.drop_last())
        &&& run(state, events.drop_last()).0.expects(events.last())
    }
}

/// The inner service is still to be called.
pub open spec fn due<S, Request, L>(state: FutureState<S, Request, L>) -> bool {
    state is Ready || admitted(state)
}

/// The limiter has given its leave, and the inner service is still to be called.
pub open spec fn admitted<S, Request, L>(state: FutureState<S, Request, L>) -> bool {
    state matches FutureState::Call { start: Some(_) }
}

/// What the inner service is still to be called with.
pub open spec fn owed<S, Request, L>(state: FutureState<S, Request, L>) -> Option<(S, Request)> {
    match state {
        FutureState::Ready { inner, req, .. } => Some((inner, req)),
        FutureState::Call { start } => start,
    }
}

/// The limiter that a call waits for.
pub open spec fn asked<S, Request, L>(state: FutureState<S, Request, L>) -> Option<Arc<L>> {
    match state {
        FutureState::Ready { limiter, .. } => Some(limiter),
        FutureState::Call { .. } => None,
    }
}

/// There is one action for each event.
proof fn lemma_run_len<S, Request, L, Out>(
    state: FutureState<S, Request, L>,
    events: Seq<Event<Verdict, Out>>,
)
    ensures
        run(state, events).1.len() == events.len(),
    decreases events.len(),
{
    if events.len() > 0 {
        lemma_run_len(state, events.drop_last());
    }
}

/// What happens upon the event at `i` is a step from where the earlier events have led.
proof fn lemma_run_step<S, Request, L, Out>(
    state: FutureState<S, Request, L>,
    events: Seq<Event<Verdict, Out>>,
    i: int,
)
    requires
        possible(state, events),
        0 <= i < events.len(),
    ensures
        possible(state, events.take(i)),
        run(state, events.take(i)).0.expects(events[i]),
        run(state, events).1.len() == events.len(),
        run(state, events).1[i] == run(state, events.take(i)).0.after(events[i]).1,
        run(state, events).1.take(i) == run(state, events.take(i)).1,
    decreases events.len(),
{
    lemma_run_len(state, events);
    lemma_run_len(state, events.drop_last());
    if i == events.len() - 1 {
        assert(events.take(i) =~= events.drop_last());
        assert(run(state, events).1.take(i) =~= run(state, events.drop_last()).1);
    } else {
        lemma_run_step(state, events.drop_last(), i);
        assert(events.drop_last().take(i) =~= events.take(i));
        assert(run(state, events).1.take(i) =~= run(state, events.drop_last()).1.take(i));
    }
}

/// Every request reaches the inner service once: however the limiter answers, the calls made and
/// the call that is still due come to the one call that was due in the first place.
pub proof fn law_called_once<S, Request, L, Out>(
    state: FutureState<S, Request, L>,
    events: Seq<Event<Verdict, Out>>,
)
    requires
        possible(state, events),
    ensures
        ({
            let (end, actions) = run(state, events);
            invocations(actions) + (if due(end) {
                1nat
            } else {
                0
            }) == if due(state) {
                1nat
            } else {
                0
            }
        }),
    decreases events.len(),
{
    if events.len() > 0 {
        law_called_once(state, events.drop_last());
        let (end, actions) = run(state, events);
        assert(actions.drop_last() =~= run(state, events.drop_last()).1);
    }
}

/// The inner service is called exactly as often as the limiter gives its leave: each call of it
/// uses up one admission, and each admission is used for one.
pub proof fn law_called_as_admitted<S, Request, L, Out>(
    state: FutureState<S, Request, L>,
    events: Seq<Event<Verdict, Out>>,
)
    requires
        possible(state, events),
    ensures
        ({
            let (end, actions) = run(state, events);
            invocations(actions) + (if admitted(end) {
                1nat
            } else {
                0
            }) == admissions(events) + if admitted(state) {
                1nat
            } else {
                0
            }
        }),
    decreases events.len(),
{
    if events.len() > 0 {
        law_called_as_admitted(state, events.drop_last());
        let (end, actions) = run(state, events);
        assert(actions.drop_last() =~= run(state, events.drop_last()).1);
    }
}

/// The inner service is called once for the one time that the limiter admits a call, be it when the
/// call begins or later, and not at all before that.
pub proof fn law_called_as_admitted_from_the_start<S, Request, L, Out>(
    verdict: Verdict,
    limiter: Arc<L>,
    inner: S,
    req: Request,
    events: Seq<Event<Verdict, Out>>,
)
    requires
        possible(FutureState::opened(verdict, limiter, inner, req), events),
    ensures
        ({
            let (end, actions) = run(FutureState::opened(verdict, limiter, inner, req), events);
            let admitted_so_far = admissions(events) + if verdict is Admit {
                1nat
            } else {
                0
            };
            &&& invocations(actions) <= admitted_so_far <= 1
            &&& events.len() > 0 ==> invocations(actions) == admitted_so_far
        }),
{
    let state = FutureState::opened(verdict, limiter, inner, req);
    law_called_as_admitted(state, events);
    law_called_once(state, events);
    if events.len() > 0 {
        lemma_admitted_is_new(state, events);
    }
}

/// A call stands admitted only until its first step.
proof fn lemma_admitted_is_new<S, Request, L, Out>(
    state: FutureState<S, Request, L>,
    events: Seq<Event<Verdict, Out>>,
)
    requires
        possible(state, events),
        events.len() > 0,
    ensures
        !admitted(run(state, events).0),
    decreases events.len(),
{
    if events.len() > 1 {
        lemma_admitted_is_new(state, events.drop_last());
    }
}

/// A call that still waits has neither used an admission nor reached the inner service, so dropping
/// it then leaves both as they are.
pub proof fn law_dropped_while_waiting<S, Request, L, Out>(
    verdict: Verdict,
    limiter: Arc<L>,
    inner: S,
    req: Request,
    events: Seq<Event<Verdict, Out>>,
)
    requires
        possible(FutureState::opened(verdict, limiter, inner, req), events),
        run(FutureState::opened(verdict, limiter, inner, req), events).0 is Ready,
    ensures
        !(verdict is Admit),
        admissions(events) == 0,
        invocations(run(FutureState::opened(verdict, limiter, inner, req), events).1) == 0,
{
    let state = FutureState::opened(verdict, limiter, inner, req);
    law_called_once(state, events);
    law_called_as_admitted(state, events);
}

/// A call waits with the limiter, the inner service and the request that it began with, and goes on
/// owing the inner service the same call until that is made.
pub proof fn law_nothing_is_exchanged<S, Request, L, Out>(
    state: FutureState<S, Request, L>,
    events: Seq<Event<Verdict, Out>>,
)
    requires
        possible(state, events),
    ensures
        owed(run(state, events).0) is Some ==> owed(run(state, events).0) == owed(state),
        asked(run(state, events).0) is Some ==> asked(run(state, events).0) == asked(state),
    decreases events.len(),
{
    if events.len() > 0 {
        law_nothing_is_exchanged(state, events.drop_last());
    }
}

/// The inner service that is called, and the request that it is called with, are those that the
/// call began with.
pub proof fn law_called_with_the_request<S, Request, L, Out>(
    state: FutureState<S, Request, L>,
    events: Seq<Event<Verdict, Out>>,
    i: int,
)
    requires
        possible(state, events),
        0 <= i < events.len(),
    ensures
        run(state, events).1[i] matches Action::Invoke(inner, req) ==> owed(state) == Some(
            (inner, req),
        ),
{
    lemma_run_step(state, events, i);
    law_nothing_is_exchanged(state, events.take(i));
}

/// A call that the limiter turns away sleeps for as long as the limiter says, and is neither called
/// nor completed.
pub proof fn law_turned_away_sleeps<S, Request, L, Out>(
    state: FutureState<S, Request, L>,
    events: Seq<Event<Verdict, Out>>,
    i: int,
    wait: u64,
)
    requires
        possible(state, events),
        0 <= i < events.len(),
        events[i] == Event::<Verdict, Out>::TimerElapsed(Verdict::Wait(wait)),
    ensures
        run(state, events).1[i] == Action::<S, Request, Out>::Sleep(wait),
{
    lemma_run_step(state, events, i);
}

/// The outcome of a call is the outcome of the inner service, unchanged, and is handed out when the
/// inner service has answered and not before.
pub proof fn law_outcome_is_the_services<S, Request, L, Out>(
    state: FutureState<S, Request, L>,
    events: Seq<Event<Verdict, Out>>,
    i: int,
    out: Out,
)
    requires
        possible(state, events),
        0 <= i < events.len(),
    ensures
        run(state, events).1[i] == Action::<S, Request, Out>::Complete(out) <==> events[i]
            == Event::<Verdict, Out>::InnerReady(out),
{
    lemma_run_step(state, events, i);
}

/// A call that is due completes only after the inner service has been called.
pub proof fn law_completes_after_the_call<S, Request, L, Out>(
    state: FutureState<S, Request, L>,
    events: Seq<Event<Verdict, Out>>,
    i: int,
)
    requires
        possible(state, events),
        due(state),
        0 <= i < events.len(),
        run(state, events).1[i] is Complete,
    ensures
        invocations(run(state, events).1.take(i)) == 1,
{
    lemma_run_step(state, events, i);
    law_called_once(state, events.take(i));
}

/// One step of one of many calls: when it is taken, where the call stands, and what the driver
/// reports.
pub struct Step<S, Request, L, Out> {
    pub time: nat,
    pub state: FutureState<S, Request, L>,
    pub event: Event<Verdict, Out>,
}

/// When the inner service is called in `steps`.
pub open spec fn called_at<S, Request, L, Out>(steps: Seq<Step<S, Request, L, Out>>) -> Seq<nat>
    decreases steps.len(),
{
    if steps.len() == 0 {
        Seq::empty()
    } else {
        let earlier = called_at(steps.drop_last());
        if steps.last().state.after(steps.last().event).1 is Invoke {
            earlier.push(steps.last().time)
        } else {
            earlier
        }
    }
}

/// When calls in `steps` go ahead with the limiter's leave: upon it, or, where a call was given it
/// when it began, upon its first step.
pub open spec fn admitted_at<S, Request, L, Out>(steps: Seq<Step<S, Request, L, Out>>) -> Seq<nat>
    decreases steps.len(),
{
    if steps.len() == 0 {
        Seq::empty()
    } else {
        let earlier = admitted_at(steps.drop_last());
        if admitted(steps.last().state) || steps.last().event == Event::<
            Verdict,
            Out,
        >::TimerElapsed(Verdict::Admit) {
            earlier.push(steps.last().time)
        } else {
            earlier
        }
    }
}

/// The rate at which the inner service is called is the rate at which the limiter admits: however
/// the steps of any number of calls interleave, the times at which the inner service is called are
/// the times of the admissions.
pub proof fn law_rate_is_the_limiters<S, Request, L, Out>(steps: Seq<Step<S, Request, L, Out>>)
    requires
        forall|i: int|
            0 <= i < steps.len() ==> (#[trigger] steps[i]).state.expects(steps[i].event),
    ensures
        called_at(steps) == admitted_at(steps),
    decreases steps.len(),
{
    if steps.len() > 0 {
        law_rate_is_the_limiters(steps.drop_last());
        assert(steps.last() == steps[steps.len() - 1]);
    }
}

/// The reports `events` took a call from each of `futs` to the next, and its driver's orders
/// were `actions`.
pub open spec fn stepped<S, Request, L, Out>(
    futs: Seq<CallFuture<S, Request, L>>,
    events: Seq<Event<Verdict, Out>>,
    actions: Seq<Action<S, Request, Out>>,
) -> bool {
    &&& futs.len() == events.len() + 1
    &&& actions.len() == events.len()
    &&& forall|i: int|
        #![trigger events[i]]
        0 <= i < events.len() ==> futs[i]@.expects(events[i]) && call_ensures(
            CallFuture::<S, Request, L>::step::<Out>,
            (futs[i], events[i]),
            (futs[i + 1], actions[i]),
        )
}

/// The driver of a call of `inner` with `req` has its orders right, where `first` is what the limiter
/// said at first. They are to wait while something is under way; to hand out the service's outcome, as it is, when it is there; and otherwise to do as the limiter last said, which is to
/// sleep for just so long, or to call the service.
pub open spec fn ordered_rightly<S, Request, Out>(
    inner: S,
    req: Request,
    first: Verdict,
    events: Seq<Event<Verdict, Out>>,
    actions: Seq<Action<S, Request, Out>>,
) -> bool {
    forall|i: int|
        #![trigger actions[i]]
        0 <= i < events.len() ==> match events[i] {
            Event::TimerPending | Event::InnerPending => actions[i] is Pending,
            Event::InnerReady(out) => actions[i] == Action::<S, Request, Out>::Complete(out),
            Event::Resume | Event::TimerElapsed(_) => match last_verdict(
                first,
                events.take(i + 1),
            ) {
                Verdict::Admit => actions[i] == Action::<S, Request, Out>::Invoke(inner, req),
                Verdict::Wait(dur) => actions[i] == Action::<S, Request, Out>::Sleep(dur),
            },
        }
}

/// While the limiter's last word is to wait, a call waits for just so long, for the limiter that it
/// began with; once it is admitted, it goes to the inner service with its first step.
proof fn lemma_where_it_stands<S, Request, L, Out>(
    first: Verdict,
    limiter: Arc<L>,
    inner: S,
    req: Request,
    futs: Seq<CallFuture<S, Request, L>>,
    events: Seq<Event<Verdict, Out>>,
    actions: Seq<Action<S, Request, Out>>,
    i: int,
)
    requires
        stepped(futs, events, actions),
        futs[0]@ == FutureState::opened(first, limiter, inner, req),
        0 <= i <= events.len(),
    ensures
        match last_verdict(first, events.take(i)) {
            Verdict::Wait(dur) => futs[i]@ == (FutureState::Ready { dur, limiter, inner, req }),
            Verdict::Admit => futs[i]@ == (FutureState::<S, Request, L>::Call {
                start: if i == 0 {
                    Some((inner, req))
                } else {
                    None
                },
            }),
        },
    decreases i,
{
    if i == 0 {
        assert(events.take(0).len() == 0);
    } else {
        lemma_where_it_stands(first, limiter, inner, req, futs, events, actions, i - 1);
        assert(events.take(i).drop_last() =~= events.take(i - 1));
        assert(events.take(i).last() == events[i - 1]);
    }
}

/// A call that stands where a first verdict puts it gives its driver the right orders.
proof fn lemma_ordered_rightly<S, Request, L, Out>(
    first: Verdict,
    limiter: Arc<L>,
    inner: S,
    req: Request,
    futs: Seq<CallFuture<S, Request, L>>,
    events: Seq<Event<Verdict, Out>>,
    actions: Seq<Action<S, Request, Out>>,
)
    requires
        stepped(futs, events, actions),
        futs[0]@ == FutureState::opened(first, limiter, inner, req),
    ensures
        ordered_rightly(inner, req, first, events, actions),
{
    assert forall|i: int|
        #![trigger actions[i]]
        0 <= i < events.len() implies match events[i] {
        Event::TimerPending | Event::InnerPending => actions[i] is Pending,
        Event::InnerReady(out) => actions[i] == Action::<S, Request, Out>::Complete(out),
        Event::Resume | Event::TimerElapsed(_) => match last_verdict(first, events.take(i + 1)) {
            Verdict::Admit => actions[i] == Action::<S, Request, Out>::Invoke(inner, req),
            Verdict::Wait(dur) => actions[i] == Action::<S, Request, Out>::Sleep(dur),
        },
    } by {
        lemma_where_it_stands(first, limiter, inner, req, futs, events, actions, i);
        assert(events.take(i + 1).drop_last() =~= events.take(i));
        assert(events.take(i + 1).last() == events[i]);
    }
}

/// Whatever comes, a call that was begun with a verdict gives its driver the right orders: the call
/// sleeps for as long as the limiter last said, leaves a running timer alone, goes to a clone of
/// the inner service with its request once it is admitted, and hands out what the service answers.
pub proof fn law_begun_call_is_ordered_rightly<S: Clone, Request, L, Out>(
    g: Governor<S, Request, L>,
    req: Request,
    first: Verdict,
    futs: Seq<CallFuture<S, Request, L>>,
    events: Seq<Event<Verdict, Out>>,
    actions: Seq<Action<S, Request, Out>>,
)
    requires
        call_ensures(Governor::<S, Request, L>::begin, (&g, req, first), futs[0]),
        stepped(futs, events, actions),
    ensures
        exists|inner: S| #[trigger]
            cloned(g.service(), inner) && ordered_rightly(inner, req, first, events, actions),
{
    let inner = choose|inner: S| #[trigger]
        cloned(g.service(), inner) && futs[0]@ == FutureState::opened(
            first,
            g.shared(),
            inner,
            req,
        );
    lemma_ordered_rightly(first, g.shared(), inner, req, futs, events, actions);
}

/// A call goes by what the limiter of the service answers: its first verdict is to go ahead if a
/// cell is granted, and to wait until the time of the denial has come if not. From there on it
/// gives its driver the right orders.
pub proof fn law_call_is_ordered_rightly<S: Clone, Request, Out>(
    g: Governor<S, Request, DirectLimiter>,
    req: Request,
    futs: Seq<CallFuture<S, Request, DirectLimiter>>,
    events: Seq<Event<Verdict, Out>>,
    actions: Seq<Action<S, Request, Out>>,
)
    requires
        call_ensures(Governor::<S, Request, DirectLimiter>::call, (&g, req), futs[0]),
        stepped(futs, events, actions),
    ensures
        exists|inner: S, first: Verdict|
            #![trigger cloned(g.service(), inner), gives(*g.shared(), first)]
            cloned(g.service(), inner) && gives(*g.shared(), first) && ordered_rightly(
                inner,
                req,
                first,
                events,
                actions,
            ),
{
    let first = choose|first: Verdict| #[trigger]
        g.shared().judges(first) && g.begins(req, first, futs[0]@);
    let inner = choose|inner: S| #[trigger]
        cloned(g.service(), inner) && futs[0]@ == FutureState::opened(
            first,
            g.shared(),
            inner,
            req,
        );
    lemma_ordered_rightly(first, g.shared(), inner, req, futs, events, actions);
    lemma_gives(&*g.shared(), first);
}

/// As [`law_call_is_ordered_rightly`], where a judge is given: the first verdict is the judge's on
/// the limiter of the service.
pub proof fn law_call_with_is_ordered_rightly<S: Clone, Request, L, J, Out>(
    g: Governor<S, Request, L>,
    req: Request,
    judge: J,
    futs: Seq<CallFuture<S, Request, L>>,
    events: Seq<Event<Verdict, Out>>,
    actions: Seq<Action<S, Request, Out>>,
) where J: FnOnce(&L) -> Verdict
    requires
        call_ensures(Governor::<S, Request, L>::call_with::<J>, (&g, req, judge), futs[0]),
        stepped(futs, events, actions),
    ensures
        exists|inner: S, first: Verdict|
            #![trigger cloned(g.service(), inner), judge.ensures((&*g.shared(),), first)]
            cloned(g.service(), inner) && judge.ensures((&*g.shared(),), first) && ordered_rightly(
                inner,
                req,
                first,
                events,
                actions,
            ),
{
    let first = choose|first: Verdict| #[trigger]
        judge.ensures((&*g.shared(),), first) && g.begins(req, first, futs[0]@);
    let inner = choose|inner: S| #[trigger]
        cloned(g.service(), inner) && futs[0]@ == FutureState::opened(
            first,
            g.shared(),
            inner,
            req,
        );
    lemma_ordered_rightly(first, g.shared(), inner, req, futs, events, actions);
}

/// A driver that follows its orders can go on with what comes of it: there is always a report to
/// make, be it that a call has begun, that its timer runs or has run out, or that the inner service
/// has not answered yet or has. While the limiter's last word is to wait, the limiter to be asked
/// is that of the service; after that there is none.
pub proof fn law_begun_call_goes_on<S: Clone, Request, L, Out>(
    g: Governor<S, Request, L>,
    req: Request,
    first: Verdict,
    futs: Seq<CallFuture<S, Request, L>>,
    events: Seq<Event<Verdict, Out>>,
    actions: Seq<Action<S, Request, Out>>,
    limiter: Option<&L>,
)
    requires
        call_ensures(Governor::<S, Request, L>::begin, (&g, req, first), futs[0]),
        stepped(futs, events, actions),
        call_ensures(CallFuture::<S, Request, L>::limiter, (&futs.last(),), limiter),
    ensures
        match last_verdict(first, events) {
            Verdict::Wait(_) => {
                &&& limiter == Some(&*g.shared())
                &&& futs.last()@.expects(Event::<Verdict, Out>::Resume)
                &&& futs.last()@.expects(Event::<Verdict, Out>::TimerPending)
                &&& forall|v: Verdict| #[trigger]
                    futs.last()@.expects(Event::<Verdict, Out>::TimerElapsed(v))
            },
            Verdict::Admit => {
                &&& limiter is None
                &&& events.len() == 0 ==> futs.last()@.expects(Event::<Verdict, Out>::Resume)
                &&& events.len() > 0 ==> futs.last()@.expects(Event::<Verdict, Out>::InnerPending)
                &&& events.len() > 0 ==> forall|out: Out| #[trigger]
                    futs.last()@.expects(Event::<Verdict, Out>::InnerReady(out))
            },
        },
{
    let inner = choose|inner: S| #[trigger]
        cloned(g.service(), inner) && futs[0]@ == FutureState::opened(
            first,
            g.shared(),
            inner,
            req,
        );
    let n = events.len() as int;
    lemma_where_it_stands(first, g.shared(), inner, req, futs, events, actions, n);
    assert(events.take(n) =~= events);
}

/// Reports that something is still under way change nothing: the call stands where it stood.
pub proof fn law_pending_changes_nothing<S, Request, L, Out>(
    fut: CallFuture<S, Request, L>,
    event: Event<Verdict, Out>,
    r: (CallFuture<S, Request, L>, Action<S, Request, Out>),
)
    requires
        fut@.expects(event),
        event is TimerPending || event is InnerPending,
        call_ensures(CallFuture::<S, Request, L>::step::<Out>, (fut, event), r),
    ensures
        r.0@ == fut@,
        r.1 is Pending,
{
}

/// Polling with a judge is taking a step with what the judge says: the judge is heard when a timer
/// has run out, on the limiter that the call waits for, and all else is passed on as it is.
pub proof fn law_poll_with_is_a_step<S, Request, L, J, Out>(
    fut: CallFuture<S, Request, L>,
    event: Event<(), Out>,
    judge: J,
    limiter: Option<&L>,
    r: (CallFuture<S, Request, L>, Action<S, Request, Out>),
) where J: FnOnce(&L) -> Verdict
    requires
        fut@.expects(event),
        call_ensures(CallFuture::<S, Request, L>::limiter, (&fut,), limiter),
        call_ensures(
            CallFuture::<S, Request, L>::poll_with::<Out, J>,
            (fut, event, judge),
            r,
        ),
    ensures
        exists|told: Event<Verdict, Out>|
            #![trigger fut@.expects(told)]
            fut@.expects(told) && (match event {
                Event::Resume => told is Resume,
                Event::TimerPending => told is TimerPending,
                Event::TimerElapsed(_) => limiter matches Some(limiter)
                    && told matches Event::TimerElapsed(v) && judge.ensures((limiter,), v),
                Event::InnerPending => told is InnerPending,
                Event::InnerReady(out) => told == Event::<Verdict, Out>::InnerReady(out),
            }) && forall|s: (CallFuture<S, Request, L>, Action<S, Request, Out>)|
                #[trigger] call_ensures(CallFuture::<S, Request, L>::step::<Out>, (fut, told), s)
                    ==> s.0@ == r.0@ && s.1 == r.1,
{
    let told = choose|told: Event<Verdict, Out>| #[trigger]
        fut@.consults_by(judge, event, told) && (r.0@, r.1) == fut@.after(told);
    assert(fut@.expects(told));
}

/// Polling is taking a step with what the limiter says: when a timer has run out, the limiter that
/// the call waits for is asked again, and a denial is waited out. All else is passed on as it is.
pub proof fn law_poll_is_a_step<S, Request, Out>(
    fut: CallFuture<S, Request, DirectLimiter>,
    event: Event<(), Out>,
    limiter: Option<&DirectLimiter>,
    r: (CallFuture<S, Request, DirectLimiter>, Action<S, Request, Out>),
)
    requires
        fut@.expects(event),
        call_ensures(CallFuture::<S, Request, DirectLimiter>::limiter, (&fut,), limiter),
        call_ensures(CallFuture::<S, Request, DirectLimiter>::poll::<Out>, (fut, event), r),
    ensures
        exists|told: Event<Verdict, Out>|
            #![trigger fut@.expects(told)]
            fut@.expects(told) && (match event {
                Event::Resume => told is Resume,
                Event::TimerPending => told is TimerPending,
                Event::TimerElapsed(_) => limiter matches Some(limiter)
                    && told matches Event::TimerElapsed(v) && gives(*limiter, v),
                Event::InnerPending => told is InnerPending,
                Event::InnerReady(out) => told == Event::<Verdict, Out>::InnerReady(out),
            }) && forall|s: (CallFuture<S, Request, DirectLimiter>, Action<S, Request, Out>)|
                #[trigger] call_ensures(
                    CallFuture::<S, Request, DirectLimiter>::step::<Out>,
                    (fut, told),
                    s,
                ) ==> s.0@ == r.0@ && s.1 == r.1,
{
    let told = choose|told: Event<Verdict, Out>| #[trigger]
        fut@.consults(event, told) && (r.0@, r.1) == fut@.after(told);
    assert(fut@.expects(told));
    if let Event::TimerElapsed(v) = told {
        lemma_gives(limiter->0, v);
    }
}

} // verus!

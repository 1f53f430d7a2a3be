//! What holds of every keyed call from beginning to end, and of any number of them together.

use crate::driver::{admissions, invocations, last_verdict, Action, Event};
use crate::extractors::{last_under, KeyedDashmapMiddleware};
use crate::keyed::{
    from_inner, inner_outcome, quota_for, CallFuture, FutureState, Governor, KeyExtractor, Own,
    RateLimiter,
};
use crate::limiter::{
    clock_reads, default_state, held, Asked, DirectLimiter, KeyedLimiter, NotUntil, Quota, Verdict,
};
use crate::limiter_laws::{gives, gives_under, lemma_gives, lemma_gives_under};
use either::Either;
use governor::clock::QuantaClock;
use governor::state::keyed::DefaultKeyedStateStore;
use governor::state::InMemoryState;
use std::hash::Hash;
use std::sync::Arc;
use vstd::prelude::*;
use vstd::std_specs::hash::obeys_key_model;

verus! {

/// Where a call that stood at `state` stands after `events`, and what its driver was told to do
/// upon each of them.
pub open spec fn run<S, K, E, Request, L, T, F>(
    state: FutureState<S, K, E, Request, L>,
    events: Seq<Event<Verdict, Result<T, F>>>,
) -> (FutureState<S, K, E, Request, L>, Seq<Action<S, Request, Result<T, Either<E, F>>>>)
    decreases events.len(),
{
    if events.len() == 0 {
        (state, Seq::empty())
    } else {
        let (before, actions) = run(state, events.drop_last());
        let (now, action) = before.after(events.last());
        (now, actions.push(action))
    }
}

/// A driver can report `events`, one after the other, of a call that stands at `state`.
pub open spec fn possible<S, K, E, Request, L, T, F>(
    state: FutureState<S, K, E, Request, L>,
    events: Seq<Event<Verdict, Result<T, F>>>,
) -> bool
    decreases events.len(),
{
    events.len() > 0 ==> {
        &&& possible(state, events.drop_last())
        &&& run(state, events.drop_last()).0.expects(events.last())
    }
}

/// The inner service is still to be called.
pub open spec fn due<S, K, E, Request, L>(state: FutureState<S, K, E, Request, L>) -> bool {
    state is Ready || admitted(state)
}

/// The limiter has given its leave, and the inner service is still to be called.
pub open spec fn admitted<S, K, E, Request, L>(state: FutureState<S, K, E, Request, L>) -> bool {
    state matches FutureState::Call { start: Some(_) }
}

/// What the inner service is still to be called with.
pub open spec fn owed<S, K, E, Request, L>(
    state: FutureState<S, K, E, Request, L>,
) -> Option<(S, Request)> {
    match state {
        FutureState::Ready { inner, req, .. } => Some((inner, req)),
        FutureState::Call { start } => start,
        FutureState::Error { .. } => None,
    }
}

/// The limiter that a call waits for, and the key that it asks it about.
pub open spec fn asked<S, K, E, Request, L>(
    state: FutureState<S, K, E, Request, L>,
) -> Option<(Arc<L>, K)> {
    match state {
        FutureState::Ready { limiter, key, .. } => Some((limiter, key)),
        _ => None,
    }
}

/// There is one action for each event.
proof fn lemma_run_len<S, K, E, Request, L, T, F>(
    state: FutureState<S, K, E, Request, L>,
    events: Seq<Event<Verdict, Result<T, F>>>,
)
    ensures
        run(state, events).1.len() == events.len(),
    decreases events.len(),
{
    if events.len() > 0 {
        lemma_run_len(state, events.drop_last());
    }
}

/// What happens upon the event at `i` is a step from where the earlier events have led.
proof fn lemma_run_step<S, K, E, Request, L, T, F>(
    state: FutureState<S, K, E, Request, L>,
    events: Seq<Event<Verdict, Result<T, F>>>,
    i: int,
)
    requires
        possible(state, events),
        0 <= i < events.len(),
    ensures
        possible(state, events.take(i)),
        run(state, events.take(i)).0.expects(events[i]),
        run(state, events).1.len() == events.len(),
        run(state, events).1[i] == run(state, events.take(i)).0.after(events[i]).1,
        run(state, events).1.take(i) == run(state, events.take(i)).1,
    decreases events.len(),
{
    lemma_run_len(state, events);
    lemma_run_len(state, events.drop_last());
    if i == events.len() - 1 {
        assert(events.take(i) =~= events.drop_last());
        assert(run(state, events).1.take(i) =~= run(state, events.drop_last()).1);
    } else {
        lemma_run_step(state, events.drop_last(), i);
        assert(events.drop_last().take(i) =~= events.take(i));
        assert(run(state, events).1.take(i) =~= run(state, events.drop_last()).1.take(i));
    }
}

/// Every request reaches the inner service once: however the limiter answers, the calls made and
/// the call that is still due come to the one call that was due in the first place.
pub proof fn law_called_once<S, K, E, Request, L, T, F>(
    state: FutureState<S, K, E, Request, L>,
    events: Seq<Event<Verdict, Result<T, F>>>,
)
    requires
        possible(state, events),
    ensures
        ({
            let (end, actions) = run(state, events);
            invocations(actions) + (if due(end) {
                1nat
            } else {
                0
            }) == if due(state) {
                1nat
            } else {
                0
            }
        }),
    decreases events.len(),
{
    if events.len() > 0 {
        law_called_once(state, events.drop_last());
        let (end, actions) = run(state, events);
        assert(actions.drop_last() =~= run(state, events.drop_last()).1);
    }
}

/// The inner service is called exactly as often as the limiter gives its leave: each call of it
/// uses up one admission, and each admission is used for one.
pub proof fn law_called_as_admitted<S, K, E, Request, L, T, F>(
    state: FutureState<S, K, E, Request, L>,
    events: Seq<Event<Verdict, Result<T, F>>>,
)
    requires
        possible(state, events),
    ensures
        ({
            let (end, actions) = run(state, events);
            invocations(actions) + (if admitted(end) {
                1nat
            } else {
                0
            }) == admissions(events) + if admitted(state) {
                1nat
            } else {
                0
            }
        }),
    decreases events.len(),
{
    if events.len() > 0 {
        law_called_as_admitted(state, events.drop_last());
        let (end, actions) = run(state, events);
        assert(actions.drop_last() =~= run(state, events.drop_last()).1);
    }
}

/// The inner service is called once for the one time that the limiter admits a call, be it when the
/// call begins or later, and not at all before that.
pub proof fn law_called_as_admitted_from_the_start<S, K, E, Request, L, T, F>(
    verdict: Verdict,
    limiter: Arc<L>,
    key: K,
    inner: S,
    req: Request,
    events: Seq<Event<Verdict, Result<T, F>>>,
)
    requires
        possible(
            FutureState::<S, K, E, Request, L>::opened(verdict, limiter, key, inner, req),
            events,
        ),
    ensures
        ({
            let (end, actions) = run(
                FutureState::<S, K, E, Request, L>::opened(verdict, limiter, key, inner, req),
                events,
            );
            let admitted_so_far = admissions(events) + if verdict is Admit {
                1nat
            } else {
                0
            };
            &&& invocations(actions) <= admitted_so_far <= 1
            &&& events.len() > 0 ==> invocations(actions) == admitted_so_far
        }),
{
    let state = FutureState::<S, K, E, Request, L>::opened(verdict, limiter, key, inner, req);
    law_called_as_admitted(state, events);
    law_called_once(state, events);
    if events.len() > 0 {
        lemma_admitted_is_new(state, events);
    }
}

/// A call stands admitted only until its first step.
proof fn lemma_admitted_is_new<S, K, E, Request, L, T, F>(
    state: FutureState<S, K, E, Request, L>,
    events: Seq<Event<Verdict, Result<T, F>>>,
)
    requires
        possible(state, events),
        events.len() > 0,
    ensures
        !admitted(run(state, events).0),
    decreases events.len(),
{
    if events.len() > 1 {
        lemma_admitted_is_new(state, events.drop_last());
    }
}

/// A call that still waits has neither used an admission nor reached the inner service, so dropping
/// it then leaves both as they are.
pub proof fn law_dropped_while_waiting<S, K, E, Request, L, T, F>(
    verdict: Verdict,
    limiter: Arc<L>,
    key: K,
    inner: S,
    req: Request,
    events: Seq<Event<Verdict, Result<T, F>>>,
)
    requires
        possible(
            FutureState::<S, K, E, Request, L>::opened(verdict, limiter, key, inner, req),
            events,
        ),
        run(
            FutureState::<S, K, E, Request, L>::opened(verdict, limiter, key, inner, req),
            events,
        ).0 is Ready,
    ensures
        !(verdict is Admit),
        admissions(events) == 0,
        invocations(
            run(
                FutureState::<S, K, E, Request, L>::opened(verdict, limiter, key, inner, req),
                events,
            ).1,
        ) == 0,
{
    let state = FutureState::<S, K, E, Request, L>::opened(verdict, limiter, key, inner, req);
    law_called_once(state, events);
    law_called_as_admitted(state, events);
}

/// A call waits with the limiter, the key, the inner service and the request that it began with,
/// and goes on owing the inner service the same call until that is made.
pub proof fn law_nothing_is_exchanged<S, K, E, Request, L, T, F>(
    state: FutureState<S, K, E, Request, L>,
    events: Seq<Event<Verdict, Result<T, F>>>,
)
    requires
        possible(state, events),
    ensures
        owed(run(state, events).0) is Some ==> owed(run(state, events).0) == owed(state),
        asked(run(state, events).0) is Some ==> asked(run(state, events).0) == asked(state),
    decreases events.len(),
{
    if events.len() > 0 {
        law_nothing_is_exchanged(state, events.drop_last());
    }
}

/// The inner service that is called, and the request that it is called with, are those that the
/// call began with.
pub proof fn law_called_with_the_request<S, K, E, Request, L, T, F>(
    state: FutureState<S, K, E, Request, L>,
    events: Seq<Event<Verdict, Result<T, F>>>,
    i: int,
)
    requires
        possible(state, events),
        0 <= i < events.len(),
    ensures
        run(state, events).1[i] matches Action::Invoke(inner, req) ==> owed(state) == Some(
            (inner, req),
        ),
{
    lemma_run_step(state, events, i);
    law_nothing_is_exchanged(state, events.take(i));
}

/// A call that the limiter turns away sleeps for as long as the limiter says, and is neither called
/// nor completed.
pub proof fn law_turned_away_sleeps<S, K, E, Request, L, T, F>(
    state: FutureState<S, K, E, Request, L>,
    events: Seq<Event<Verdict, Result<T, F>>>,
    i: int,
    wait: u64,
)
    requires
        possible(state, events),
        0 <= i < events.len(),
        events[i] == Event::<Verdict, Result<T, F>>::TimerElapsed(Verdict::Wait(wait)),
    ensures
        run(state, events).1[i] == Action::<S, Request, Result<T, Either<E, F>>>::Sleep(wait),
{
    lemma_run_step(state, events, i);
}

/// The outcome of a call is the outcome of the inner service, with its error marked as the inner
/// service's, unless no key was found; it is handed out when the inner service has answered and not
/// before.
pub proof fn law_outcome_is_the_services<S, K, E, Request, L, T, F>(
    state: FutureState<S, K, E, Request, L>,
    events: Seq<Event<Verdict, Result<T, F>>>,
    i: int,
    out: Result<T, F>,
)
    requires
        possible(state, events),
        0 <= i < events.len(),
    ensures
        run(state, events).1[i] == Action::<S, Request, Result<T, Either<E, F>>>::Complete(
            from_inner(out),
        ) <==> events[i] == Event::<Verdict, Result<T, F>>::InnerReady(out),
{
    lemma_run_step(state, events, i);
}

/// A call whose key cannot be extracted fails with the extractor's error, once and at its first
/// step. It is never admitted, never sleeps, and never reaches the inner service.
pub proof fn law_no_key_no_call<S, K, E, Request, L, T, F>(
    source: E,
    events: Seq<Event<Verdict, Result<T, F>>>,
)
    requires
        possible(FutureState::<S, K, E, Request, L>::Error { source: Some(source) }, events),
    ensures
        ({
            let (end, actions) = run(
                FutureState::<S, K, E, Request, L>::Error { source: Some(source) },
                events,
            );
            &&& events.len() <= 1
            &&& events.len() == 1 ==> actions == seq![
                Action::<S, Request, Result<T, Either<E, F>>>::Complete(Err(Either::Left(source))),
            ]
            &&& invocations(actions) == 0
        }),
    decreases events.len(),
{
    let state = FutureState::<S, K, E, Request, L>::Error { source: Some(source) };
    law_called_once(state, events);
    if events.len() > 0 {
        law_no_key_no_call::<S, K, E, Request, L, T, F>(source, events.drop_last());
        lemma_run_len(state, events);
    }
}

/// The extractor's error is the outcome of a call only if no key was found.
pub proof fn law_extract_error_means_no_key<S, K, E, Request, L, T, F>(
    state: FutureState<S, K, E, Request, L>,
    events: Seq<Event<Verdict, Result<T, F>>>,
    i: int,
    source: E,
)
    requires
        possible(state, events),
        0 <= i < events.len(),
        run(state, events).1[i] == Action::<S, Request, Result<T, Either<E, F>>>::Complete(
            Err(Either::Left(source)),
        ),
    ensures
        state == (FutureState::<S, K, E, Request, L>::Error { source: Some(source) }),
{
    lemma_run_step(state, events, i);
    lemma_error_is_the_first(state, events.take(i));
}

/// A call fails for want of a key from the start or not at all.
proof fn lemma_error_is_the_first<S, K, E, Request, L, T, F>(
    state: FutureState<S, K, E, Request, L>,
    events: Seq<Event<Verdict, Result<T, F>>>,
)
    requires
        possible(state, events),
    ensures
        run(state, events).0 matches FutureState::Error { source: Some(_) } ==> state == run(
            state,
            events,
        ).0,
    decreases events.len(),
{
    if events.len() > 0 {
        lemma_error_is_the_first(state, events.drop_last());
    }
}

/// A call that is due completes only after the inner service has been called.
pub proof fn law_completes_after_the_call<S, K, E, Request, L, T, F>(
    state: FutureState<S, K, E, Request, L>,
    events: Seq<Event<Verdict, Result<T, F>>>,
    i: int,
)
    requires
        possible(state, events),
        due(state),
        0 <= i < events.len(),
        run(state, events).1[i] is Complete,
    ensures
        invocations(run(state, events).1.take(i)) == 1,
{
    lemma_run_step(state, events, i);
    law_called_once(state, events.take(i));
}

/// One step of one of many calls: when it is taken, where the call stands, and what the driver
/// reports.
pub struct Step<S, K, E, Request, L, T, F> {
    pub time: nat,
    pub state: FutureState<S, K, E, Request, L>,
    pub event: Event<Verdict, Result<T, F>>,
}

/// When the inner service is called in `steps`.
pub open spec fn called_at<S, K, E, Request, L, T, F>(
    steps: Seq<Step<S, K, E, Request, L, T, F>>,
) -> Seq<nat>
    decreases steps.len(),
{
    if steps.len() == 0 {
        Seq::empty()
    } else {
        let earlier = called_at(steps.drop_last());
        if steps.last().state.after(steps.last().event).1 is Invoke {
            earlier.push(steps.last().time)
        } else {
            earlier
        }
    }
}

/// When calls in `steps` go ahead with the limiter's leave: upon it, or, where a call was given it
/// when it began, upon its first step.
pub open spec fn admitted_at<S, K, E, Request, L, T, F>(
    steps: Seq<Step<S, K, E, Request, L, T, F>>,
) -> Seq<nat>
    decreases steps.len(),
{
    if steps.len() == 0 {
        Seq::empty()
    } else {
        let earlier = admitted_at(steps.drop_last());
        if admitted(steps.last().state) || steps.last().event == Event::<
            Verdict,
            Result<T, F>,
        >::TimerElapsed(Verdict::Admit) {
            earlier.push(steps.last().time)
        } else {
            earlier
        }
    }
}

/// The rate at which the inner service is called is the rate at which the limiter admits: however
/// the steps of any number of calls interleave, the times at which the inner service is called are
/// the times of the admissions. That goes for the calls under one key as well.
pub proof fn law_rate_is_the_limiters<S, K, E, Request, L, T, F>(
    steps: Seq<Step<S, K, E, Request, L, T, F>>,
)
    requires
        forall|i: int|
            0 <= i < steps.len() ==> (#[trigger] steps[i]).state.expects(steps[i].event),
    ensures
        called_at(steps) == admitted_at(steps),
    decreases steps.len(),
{
    if steps.len() > 0 {
        law_rate_is_the_limiters(steps.drop_last());
        assert(steps.last() == steps[steps.len() - 1]);
    }
}

/// For a key that has a quota of its own, the limiter answers that was made for the key and that
/// quota, which goes on where the given states stand under the key and reads the given clock. For
/// any other key the general limiter answers.
pub proof fn law_who_answers_for_a_key<K: Hash + Eq + Clone>(
    limiter: RateLimiter<K>,
    entries: Seq<(K, Quota)>,
    store: DefaultKeyedStateStore<K>,
    clock: QuantaClock,
    key: K,
    r: Result<(), NotUntil>,
)
    requires
        limiter.sets_apart(entries, store, clock),
        limiter.checked(key, r),
    ensures
        match last_under(entries, key) {
            Some(quota) => exists|own: Arc<Own<K>>| #[trigger]
                limiter.own().finds(key, Some(own)) && own.made_for(key, quota, store, clock)
                    && own.limiter.checked(r),
            None => limiter.general().checked(key, r),
        },
{
}

/// Two keys that have quotas of their own have two limiters, whether or not the quotas are equal.
pub proof fn law_own_limiters_are_not_shared<K: Hash + Eq + Clone>(
    limiter: RateLimiter<K>,
    entries: Seq<(K, Quota)>,
    store: DefaultKeyedStateStore<K>,
    clock: QuantaClock,
    one: K,
    other: K,
    found: Arc<Own<K>>,
    found_other: Arc<Own<K>>,
)
    requires
        limiter.sets_apart(entries, store, clock),
        one != other,
        limiter.own().finds(one, Some(found)),
        limiter.own().finds(other, Some(found_other)),
    ensures
        found.key@ == one,
        found_other.key@ == other,
        found != found_other,
{
}

/// A key is turned away under the quota that applies to it: its own if it has one, and the quota
/// for all keys if not.
pub proof fn law_quota_of_a_key<K: Hash + Eq + Clone>(
    limiter: RateLimiter<K>,
    quota: Quota,
    entries: Seq<(K, Quota)>,
    store: DefaultKeyedStateStore<K>,
    clock: QuantaClock,
)
    requires
        limiter.general().denies_by(quota),
        limiter.sets_apart(entries, store, clock),
    ensures
        limiter.denies_by(quota, entries),
{
    assert forall|key: K, e: NotUntil| #[trigger] limiter.checked(key, Err(e)) implies e.quota
        == quota_for(quota, entries, key) by {
        law_who_answers_for_a_key(limiter, entries, store, clock, key, Err(e));
    }
}

/// Where no key has a quota of its own, one quota applies to every key.
pub proof fn law_one_quota_for_all_keys<K: Hash + Eq + Clone>(
    limiter: RateLimiter<K>,
    quota: Quota,
    key: K,
    e: NotUntil,
)
    requires
        limiter.general().denies_by(quota),
        limiter.has_no_own(),
        limiter.checked(key, Err(e)),
    ensures
        e.quota == quota,
{
}

/// As [`gives`], for the limiter that answers for the key: the key's own if it has one, and the
/// general limiter if not.
pub open spec fn gives_for<K: Hash + Eq + Clone>(
    limiter: RateLimiter<K>,
    key: K,
    v: Verdict,
) -> bool {
    ||| exists|own: Arc<Own<K>>| #[trigger]
        limiter.own().finds(key, Some(own)) && gives(own.limiter, v)
    ||| limiter.own().finds(key, None) && gives_under(limiter.general(), key, v)
}

/// A verdict that a limiter can give on a key comes of an answer of the limiter that answers for
/// it.
proof fn lemma_gives_for<K: Hash + Eq + Clone>(limiter: &RateLimiter<K>, key: K, v: Verdict)
    requires
        limiter.judges(key, v),
    ensures
        gives_for(*limiter, key, v),
{
    if exists|own: Arc<Own<K>>| #[trigger]
        limiter.own().finds(key, Some(own)) && own.limiter.judges(v) {
        let own = choose|own: Arc<Own<K>>| #[trigger]
            limiter.own().finds(key, Some(own)) && own.limiter.judges(v);
        lemma_gives(&own.limiter, v);
        assert(limiter.own().finds(key, Some(own)));
    } else {
        lemma_gives_under(&limiter.general(), key, v);
    }
}

/// Judging under a key is asking for it and waiting out: a verdict comes of an answer of the
/// limiter that answers for the key.
pub proof fn law_verdict_on_a_key_comes_of_an_answer<K: Hash + Eq + Clone>(
    limiter: RateLimiter<K>,
    key: K,
    v: Verdict,
)
    requires
        call_ensures(RateLimiter::<K>::judge, (&limiter, &key), v),
    ensures
        gives_for(limiter, key, v),
{
    lemma_gives_for(&limiter, key, v);
}

/// One verdict takes one cell, and no other limiter is asked than the one that answers for the key:
/// the record grows by one entry, which is that limiter's, and the call goes ahead if the cell was
/// granted, and only then.
pub proof fn law_one_cell_for_one_verdict<K: Hash + Eq + Clone>(
    limiter: RateLimiter<K>,
    key: K,
    v: Verdict,
    before: Seq<Asked<K>>,
    after: Seq<Asked<K>>,
)
    requires
        limiter.judged(key, v, before, after),
    ensures
        after.len() == before.len() + 1,
        after.drop_last() == before,
        match after.last() {
            Asked::Direct(asked, r) => (v is Admit <==> r is Ok) && exists|own: Arc<Own<K>>|
             #[trigger]
                limiter.own().finds(key, Some(own)) && own.limiter == asked && asked.checked(r),
            Asked::Keyed(under, r) => (v is Admit <==> r is Ok) && under == key
                && limiter.own().finds(key, None) && limiter.general().checked(key, r),
        },
{
    assert(after.drop_last() =~= before);
}

/// The reports `events` took a call from each of `futs` to the next, and its driver's orders
/// were `actions`.
pub open spec fn stepped<S, KE: KeyExtractor<Request>, Request, L, T, F>(
    futs: Seq<CallFuture<S, KE, Request, L>>,
    events: Seq<Event<Verdict, Result<T, F>>>,
    actions: Seq<Action<S, Request, Result<T, Either<KE::Error, F>>>>,
) -> bool {
    &&& futs.len() == events.len() + 1
    &&& actions.len() == events.len()
    &&& forall|i: int|
        #![trigger events[i]]
        0 <= i < events.len() ==> futs[i]@.expects(events[i]) && call_ensures(
            CallFuture::<S, KE, Request, L>::step::<T, F>,
            (futs[i], events[i]),
            (futs[i + 1], actions[i]),
        )
}

/// The driver of a call of `inner` with `req` has its orders right, where `first` is what the limiter
/// said at first. They are to wait while something is under way; to hand out the service's outcome, with an error marked as the service's, when it is there; and otherwise to do as the
/// limiter last said, which is to sleep for just so long, or to call the service.
pub open spec fn ordered_rightly<S, E, Request, T, F>(
    inner: S,
    req: Request,
    first: Verdict,
    events: Seq<Event<Verdict, Result<T, F>>>,
    actions: Seq<Action<S, Request, Result<T, Either<E, F>>>>,
) -> bool {
    forall|i: int|
        #![trigger actions[i]]
        0 <= i < events.len() ==> match events[i] {
            Event::TimerPending | Event::InnerPending => actions[i] is Pending,
            Event::InnerReady(Ok(response)) => actions[i] == Action::<
                S,
                Request,
                Result<T, Either<E, F>>,
            >::Complete(Ok(response)),
            Event::InnerReady(Err(error)) => actions[i] == Action::<
                S,
                Request,
                Result<T, Either<E, F>>,
            >::Complete(Err(Either::Right(error))),
            Event::Resume | Event::TimerElapsed(_) => match last_verdict(
                first,
                events.take(i + 1),
            ) {
                Verdict::Admit => actions[i] == Action::<
                    S,
                    Request,
                    Result<T, Either<E, F>>,
                >::Invoke(inner, req),
                Verdict::Wait(dur) => actions[i] == Action::<
                    S,
                    Request,
                    Result<T, Either<E, F>>,
                >::Sleep(dur),
            },
        }
}

/// While the limiter's last word is to wait, a call waits for just so long, for the limiter and
/// under the key that it began with; once it is admitted, it goes to the inner service with its
/// first step.
proof fn lemma_where_it_stands<S, KE: KeyExtractor<Request>, Request, L, T, F>(
    first: Verdict,
    limiter: Arc<L>,
    key: KE::Key,
    inner: S,
    req: Request,
    futs: Seq<CallFuture<S, KE, Request, L>>,
    events: Seq<Event<Verdict, Result<T, F>>>,
    actions: Seq<Action<S, Request, Result<T, Either<KE::Error, F>>>>,
    i: int,
)
    requires
        stepped(futs, events, actions),
        futs[0]@ == FutureState::<S, KE::Key, KE::Error, Request, L>::opened(
            first,
            limiter,
            key,
            inner,
            req,
        ),
        0 <= i <= events.len(),
    ensures
        match last_verdict(first, events.take(i)) {
            Verdict::Wait(dur) => futs[i]@ == (FutureState::<
                S,
                KE::Key,
                KE::Error,
                Request,
                L,
            >::Ready { dur, limiter, key, inner, req }),
            Verdict::Admit => futs[i]@ == (FutureState::<S, KE::Key, KE::Error, Request, L>::Call {
                start: if i == 0 {
                    Some((inner, req))
                } else {
                    None
                },
            }),
        },
    decreases i,
{
    if i == 0 {
        assert(events.take(0).len() == 0);
    } else {
        lemma_where_it_stands(first, limiter, key, inner, req, futs, events, actions, i - 1);
        assert(events.take(i).drop_last() =~= events.take(i - 1));
        assert(events.take(i).last() == events[i - 1]);
    }
}

/// A call that stands where a first verdict puts it gives its driver the right orders.
proof fn lemma_ordered_rightly<S, KE: KeyExtractor<Request>, Request, L, T, F>(
    first: Verdict,
    limiter: Arc<L>,
    key: KE::Key,
    inner: S,
    req: Request,
    futs: Seq<CallFuture<S, KE, Request, L>>,
    events: Seq<Event<Verdict, Result<T, F>>>,
    actions: Seq<Action<S, Request, Result<T, Either<KE::Error, F>>>>,
)
    requires
        stepped(futs, events, actions),
        futs[0]@ == FutureState::<S, KE::Key, KE::Error, Request, L>::opened(
            first,
            limiter,
            key,
            inner,
            req,
        ),
    ensures
        ordered_rightly(inner, req, first, events, actions),
{
    assert forall|i: int|
        #![trigger actions[i]]
        0 <= i < events.len() implies match events[i] {
        Event::TimerPending | Event::InnerPending => actions[i] is Pending,
        Event::InnerReady(Ok(response)) => actions[i] == Action::<
            S,
            Request,
            Result<T, Either<KE::Error, F>>,
        >::Complete(Ok(response)),
        Event::InnerReady(Err(error)) => actions[i] == Action::<
            S,
            Request,
            Result<T, Either<KE::Error, F>>,
        >::Complete(Err(Either::Right(error))),
        Event::Resume | Event::TimerElapsed(_) => match last_verdict(first, events.take(i + 1)) {
            Verdict::Admit => actions[i] == Action::<
                S,
                Request,
                Result<T, Either<KE::Error, F>>,
            >::Invoke(inner, req),
            Verdict::Wait(dur) => actions[i] == Action::<
                S,
                Request,
                Result<T, Either<KE::Error, F>>,
            >::Sleep(dur),
        },
    } by {
        lemma_where_it_stands(first, limiter, key, inner, req, futs, events, actions, i);
        assert(events.take(i + 1).drop_last() =~= events.take(i));
        assert(events.take(i + 1).last() == events[i]);
    }
}

/// Whatever comes, a call that was begun with a verdict gives its driver the right orders: the call
/// sleeps for as long as the limiter last said, leaves a running timer alone, goes to a clone of
/// the inner service with its request once it is admitted, and hands out what the service answers.
pub proof fn law_begun_call_is_ordered_rightly<S, KE, Request, L, T, F>(
    g: Governor<S, KE, Request, L>,
    req: Request,
    key: KE::Key,
    first: Verdict,
    futs: Seq<CallFuture<S, KE, Request, L>>,
    events: Seq<Event<Verdict, Result<T, F>>>,
    actions: Seq<Action<S, Request, Result<T, Either<KE::Error, F>>>>,
) where S: Clone, KE: KeyExtractor<Request>
    requires
        call_ensures(Governor::<S, KE, Request, L>::begin, (&g, req, key, first), futs[0]),
        stepped(futs, events, actions),
    ensures
        exists|inner: S| #[trigger]
            cloned(g.service(), inner) && ordered_rightly(inner, req, first, events, actions),
{
    let inner = choose|inner: S| #[trigger]
        cloned(g.service(), inner) && futs[0]@ == FutureState::<
            S,
            KE::Key,
            KE::Error,
            Request,
            L,
        >::opened(first, g.shared(), key, inner, req);
    lemma_ordered_rightly(first, g.shared(), key, inner, req, futs, events, actions);
}

/// A call that no key was found for is over with the extractor's error at its first step. Any other
/// call goes by what is answered for its key: its first verdict is to go ahead if a cell is
/// granted, and to wait until the time of the denial has come if not. From there on it gives its
/// driver the right orders.
pub proof fn law_call_is_ordered_rightly<S, KE, Request, T, F>(
    g: Governor<S, KE, Request, RateLimiter<KE::Key>>,
    req: Request,
    futs: Seq<CallFuture<S, KE, Request, RateLimiter<KE::Key>>>,
    events: Seq<Event<Verdict, Result<T, F>>>,
    actions: Seq<Action<S, Request, Result<T, Either<KE::Error, F>>>>,
) where S: Clone, KE: KeyExtractor<Request>, KE::Key: Clone + Eq
    requires
        call_ensures(
            Governor::<S, KE, Request, RateLimiter<KE::Key>>::call,
            (&g, req),
            futs[0],
        ),
        stepped(futs, events, actions),
    ensures
        exists|extracted: Result<KE::Key, KE::Error>| #[trigger]
            call_ensures(KE::extract, (&g.extractor(), &req), extracted) && match extracted {
                Err(source) => events.len() <= 1 && (events.len() == 1 ==> actions[0] == Action::<
                    S,
                    Request,
                    Result<T, Either<KE::Error, F>>,
                >::Complete(Err(Either::Left(source)))),
                Ok(key) => exists|inner: S, first: Verdict|
                    #![trigger cloned(g.service(), inner), gives_for(*g.shared(), key, first)]
                    cloned(g.service(), inner) && gives_for(*g.shared(), key, first)
                        && ordered_rightly(inner, req, first, events, actions),
            },
{
    let extracted = choose|extracted: Result<KE::Key, KE::Error>| #[trigger]
        call_ensures(KE::extract, (&g.extractor(), &req), extracted) && match extracted {
            Err(source) => futs[0]@ == (FutureState::<
                S,
                KE::Key,
                KE::Error,
                Request,
                RateLimiter<KE::Key>,
            >::Error { source: Some(source) }),
            Ok(key) => exists|verdict: Verdict| #[trigger]
                g.shared().judges(key, verdict) && g.begins(req, key, verdict, futs[0]@),
        };
    match extracted {
        Err(_) => {
            lemma_failed_is_over(futs, events, actions);
        },
        Ok(key) => {
            let first = choose|first: Verdict| #[trigger]
                g.shared().judges(key, first) && g.begins(req, key, first, futs[0]@);
            let inner = choose|inner: S| #[trigger]
                cloned(g.service(), inner) && futs[0]@ == FutureState::<
                    S,
                    KE::Key,
                    KE::Error,
                    Request,
                    RateLimiter<KE::Key>,
                >::opened(first, g.shared(), key, inner, req);
            lemma_ordered_rightly(first, g.shared(), key, inner, req, futs, events, actions);
            lemma_gives_for(&*g.shared(), key, first);
        },
    }
}

/// A call that failed for want of a key is over after one step.
proof fn lemma_failed_is_over<S, KE: KeyExtractor<Request>, Request, L, T, F>(
    futs: Seq<CallFuture<S, KE, Request, L>>,
    events: Seq<Event<Verdict, Result<T, F>>>,
    actions: Seq<Action<S, Request, Result<T, Either<KE::Error, F>>>>,
)
    requires
        stepped(futs, events, actions),
        futs[0]@ matches FutureState::Error { source: Some(_) },
    ensures
        events.len() <= 1,
        events.len() == 1 ==> actions[0] == Action::<
            S,
            Request,
            Result<T, Either<KE::Error, F>>,
        >::Complete(Err(Either::Left(futs[0]@->source->0))),
{
    if events.len() > 0 {
        assert(futs[0]@.expects(events[0]));
    }
    if events.len() > 1 {
        assert(futs[1]@.expects(events[1]));
    }
}

/// As [`law_call_is_ordered_rightly`], where a judge is given: the first verdict is the judge's on
/// the limiter of the service and the key.
pub proof fn law_call_with_is_ordered_rightly<S, KE, Request, L, J, T, F>(
    g: Governor<S, KE, Request, L>,
    req: Request,
    judge: J,
    futs: Seq<CallFuture<S, KE, Request, L>>,
    events: Seq<Event<Verdict, Result<T, F>>>,
    actions: Seq<Action<S, Request, Result<T, Either<KE::Error, F>>>>,
) where S: Clone, KE: KeyExtractor<Request>, J: FnOnce(&L, &KE::Key) -> Verdict
    requires
        call_ensures(Governor::<S, KE, Request, L>::call_with::<J>, (&g, req, judge), futs[0]),
        stepped(futs, events, actions),
    ensures
        exists|extracted: Result<KE::Key, KE::Error>| #[trigger]
            call_ensures(KE::extract, (&g.extractor(), &req), extracted) && match extracted {
                Err(source) => events.len() <= 1 && (events.len() == 1 ==> actions[0] == Action::<
                    S,
                    Request,
                    Result<T, Either<KE::Error, F>>,
                >::Complete(Err(Either::Left(source)))),
                Ok(key) => exists|inner: S, first: Verdict|
                    #![trigger
                        cloned(g.service(), inner),
                        judge.ensures((&*g.shared(), &key), first),
                    ]
                    cloned(g.service(), inner) && judge.ensures((&*g.shared(), &key), first)
                        && ordered_rightly(inner, req, first, events, actions),
            },
{
    let extracted = choose|extracted: Result<KE::Key, KE::Error>| #[trigger]
        call_ensures(KE::extract, (&g.extractor(), &req), extracted) && match extracted {
            Err(source) => futs[0]@ == (FutureState::<S, KE::Key, KE::Error, Request, L>::Error {
                source: Some(source),
            }),
            Ok(key) => exists|verdict: Verdict| #[trigger]
                judge.ensures((&*g.shared(), &key), verdict) && g.begins(
                    req,
                    key,
                    verdict,
                    futs[0]@,
                ),
        };
    match extracted {
        Err(_) => {
            lemma_failed_is_over(futs, events, actions);
        },
        Ok(key) => {
            let first = choose|first: Verdict| #[trigger]
                judge.ensures((&*g.shared(), &key), first) && g.begins(req, key, first, futs[0]@);
            let inner = choose|inner: S| #[trigger]
                cloned(g.service(), inner) && futs[0]@ == FutureState::<
                    S,
                    KE::Key,
                    KE::Error,
                    Request,
                    L,
                >::opened(first, g.shared(), key, inner, req);
            lemma_ordered_rightly(first, g.shared(), key, inner, req, futs, events, actions);
        },
    }
}

/// A driver that follows its orders can go on with what comes of it: there is always a report to
/// make, be it that a call has begun, that its timer runs or has run out, or that the inner service
/// has not answered yet or has. While the limiter's last word is to wait, the limiter to be asked
/// is that of the service, under the key of the call; after that there is none.
pub proof fn law_begun_call_goes_on<S: Clone, KE: KeyExtractor<Request>, Request, L, T, F>(
    g: Governor<S, KE, Request, L>,
    req: Request,
    key: KE::Key,
    first: Verdict,
    futs: Seq<CallFuture<S, KE, Request, L>>,
    events: Seq<Event<Verdict, Result<T, F>>>,
    actions: Seq<Action<S, Request, Result<T, Either<KE::Error, F>>>>,
    limiter: Option<(&L, &KE::Key)>,
)
    requires
        call_ensures(Governor::<S, KE, Request, L>::begin, (&g, req, key, first), futs[0]),
        stepped(futs, events, actions),
        call_ensures(CallFuture::<S, KE, Request, L>::limiter, (&futs.last(),), limiter),
    ensures
        match last_verdict(first, events) {
            Verdict::Wait(_) => {
                &&& limiter == Some((&*g.shared(), &key))
                &&& futs.last()@.expects(Event::<Verdict, Result<T, F>>::Resume)
                &&& futs.last()@.expects(Event::<Verdict, Result<T, F>>::TimerPending)
                &&& forall|v: Verdict| #[trigger]
                    futs.last()@.expects(Event::<Verdict, Result<T, F>>::TimerElapsed(v))
            },
            Verdict::Admit => {
                &&& limiter is None
                &&& events.len() == 0 ==> futs.last()@.expects(
                    Event::<Verdict, Result<T, F>>::Resume,
                )
                &&& events.len() > 0 ==> futs.last()@.expects(
                    Event::<Verdict, Result<T, F>>::InnerPending,
                )
                &&& events.len() > 0 ==> forall|out: Result<T, F>| #[trigger]
                    futs.last()@.expects(Event::<Verdict, Result<T, F>>::InnerReady(out))
            },
        },
{
    let inner = choose|inner: S| #[trigger]
        cloned(g.service(), inner) && futs[0]@ == FutureState::<
            S,
            KE::Key,
            KE::Error,
            Request,
            L,
        >::opened(first, g.shared(), key, inner, req);
    let n = events.len() as int;
    lemma_where_it_stands(first, g.shared(), key, inner, req, futs, events, actions, n);
    assert(events.take(n) =~= events);
}

/// Reports that something is still under way change nothing: the call stands where it stood.
pub proof fn law_pending_changes_nothing<S, KE: KeyExtractor<Request>, Request, L, T, F>(
    fut: CallFuture<S, KE, Request, L>,
    event: Event<Verdict, Result<T, F>>,
    r: (CallFuture<S, KE, Request, L>, Action<S, Request, Result<T, Either<KE::Error, F>>>),
)
    requires
        fut@.expects(event),
        event is TimerPending || event is InnerPending,
        call_ensures(CallFuture::<S, KE, Request, L>::step::<T, F>, (fut, event), r),
    ensures
        r.0@ == fut@,
        r.1 is Pending,
{
}

/// Polling with a judge is taking a step with what the judge says: the judge is heard when a timer
/// has run out, on the limiter that the call waits for and the key that it waits under, and all
/// else is passed on as it is.
pub proof fn law_poll_with_is_a_step<S, KE, Request, L, J, T, F>(
    fut: CallFuture<S, KE, Request, L>,
    event: Event<(), Result<T, F>>,
    judge: J,
    limiter: Option<(&L, &KE::Key)>,
    r: (CallFuture<S, KE, Request, L>, Action<S, Request, Result<T, Either<KE::Error, F>>>),
) where KE: KeyExtractor<Request>, J: FnOnce(&L, &KE::Key) -> Verdict
    requires
        fut@.expects(event),
        call_ensures(CallFuture::<S, KE, Request, L>::limiter, (&fut,), limiter),
        call_ensures(
            CallFuture::<S, KE, Request, L>::poll_with::<T, F, J>,
            (fut, event, judge),
            r,
        ),
    ensures
        exists|told: Event<Verdict, Result<T, F>>|
            #![trigger fut@.expects(told)]
            fut@.expects(told) && (match event {
                Event::Resume => told is Resume,
                Event::TimerPending => told is TimerPending,
                Event::TimerElapsed(_) => limiter matches Some((limiter, key))
                    && told matches Event::TimerElapsed(v) && judge.ensures((limiter, key), v),
                Event::InnerPending => told is InnerPending,
                Event::InnerReady(out) => told == Event::<Verdict, Result<T, F>>::InnerReady(out),
            }) && forall|
                s: (
                    CallFuture<S, KE, Request, L>,
                    Action<S, Request, Result<T, Either<KE::Error, F>>>,
                ),
            | #[trigger]
                call_ensures(CallFuture::<S, KE, Request, L>::step::<T, F>, (fut, told), s)
                    ==> s.0@ == r.0@ && s.1 == r.1,
{
    let told = choose|told: Event<Verdict, Result<T, F>>| #[trigger]
        fut@.consults_by(judge, event, told) && (r.0@, r.1) == fut@.after(told);
    assert(fut@.expects(told));
}

/// Polling is taking a step with what the limiter says: when a timer has run out, the limiter that
/// the call waits for is asked again under the same key, and a denial is waited out. All else is
/// passed on as it is.
pub proof fn law_poll_is_a_step<S, KE, Request, T, F>(
    fut: CallFuture<S, KE, Request, RateLimiter<KE::Key>>,
    event: Event<(), Result<T, F>>,
    limiter: Option<(&RateLimiter<KE::Key>, &KE::Key)>,
    r: (
        CallFuture<S, KE, Request, RateLimiter<KE::Key>>,
        Action<S, Request, Result<T, Either<KE::Error, F>>>,
    ),
) where KE: KeyExtractor<Request>, KE::Key: Clone + Eq
    requires
        fut@.expects(event),
        call_ensures(
            CallFuture::<S, KE, Request, RateLimiter<KE::Key>>::limiter,
            (&fut,),
            limiter,
        ),
        call_ensures(
            CallFuture::<S, KE, Request, RateLimiter<KE::Key>>::poll::<T, F>,
            (fut, event),
            r,
        ),
    ensures
        exists|told: Event<Verdict, Result<T, F>>|
            #![trigger fut@.expects(told)]
            fut@.expects(told) && (match event {
                Event::Resume => told is Resume,
                Event::TimerPending => told is TimerPending,
                Event::TimerElapsed(_) => limiter matches Some((limiter, key))
                    && told matches Event::TimerElapsed(v) && gives_for(*limiter, *key, v),
                Event::InnerPending => told is InnerPending,
                Event::InnerReady(out) => told == Event::<Verdict, Result<T, F>>::InnerReady(out),
            }) && forall|
                s: (
                    CallFuture<S, KE, Request, RateLimiter<KE::Key>>,
                    Action<S, Request, Result<T, Either<KE::Error, F>>>,
                ),
            | #[trigger]
                call_ensures(
                    CallFuture::<S, KE, Request, RateLimiter<KE::Key>>::step::<T, F>,
                    (fut, told),
                    s,
                ) ==> s.0@ == r.0@ && s.1 == r.1,
{
    let told = choose|told: Event<Verdict, Result<T, F>>| #[trigger]
        fut@.consults(event, told) && (r.0@, r.1) == fut@.after(told);
    assert(fut@.expects(told));
    if let Event::TimerElapsed(v) = told {
        lemma_gives_for((limiter->0).0, *(limiter->0).1, v);
    }
}

/// Marking an outcome as the inner service's keeps it as it is, and only tells whose error it is.
pub proof fn law_marking_keeps_the_outcome<T, E, F>(
    outcome: Result<T, F>,
    r: Result<T, Either<E, F>>,
)
    requires
        call_ensures(inner_outcome::<T, E, F>, (outcome,), r),
    ensures
        outcome matches Ok(response) ==> r == Ok::<T, Either<E, F>>(response),
        outcome matches Err(error) ==> r == Err::<T, Either<E, F>>(Either::Right(error)),
{
}

/// The quotas that are given are the ones that are enforced, each for its key: whoever is turned
/// away is so by the last quota that was given for the key, or by the quota for all keys if none
/// was.
pub proof fn law_quotas_given_are_enforced<K: Hash + Eq + Clone>(
    value: Vec<(K, Quota)>,
    middleware: KeyedDashmapMiddleware<K>,
    quota: Quota,
    store: DefaultKeyedStateStore<K>,
    clock: QuantaClock,
    limiter: RateLimiter<K>,
    key: K,
    e: NotUntil,
)
    requires
        obeys_key_model::<K>(),
        call_ensures(KeyedDashmapMiddleware::<K, Quota>::from, (value,), middleware),
        call_ensures(RateLimiter::<K>::new, (quota, store, clock, middleware), limiter),
        call_ensures(RateLimiter::<K>::check_key, (&limiter, &key), Err(e)),
    ensures
        last_under(value@, key) matches Some(own) ==> e.quota == own,
        last_under(value@, key) is None ==> e.quota == quota,
{
    assert(middleware.holds(value@));
    law_quota_of_a_key(limiter, quota, value@, store, clock);
}

/// The states and the clock that are given are the ones that are used, for every key: what answers
/// for a key with a quota of its own keeps the state that the given store holds under the key, or a
/// default one if it holds none; what answers for any other key keeps the given store. Both read
/// the given clock, and deny in the name of the quota for the key.
pub proof fn law_parts_given_are_used<K: Hash + Eq + Clone>(
    value: Vec<(K, Quota)>,
    middleware: KeyedDashmapMiddleware<K>,
    quota: Quota,
    store: DefaultKeyedStateStore<K>,
    clock: QuantaClock,
    limiter: RateLimiter<K>,
    key: K,
    r: Result<(), NotUntil>,
)
    requires
        obeys_key_model::<K>(),
        call_ensures(KeyedDashmapMiddleware::<K, Quota>::from, (value,), middleware),
        call_ensures(RateLimiter::<K>::new, (quota, store, clock, middleware), limiter),
        call_ensures(RateLimiter::<K>::check_key, (&limiter, &key), r),
    ensures
        last_under(value@, key) matches Some(quota) ==> exists|own: Arc<Own<K>>| #[trigger]
            limiter.own().finds(key, Some(own)) && own.limiter.checked(r) && (forall|
                kept: InMemoryState,
            | #[trigger]
                call_ensures(DirectLimiter::into_state_store, (own.limiter,), kept) ==> held(
                    store,
                    key,
                    Some(kept),
                ) || held(store, key, None) && default_state(kept)) && (forall|reading: u64|
             #[trigger]
                call_ensures(DirectLimiter::reading, (&own.limiter,), reading) ==> clock_reads(
                    clock,
                    reading,
                )) && forall|e: NotUntil| #[trigger]
                call_ensures(DirectLimiter::take, (&own.limiter,), Err(e)) ==> e.quota == quota,
        last_under(value@, key) is None ==> limiter.general().checked(key, r),
        forall|kept: DefaultKeyedStateStore<K>| #[trigger]
            call_ensures(KeyedLimiter::<K>::into_state_store, (limiter.general(),), kept) ==> kept
                == store,
        forall|reading: u64| #[trigger]
            call_ensures(KeyedLimiter::<K>::reading, (&limiter.general(),), reading)
                ==> clock_reads(clock, reading),
        forall|k: K, e: NotUntil| #[trigger]
            call_ensures(KeyedLimiter::<K>::take, (&limiter.general(), &k), Err(e)) ==> e.quota
                == quota,
{
    assert(middleware.holds(value@));
    law_who_answers_for_a_key(limiter, value@, store, clock, key, r);
    if let Some(quota) = last_under(value@, key) {
        let own = choose|own: Arc<Own<K>>| #[trigger]
            limiter.own().finds(key, Some(own)) && own.made_for(key, quota, store, clock)
                && own.limiter.checked(r);
        let (found, state) = choose|found: Option<InMemoryState>, state: InMemoryState|
            #![trigger held(store, key, found), own.limiter.made_of(quota, state, clock)]
            held(store, key, found) && (match found {
                Some(there) => state == there,
                None => default_state(state),
            }) && own.limiter.made_of(quota, state, clock);
        assert(limiter.own().finds(key, Some(own)));
        assert(held(store, key, found));
    }
}

/// Under a key the limiter answers that is found for it: the key's own, or the general one if none
/// is found.
pub proof fn law_found_limiter_answers<K: Hash + Eq + Clone>(
    limiter: RateLimiter<K>,
    key: K,
    r: Result<(), NotUntil>,
)
    requires
        call_ensures(RateLimiter::<K>::check_key, (&limiter, &key), r),
    ensures
        limiter.own().finds(key, None) && limiter.general().checked(key, r) || exists|
            own: Arc<Own<K>>,
        | #[trigger] limiter.own().finds(key, Some(own)) && own.limiter.checked(r),
{
}

/// A limiter that is made for one quota turns every key away by it.
pub proof fn law_quota_given_is_enforced<K: Hash + Eq + Clone>(
    quota: Quota,
    limiter: RateLimiter<K>,
    key: K,
    e: NotUntil,
)
    requires
        call_ensures(RateLimiter::<K>::keyed, (quota,), limiter),
        call_ensures(RateLimiter::<K>::check_key, (&limiter, &key), Err(e)),
    ensures
        e.quota == quota,
{
    law_one_quota_for_all_keys(limiter, quota, key, e);
}

} // verus!

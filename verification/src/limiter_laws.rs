//! What quotas, waits and limiters come to, by their numbers and by their parts.

use crate::limiter::{
    clock_reads, default_clock, default_state, default_store, held, waits_out, DirectLimiter,
    KeyedLimiter, NotUntil, Quota, Verdict,
};
use governor::clock::QuantaClock;
use governor::state::keyed::DefaultKeyedStateStore;
use governor::state::InMemoryState;
use std::hash::Hash;
use vstd::prelude::*;

verus! {

/// A quota that is made has the burst and the interval that were given; an interval of zero counts
/// as one nanosecond. It is made if the burst is not empty and is replenished within 2^63
/// nanoseconds, and only then.
pub proof fn law_quota_is_as_given(max_burst: u32, interval: u64, quota: Option<Quota>)
    requires
        call_ensures(Quota::new, (max_burst, interval), quota),
    ensures
        quota matches Some(q) ==> {
            &&& q.max_burst == max_burst
            &&& interval > 0 ==> q.replenish_1_per == interval
            &&& interval == 0 ==> q.replenish_1_per == 1
        },
        interval > 0 ==> (quota is Some <==> 0 < interval * max_burst <= 0x8000_0000_0000_0000),
        interval == 0 ==> (quota is Some <==> max_burst > 0),
{
    assert(max_burst > 0 && interval > 0 ==> interval * max_burst > 0) by (nonlinear_arith)
        requires
            max_burst >= 0,
            interval >= 0,
    ;
    assert(max_burst == 0 ==> interval * max_burst == 0) by (nonlinear_arith)
        requires
            interval >= 0,
    ;
}

/// A quota is valid if neither part is zero and the burst is replenished within 2^63 nanoseconds,
/// and only then.
pub proof fn law_validity_goes_by_the_numbers(quota: Quota, valid: bool)
    requires
        call_ensures(Quota::is_valid, (&quota,), valid),
    ensures
        valid <==> quota.max_burst > 0 && quota.replenish_1_per > 0 && quota.replenish_1_per
            * quota.max_burst <= 0x8000_0000_0000_0000,
        valid <==> quota.wf(),
{
}

/// After the wait the clock reads the earliest time, or a later one if that had passed. Whoever
/// asks later waits less, and by no more than the time that has gone by.
pub proof fn law_wait_time_is_what_is_left(e: NotUntil, from: u64, wait: u64, later: u64, rest: u64)
    requires
        call_ensures(NotUntil::wait_time_from, (&e, from), wait),
        call_ensures(NotUntil::wait_time_from, (&e, later), rest),
        from <= later,
    ensures
        waits_out(e, from, wait),
        from + wait >= e.earliest,
        wait > 0 ==> from + wait == e.earliest,
        rest <= wait <= rest + (later - from),
{
}

/// The verdict `v` is one that comes of an answer of the limiter: a cell that is granted admits,
/// and a denial is waited out from a reading of the limiter's clock.
pub open spec fn gives(limiter: DirectLimiter, v: Verdict) -> bool {
    match v {
        Verdict::Admit => limiter.checked(Ok(())),
        Verdict::Wait(wait) => exists|e: NotUntil, now: u64|
            #![trigger limiter.checked(Err(e)), limiter.reads(now)]
            limiter.checked(Err(e)) && limiter.reads(now) && now + wait >= e.earliest && (wait > 0
                ==> now + wait == e.earliest),
    }
}

/// As [`gives`], under a key.
pub open spec fn gives_under<K: Hash + Eq + Clone>(
    limiter: KeyedLimiter<K>,
    key: K,
    v: Verdict,
) -> bool {
    match v {
        Verdict::Admit => limiter.checked(key, Ok(())),
        Verdict::Wait(wait) => exists|e: NotUntil, now: u64|
            #![trigger limiter.checked(key, Err(e)), limiter.reads(now)]
            limiter.checked(key, Err(e)) && limiter.reads(now) && now + wait >= e.earliest && (wait
                > 0 ==> now + wait == e.earliest),
    }
}

/// A verdict that a limiter can give comes of an answer of it.
pub(crate) proof fn lemma_gives(limiter: &DirectLimiter, v: Verdict)
    requires
        limiter.judges(v),
    ensures
        gives(*limiter, v),
{
    if let Verdict::Wait(wait) = v {
        let (e, now) = choose|e: NotUntil, now: u64|
            #![trigger limiter.checked(Err(e)), limiter.reads(now)]
            limiter.checked(Err(e)) && limiter.reads(now) && wait == e.wait_from(now);
        assert(limiter.checked(Err(e)) && limiter.reads(now));
    }
}

/// As [`lemma_gives`], under a key.
pub(crate) proof fn lemma_gives_under<K: Hash + Eq + Clone>(
    limiter: &KeyedLimiter<K>,
    key: K,
    v: Verdict,
)
    requires
        limiter.judges(key, v),
    ensures
        gives_under(*limiter, key, v),
{
    if let Verdict::Wait(wait) = v {
        let (e, now) = choose|e: NotUntil, now: u64|
            #![trigger limiter.checked(key, Err(e)), limiter.reads(now)]
            limiter.checked(key, Err(e)) && limiter.reads(now) && wait == e.wait_from(now);
        assert(limiter.checked(key, Err(e)) && limiter.reads(now));
    }
}

/// Judging is asking and waiting out: a verdict comes of an answer of the limiter that is judged
/// by.
pub proof fn law_verdict_comes_of_an_answer<K: Hash + Eq + Clone>(
    direct: DirectLimiter,
    v: Verdict,
    keyed: KeyedLimiter<K>,
    key: K,
    w: Verdict,
)
    requires
        call_ensures(DirectLimiter::judge, (&direct,), v),
        call_ensures(KeyedLimiter::<K>::judge, (&keyed, &key), w),
    ensures
        gives(direct, v),
        gives_under(keyed, key, w),
{
    lemma_gives(&direct, v);
    lemma_gives_under(&keyed, key, w);
}

/// A limiter that is made of its parts denies in the name of the quota that was given, reads the
/// clock that was given, and gives back the state that was given.
pub proof fn law_direct_limiter_has_its_parts(
    quota: Quota,
    state: InMemoryState,
    clock: QuantaClock,
    limiter: DirectLimiter,
    r: Result<(), NotUntil>,
    reading: u64,
    kept: InMemoryState,
)
    requires
        call_ensures(DirectLimiter::new, (quota, state, clock), limiter),
        call_ensures(DirectLimiter::take, (&limiter,), r),
        call_ensures(DirectLimiter::reading, (&limiter,), reading),
        call_ensures(DirectLimiter::into_state_store, (limiter,), kept),
    ensures
        r matches Err(e) ==> e.quota == quota && exists|now: u64| #[trigger]
            clock_reads(clock, now) && now < e.earliest,
        clock_reads(clock, reading),
        kept == state,
{
}

/// A limiter that is made for a quota denies in its name, reads a default clock, and gives back a
/// default state.
pub proof fn law_direct_limiter_for_a_quota(
    quota: Quota,
    limiter: DirectLimiter,
    r: Result<(), NotUntil>,
    reading: u64,
    kept: InMemoryState,
)
    requires
        call_ensures(DirectLimiter::for_quota, (quota,), limiter),
        call_ensures(DirectLimiter::take, (&limiter,), r),
        call_ensures(DirectLimiter::reading, (&limiter,), reading),
        call_ensures(DirectLimiter::into_state_store, (limiter,), kept),
    ensures
        r matches Err(e) ==> e.quota == quota,
        exists|clock: QuantaClock| #[trigger] default_clock(clock) && clock_reads(clock, reading),
        default_state(kept),
{
    let (state, clock) = choose|state: InMemoryState, clock: QuantaClock|
        default_state(state) && default_clock(clock) && #[trigger] limiter.made_of(
            quota,
            state,
            clock,
        );
    assert(default_clock(clock) && clock_reads(clock, reading));
}

/// A limiter that goes on under a key denies in the name of the quota that was given, reads the
/// clock that was given, and keeps the state that the store holds under the key, or a default one
/// if it holds none.
pub proof fn law_direct_limiter_goes_on<K: Hash + Eq + Clone>(
    quota: Quota,
    store: DefaultKeyedStateStore<K>,
    key: K,
    spare: InMemoryState,
    clock: QuantaClock,
    limiter: DirectLimiter,
    r: Result<(), NotUntil>,
    reading: u64,
    kept: InMemoryState,
)
    requires
        call_ensures(
            DirectLimiter::for_key::<K>,
            (quota, &store, &key, spare, clock),
            limiter,
        ),
        call_ensures(DirectLimiter::take, (&limiter,), r),
        call_ensures(DirectLimiter::reading, (&limiter,), reading),
        call_ensures(DirectLimiter::into_state_store, (limiter,), kept),
    ensures
        r matches Err(e) ==> e.quota == quota,
        clock_reads(clock, reading),
        held(store, key, Some(kept)) || held(store, key, None) && default_state(kept),
{
    let (found, state) = choose|found: Option<InMemoryState>, state: InMemoryState|
        #![trigger held(store, key, found), limiter.made_of(quota, state, clock)]
        held(store, key, found) && (match found {
            Some(there) => state == there,
            None => default_state(state),
        }) && limiter.made_of(quota, state, clock);
    assert(kept == state);
    assert(held(store, key, found));
}

/// As [`law_direct_limiter_has_its_parts`], for a limiter with one state per key.
pub proof fn law_keyed_limiter_has_its_parts<K: Hash + Eq + Clone>(
    quota: Quota,
    state: DefaultKeyedStateStore<K>,
    clock: QuantaClock,
    limiter: KeyedLimiter<K>,
    key: K,
    r: Result<(), NotUntil>,
    reading: u64,
    kept: DefaultKeyedStateStore<K>,
)
    requires
        call_ensures(KeyedLimiter::<K>::new, (quota, state, clock), limiter),
        call_ensures(KeyedLimiter::<K>::take, (&limiter, &key), r),
        call_ensures(KeyedLimiter::<K>::reading, (&limiter,), reading),
        call_ensures(KeyedLimiter::<K>::into_state_store, (limiter,), kept),
    ensures
        r matches Err(e) ==> e.quota == quota && exists|now: u64| #[trigger]
            clock_reads(clock, now) && now < e.earliest,
        clock_reads(clock, reading),
        kept == state,
{
}

/// As [`law_direct_limiter_for_a_quota`], for a limiter with one state per key.
pub proof fn law_keyed_limiter_for_a_quota<K: Hash + Eq + Clone>(
    quota: Quota,
    limiter: KeyedLimiter<K>,
    key: K,
    r: Result<(), NotUntil>,
    reading: u64,
    kept: DefaultKeyedStateStore<K>,
)
    requires
        call_ensures(KeyedLimiter::<K>::for_quota, (quota,), limiter),
        call_ensures(KeyedLimiter::<K>::take, (&limiter, &key), r),
        call_ensures(KeyedLimiter::<K>::reading, (&limiter,), reading),
        call_ensures(KeyedLimiter::<K>::into_state_store, (limiter,), kept),
    ensures
        r matches Err(e) ==> e.quota == quota,
        exists|clock: QuantaClock| #[trigger] default_clock(clock) && clock_reads(clock, reading),
        default_store(kept),
{
    let (state, clock) = choose|state: DefaultKeyedStateStore<K>, clock: QuantaClock|
        default_store(state) && default_clock(clock) && #[trigger] limiter.made_of(
            quota,
            state,
            clock,
        );
    assert(default_clock(clock) && clock_reads(clock, reading));
}

} // verus!

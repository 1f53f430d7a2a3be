//! Quotas, the limiters that enforce them, and the verdicts that a limiter gives.
//!
//! The algorithm itself is the `governor` crate's. A limiter of that crate keeps its state behind
//! atomics and reads a clock, so what it answers is not a function of its value: the contracts
//! here speak of the answers that a limiter *can* give (`checked`, `reads`, `judges`), and tie
//! each decision to one of them.

use dashmap::DashMap;
use governor::clock::{Clock, QuantaClock, QuantaInstant, Reference};
use governor::middleware::NoOpMiddleware;
use governor::nanos::Nanos;
use governor::state::keyed::DefaultKeyedStateStore;
use governor::state::{InMemoryState, NotKeyed};
use std::hash::{BuildHasher, Hash};
use std::num::NonZeroU32;
use std::time::Duration;
use vstd::prelude::*;

verus! {

/// A rate-limiting quota: how many cells may go through in one burst, and how many nanoseconds it
/// takes to replenish one of them.
#[derive(Clone, Copy, Debug, PartialEq, Eq, Structural)]
pub struct Quota {
    pub max_burst: u32,
    pub replenish_1_per: u64,
}

impl Quota {
    /// Neither part is zero, and the whole burst is replenished within 2^63 nanoseconds (about 292
    /// years). A limiter adds that time, and the time that a state was in use before, to readings
    /// of its clock in 64 bits; with the bound the sum fits for as long as the clock itself reads
    /// less than 2^62.
    pub open spec fn wf(self) -> bool {
        &&& self.max_burst > 0
        &&& self.replenish_1_per > 0
        &&& self.replenish_1_per * self.max_burst <= 0x8000_0000_0000_0000
    }

    /// The quota of `max_burst` cells, one replenished in `interval` nanoseconds. An interval of
    /// zero counts as one nanosecond, the shortest that a limiter knows.
    pub open spec fn of(max_burst: u32, interval: u64) -> Quota {
        Quota {
            max_burst,
            replenish_1_per: if interval == 0 {
                1
            } else {
                interval
            },
        }
    }

    /// The quota of `max_burst` cells, one replenished in `interval` nanoseconds, if a limiter can
    /// be made for it.
    pub fn new(max_burst: u32, interval: u64) -> (quota: Option<Quota>)
        ensures
            quota == if Quota::of(max_burst, interval).wf() {
                Some(Quota::of(max_burst, interval))
            } else {
                None
            },
    {
        let replenish_1_per: u64 = if interval == 0 {
            1
        } else {
            interval
        };
        let quota = Quota { max_burst, replenish_1_per };
        if quota.is_valid() {
            Some(quota)
        } else {
            None
        }
    }

    /// Whether a limiter can be made for this quota.
    pub fn is_valid(&self) -> (valid: bool)
        ensures
            valid == self.wf(),
    {
        if self.max_burst == 0 || self.replenish_1_per == 0 {
            return false;
        }
        assert(self.replenish_1_per * self.max_burst <= u128::MAX) by (nonlinear_arith)
            requires
                self.replenish_1_per <= u64::MAX,
                self.max_burst <= u32::MAX,
        ;
        let burst: u128 = self.replenish_1_per as u128 * self.max_burst as u128;
        burst <= 0x8000_0000_0000_0000
    }
}

/// A negative answer of a limiter: the earliest reading of its clock at which a cell may be
/// admitted, and the quota that the decision was made under.
#[derive(Clone, Copy, Debug, PartialEq, Eq, Structural)]
pub struct NotUntil {
    pub earliest: u64,
    pub quota: Quota,
}

impl NotUntil {
    /// The nanoseconds from the reading `from` until the earliest time; zero if that has passed.
    pub open spec fn wait_from(self, from: u64) -> u64 {
        if from < self.earliest {
            (self.earliest - from) as u64
        } else {
            0
        }
    }

    /// How long, in nanoseconds, a caller has to wait if the clock reads `from`.
    pub fn wait_time_from(&self, from: u64) -> (wait: u64)
        ensures
            wait == self.wait_from(from),
        opens_invariants none
    {
        if from < self.earliest {
            self.earliest - from
        } else {
            0
        }
    }
}

/// After the wait the clock reads the earliest time, or a later one if that had passed; no shorter
/// wait would do.
pub proof fn law_wait_ends_at_the_earliest(e: NotUntil, from: u64)
    ensures
        from + e.wait_from(from) >= e.earliest,
        e.wait_from(from) > 0 ==> from + e.wait_from(from) == e.earliest,
        e.wait_from(from) == 0 <==> e.earliest <= from,
{
}

/// What is to be done with a request: let it through, or ask again after so many nanoseconds.
#[derive(Clone, Copy, Debug, PartialEq, Eq, Structural)]
pub enum Verdict {
    Admit,
    Wait(u64),
}

/// A wait of `wait` from the reading `now` lasts until the time has come that the denial `e` names,
/// and no longer.
pub open spec fn waits_out(e: NotUntil, now: u64, wait: u64) -> bool {
    now + wait >= e.earliest && (wait > 0 ==> now + wait == e.earliest)
}

/// One cell that was asked for: of which limiter, or under which key, and the answer.
pub enum Asked<K> {
    Direct(DirectLimiter, Result<(), NotUntil>),
    Keyed(K, Result<(), NotUntil>),
}

/// A record of the cells that were asked for. It exists in proofs only.
///
/// Functions say by the invariants that they may open what they do with cells. One that may open
/// none asks for no cell. One that may open the invariant 1, and no other, asks for no cells but
/// those that it records, in the record that it is given. One that may open the invariant 0 as well
/// may begin a record of its own. What says nothing of the kind cannot be called by these.
pub struct Asks<K> {
    made: Ghost<Seq<Asked<K>>>,
}

impl<K> View for Asks<K> {
    type V = Seq<Asked<K>>;

    closed spec fn view(&self) -> Seq<Asked<K>> {
        self.made@
    }
}

impl<K> Asks<K> {
    /// A record of nothing.
    pub fn new() -> (asks: Self)
        ensures
            asks@ == Seq::<Asked<K>>::empty(),
        opens_invariants [ 0int ]
    {
        Asks { made: Ghost(Seq::empty()) }
    }
}

/// A limiter with a single state: `governor`'s `RateLimiter` over an `InMemoryState`, on the
/// default clock. It is kept opaque: the type's parameters are bounded by traits of its crate, and
/// no contract looks inside.
#[verifier::external_body]
#[derive(Debug)]
pub struct DirectLimiter {
    limiter: governor::RateLimiter<
        NotKeyed,
        InMemoryState,
        QuantaClock,
        NoOpMiddleware<QuantaInstant>,
    >,
}

/// `governor::state::InMemoryState`: the state of a limiter with a single state.
#[verifier::external_type_specification]
#[verifier::external_body]
pub struct ExInMemoryState(InMemoryState);

/// `governor::clock::QuantaClock`: the clock that limiters read by default.
#[verifier::external_type_specification]
#[verifier::external_body]
pub struct ExQuantaClock(QuantaClock);

/// `QuantaClock::now`, in nanoseconds. Nothing is claimed of the reading.
#[verifier::external_body]
fn now(clock: &QuantaClock) -> (reading: u64)
    opens_invariants none
{
    let at = clock.now();
    at.duration_since(at.saturating_sub(Nanos::new(u64::MAX))).as_u64()
}

/// The clock can read `reading`.
pub closed spec fn clock_reads(clock: QuantaClock, reading: u64) -> bool {
    call_ensures(now, (&clock,), reading)
}

/// Reads a clock, in nanoseconds.
pub fn read_clock(clock: &QuantaClock) -> (reading: u64)
    ensures
        clock_reads(*clock, reading),
    opens_invariants none
{
    now(clock)
}

/// `InMemoryState::default`. Nothing is claimed of the state.
pub assume_specification[ <InMemoryState as Default>::default ]() -> (state: InMemoryState)
;

/// `QuantaClock::clone`: a clone is as good as the clock itself.
pub assume_specification[ <QuantaClock as Clone>::clone ](clock: &QuantaClock) -> (other:
    QuantaClock)
    ensures
        other == *clock,
;

/// `QuantaClock::default`. Nothing is claimed of the clock.
pub assume_specification[ <QuantaClock as Default>::default ]() -> (clock: QuantaClock)
;

/// `DashMap::default`. Nothing is claimed of the map.
pub assume_specification<K: Eq + Hash, V, S: Default + BuildHasher + Clone>[ <DashMap<
    K,
    V,
    S,
> as Default>::default ]() -> (map: DashMap<K, V, S>)
;

/// The state is one that `InMemoryState::default` gave. Cells may have been taken from it since.
pub open spec fn default_state(state: InMemoryState) -> bool {
    call_ensures(<InMemoryState as Default>::default, (), state)
}

/// The clock is one that `QuantaClock::default` gave.
pub open spec fn default_clock(clock: QuantaClock) -> bool {
    call_ensures(<QuantaClock as Default>::default, (), clock)
}

/// The store is one that `DashMap::default` gave. Cells may have been taken from it since.
pub open spec fn default_store<K: Hash + Eq + Clone>(store: DefaultKeyedStateStore<K>) -> bool {
    call_ensures(<DefaultKeyedStateStore<K> as Default>::default, (), store)
}

/// Only limiters of this crate have counted in the state. A limiter adds what it finds in a state
/// to readings of its clock; one on another clock could have left times there with which the sum
/// is out of range.
pub open spec fn counted_state(state: InMemoryState) -> bool {
    default_state(state) || exists|l: DirectLimiter| #[trigger] l.keeps(state)
}

/// Only limiters of this crate have counted in the store.
pub open spec fn counted_store<K: Hash + Eq + Clone>(store: DefaultKeyedStateStore<K>) -> bool {
    default_store(store) || exists|l: KeyedLimiter<K>| #[trigger] l.keeps(store)
}

/// `DashMap::remove`, on a store of states. A limiter has its store make each state by
/// `InMemoryState::default`. Whether there is one under `key` is left unsaid: it depends on what
/// was asked of the store before.
#[verifier::external_body]
fn remove_state<K: Hash + Eq + Clone>(store: &DefaultKeyedStateStore<K>, key: &K) -> (state: Option<
    InMemoryState,
>)
    requires
        counted_store(*store),
    ensures
        state matches Some(state) ==> default_state(state),
    opens_invariants none
{
    store.remove(key).map(|(_, state)| state)
}

/// The store can hold `state` under `key`.
pub closed spec fn held<K: Hash + Eq + Clone>(
    store: DefaultKeyedStateStore<K>,
    key: K,
    state: Option<InMemoryState>,
) -> bool {
    call_ensures(remove_state::<K>, (&store, &key), state)
}

/// `governor::RateLimiter::new`, for a limiter with a single state and the quota given by its two
/// numbers: each negative answer names that quota, whatever the state went through before. The
/// limiter reads the clock given here, and the state given here is what it keeps.
#[verifier::external_body]
fn direct_from_parts(quota: Quota, state: InMemoryState, clock: QuantaClock) -> (limiter:
    DirectLimiter)
    requires
        quota.wf(),
        counted_state(state),
    ensures
        forall|e: NotUntil|
            #[trigger] call_ensures(DirectLimiter::check, (&limiter,), Err(e)) ==> e.quota == quota,
        forall|c: QuantaClock|
            #[trigger] call_ensures(DirectLimiter::clock, (&limiter,), &c) ==> c == clock,
        forall|s: InMemoryState|
            #[trigger] call_ensures(DirectLimiter::state_store, (limiter,), s) ==> s == state,
    opens_invariants none
{
    let per = governor::Quota::with_period(Duration::from_nanos(quota.replenish_1_per)).unwrap();
    let quota = per.allow_burst(NonZeroU32::new(quota.max_burst).unwrap());
    DirectLimiter { limiter: governor::RateLimiter::new(quota, state, clock) }
}

impl DirectLimiter {
    /// `governor::RateLimiter::check`: takes one cell if there is one. The answer depends on the
    /// clock and on the cells taken before, so of its value only this is claimed: a negative
    /// answer names a time after some reading of the limiter's clock. How many cells are admitted
    /// in what time is left unsaid.
    #[verifier::external_body]
    fn check(&self) -> (r: Result<(), NotUntil>)
        ensures
            r matches Err(e) ==> exists|now: u64| #[trigger] self.reads(now) && now < e.earliest,
        opens_invariants [ 1int ]
    {
        let Err(e) = self.limiter.check() else {
            return Ok(());
        };
        let (at, q) = (e.earliest_possible(), e.quota());
        let earliest = at.duration_since(at.saturating_sub(Nanos::new(u64::MAX))).as_u64();
        let replenish_1_per = q.replenish_interval().as_nanos() as u64;
        let quota = Quota { max_burst: q.burst_size().get(), replenish_1_per };
        Err(NotUntil { earliest, quota })
    }

    /// `governor::RateLimiter::clock`: which clock that is, is said where the limiter is made.
    #[verifier::external_body]
    fn clock(&self) -> (clock: &QuantaClock)
        opens_invariants none
    {
        self.limiter.clock()
    }

    /// `governor::RateLimiter::into_state_store`: which state that is, is said where the limiter is
    /// made.
    #[verifier::external_body]
    fn state_store(self) -> (state: InMemoryState) {
        self.limiter.into_state_store()
    }

    /// The answer `r` is one that a check of this limiter can give.
    pub closed spec fn checked(self, r: Result<(), NotUntil>) -> bool {
        call_ensures(DirectLimiter::check, (&self,), r)
    }

    /// The limiter's clock can be `clock`.
    pub closed spec fn has_clock(self, clock: QuantaClock) -> bool {
        call_ensures(DirectLimiter::clock, (&self,), &clock)
    }

    /// The limiter can give back `state` as what it keeps.
    pub closed spec fn keeps(self, state: InMemoryState) -> bool {
        call_ensures(DirectLimiter::state_store, (self,), state)
    }

    /// The limiter's clock can read `reading`.
    pub open spec fn reads(self, reading: u64) -> bool {
        exists|clock: QuantaClock| #[trigger]
            self.has_clock(clock) && clock_reads(clock, reading)
    }

    /// The limiter turns cells away in the name of `quota` and of no other.
    pub open spec fn denies_by(self, quota: Quota) -> bool {
        forall|e: NotUntil| #[trigger] self.checked(Err(e)) ==> e.quota == quota
    }

    /// The limiter turns cells away by `quota`, keeps `state` and reads `clock`.
    pub open spec fn made_of(self, quota: Quota, state: InMemoryState, clock: QuantaClock) -> bool {
        &&& self.denies_by(quota)
        &&& forall|s: InMemoryState| #[trigger] self.keeps(s) ==> s == state
        &&& forall|c: QuantaClock| #[trigger] self.has_clock(c) ==> c == clock
    }

    /// The limiter is for `quota`, over a state and on a clock that `default` gave, as one of
    /// `governor::RateLimiter::direct` is. How much of the quota is used by now is left open.
    pub open spec fn made_of_defaults(self, quota: Quota) -> bool {
        exists|state: InMemoryState, clock: QuantaClock|
            default_state(state) && default_clock(clock) && #[trigger] self.made_of(
                quota,
                state,
                clock,
            )
    }

    /// The limiter is for `quota`, over the state that `store` holds under `key`, or over a default
    /// one if it holds none, and reads `clock`.
    pub open spec fn goes_on<K: Hash + Eq + Clone>(
        self,
        quota: Quota,
        store: DefaultKeyedStateStore<K>,
        key: K,
        clock: QuantaClock,
    ) -> bool {
        exists|found: Option<InMemoryState>, state: InMemoryState|
            #![trigger held(store, key, found), self.made_of(quota, state, clock)]
            held(store, key, found) && (match found {
                Some(there) => state == there,
                None => default_state(state),
            }) && self.made_of(quota, state, clock)
    }

    /// The verdict `v` is one that this limiter can give: a cell is admitted on a positive answer;
    /// after a negative one the clock is read, and the wait runs from that reading.
    pub open spec fn judges(self, v: Verdict) -> bool {
        match v {
            Verdict::Admit => self.checked(Ok(())),
            Verdict::Wait(wait) => exists|e: NotUntil, now: u64|
                #![trigger self.checked(Err(e)), self.reads(now)]
                self.checked(Err(e)) && self.reads(now) && wait == e.wait_from(now),
        }
    }

    /// A limiter for `quota`, over a default state and on a default clock.
    pub fn for_quota(quota: Quota) -> (limiter: DirectLimiter)
        requires
            quota.wf(),
        ensures
            limiter.made_of_defaults(quota),
    {
        let state = InMemoryState::default();
        let clock = QuantaClock::default();
        DirectLimiter::new(quota, state, clock)
    }

    /// A limiter for `quota` over the given state and clock.
    pub fn new(quota: Quota, state: InMemoryState, clock: QuantaClock) -> (limiter: DirectLimiter)
        requires
            quota.wf(),
            counted_state(state),
        ensures
            limiter.made_of(quota, state, clock),
        opens_invariants none
    {
        direct_from_parts(quota, state, clock)
    }

    /// A limiter for `quota` that goes on where a store stands under `key`: it takes the state over
    /// that the store holds there, or begins with `spare` if there is none. No cell is asked for.
    pub fn for_key<K: Hash + Eq + Clone>(
        quota: Quota,
        store: &DefaultKeyedStateStore<K>,
        key: &K,
        spare: InMemoryState,
        clock: QuantaClock,
    ) -> (limiter: DirectLimiter)
        requires
            quota.wf(),
            counted_store(*store),
            default_state(spare),
        ensures
            limiter.goes_on(quota, *store, *key, clock),
        opens_invariants none
    {
        let found = remove_state(store, key);
        assert(held(*store, *key, found));
        let state = match found {
            Some(state) => state,
            None => spare,
        };
        DirectLimiter::new(quota, state, clock)
    }

    /// Asks the limiter for one cell, and records that.
    pub fn ask<K>(&self, asks: &mut Asks<K>) -> (r: Result<(), NotUntil>)
        ensures
            self.checked(r),
            final(asks)@ == old(asks)@.push(Asked::Direct(*self, r)),
        opens_invariants [ 1int ]
    {
        let r = self.check();
        asks.made = Ghost(asks.made@.push(Asked::Direct(*self, r)));
        r
    }

    /// Asks the limiter for one cell.
    pub fn take(&self) -> (r: Result<(), NotUntil>)
        ensures
            self.checked(r),
            r matches Err(e) ==> exists|now: u64| #[trigger] self.reads(now) && now < e.earliest,
    {
        self.check()
    }

    /// Reads the limiter's clock.
    pub fn reading(&self) -> (reading: u64)
        ensures
            self.reads(reading),
        opens_invariants none
    {
        let clock = self.clock();
        assert(self.has_clock(*clock));
        read_clock(clock)
    }

    /// Ends the limiter and gives back what it kept.
    pub fn into_state_store(self) -> (state: InMemoryState)
        ensures
            self.keeps(state),
    {
        self.state_store()
    }
}

/// A limiter with one state per key: `governor`'s `RateLimiter` over its default keyed store, on
/// the default clock. It is opaque for the same reason as [`DirectLimiter`].
#[verifier::external_body]
#[verifier::reject_recursive_types(K)]
#[derive(Debug)]
pub struct KeyedLimiter<K: Hash + Eq + Clone> {
    limiter: governor::RateLimiter<
        K,
        DefaultKeyedStateStore<K>,
        QuantaClock,
        NoOpMiddleware<QuantaInstant>,
    >,
}

/// `governor::RateLimiter::new`, for a limiter with one state per key and the quota given by its
/// two numbers: each negative answer, under whatever key, names that quota, whatever the states
/// went through before. The limiter reads the clock given here, and the store given here is what
/// it keeps.
#[verifier::external_body]
fn keyed_from_parts<K: Hash + Eq + Clone>(
    quota: Quota,
    state: DefaultKeyedStateStore<K>,
    clock: QuantaClock,
) -> (limiter: KeyedLimiter<K>)
    requires
        quota.wf(),
        counted_store(state),
    ensures
        forall|key: K, e: NotUntil|
            #[trigger] call_ensures(KeyedLimiter::<K>::check_key, (&limiter, &key), Err(e))
                ==> e.quota == quota,
        forall|c: QuantaClock|
            #[trigger] call_ensures(KeyedLimiter::<K>::clock, (&limiter,), &c) ==> c == clock,
        forall|s: DefaultKeyedStateStore<K>|
            #[trigger] call_ensures(KeyedLimiter::<K>::state_store, (limiter,), s) ==> s == state,
    opens_invariants none
{
    let per = governor::Quota::with_period(Duration::from_nanos(quota.replenish_1_per)).unwrap();
    let quota = per.allow_burst(NonZeroU32::new(quota.max_burst).unwrap());
    KeyedLimiter { limiter: governor::RateLimiter::new(quota, state, clock) }
}

impl<K: Hash + Eq + Clone> KeyedLimiter<K> {
    /// `governor::RateLimiter::check_key`: takes one cell under `key` if there is one. As with
    /// `DirectLimiter::check`, of the answer only this is claimed: a negative one names a time
    /// after some reading of the limiter's clock. How many cells are admitted in what time, and
    /// that keys do not share cells, is left unsaid.
    #[verifier::external_body]
    fn check_key(&self, key: &K) -> (r: Result<(), NotUntil>)
        ensures
            r matches Err(e) ==> exists|now: u64| #[trigger] self.reads(now) && now < e.earliest,
        opens_invariants [ 1int ]
    {
        let Err(e) = self.limiter.check_key(key) else {
            return Ok(());
        };
        let (at, q) = (e.earliest_possible(), e.quota());
        let earliest = at.duration_since(at.saturating_sub(Nanos::new(u64::MAX))).as_u64();
        let replenish_1_per = q.replenish_interval().as_nanos() as u64;
        let quota = Quota { max_burst: q.burst_size().get(), replenish_1_per };
        Err(NotUntil { earliest, quota })
    }

    /// `governor::RateLimiter::clock`: which clock that is, is said where the limiter is made.
    #[verifier::external_body]
    fn clock(&self) -> (clock: &QuantaClock)
        opens_invariants none
    {
        self.limiter.clock()
    }

    /// `governor::RateLimiter::into_state_store`: which store that is, is said where the limiter is
    /// made.
    #[verifier::external_body]
    fn state_store(self) -> (state: DefaultKeyedStateStore<K>) {
        self.limiter.into_state_store()
    }

    /// The answer `r` is one that a check of this limiter under `key` can give.
    pub closed spec fn checked(self, key: K, r: Result<(), NotUntil>) -> bool {
        call_ensures(KeyedLimiter::<K>::check_key, (&self, &key), r)
    }

    /// The limiter's clock can be `clock`.
    pub closed spec fn has_clock(self, clock: QuantaClock) -> bool {
        call_ensures(KeyedLimiter::<K>::clock, (&self,), &clock)
    }

    /// The limiter can give back `state` as what it keeps.
    pub closed spec fn keeps(self, state: DefaultKeyedStateStore<K>) -> bool {
        call_ensures(KeyedLimiter::<K>::state_store, (self,), state)
    }

    /// The limiter's clock can read `reading`.
    pub open spec fn reads(self, reading: u64) -> bool {
        exists|clock: QuantaClock| #[trigger]
            self.has_clock(clock) && clock_reads(clock, reading)
    }

    /// The limiter turns cells away, under every key, in the name of `quota` and of no other.
    pub open spec fn denies_by(self, quota: Quota) -> bool {
        forall|key: K, e: NotUntil| #[trigger] self.checked(key, Err(e)) ==> e.quota == quota
    }

    /// The limiter turns cells away by `quota` under every key, keeps `state` and reads `clock`.
    pub open spec fn made_of(
        self,
        quota: Quota,
        state: DefaultKeyedStateStore<K>,
        clock: QuantaClock,
    ) -> bool {
        &&& self.denies_by(quota)
        &&& forall|s: DefaultKeyedStateStore<K>| #[trigger] self.keeps(s) ==> s == state
        &&& forall|c: QuantaClock| #[trigger] self.has_clock(c) ==> c == clock
    }

    /// The limiter is for `quota`, over a store and on a clock that `default` gave, as one of
    /// `governor::RateLimiter::keyed` is. How much of the quota is used by now is left open.
    pub open spec fn made_of_defaults(self, quota: Quota) -> bool {
        exists|state: DefaultKeyedStateStore<K>, clock: QuantaClock|
            default_store(state) && default_clock(clock) && #[trigger] self.made_of(
                quota,
                state,
                clock,
            )
    }

    /// The verdict `v` is one that this limiter can give on `key`: a cell is admitted on a positive
    /// answer; after a negative one the clock is read, and the wait runs from that reading.
    pub open spec fn judges(self, key: K, v: Verdict) -> bool {
        match v {
            Verdict::Admit => self.checked(key, Ok(())),
            Verdict::Wait(wait) => exists|e: NotUntil, now: u64|
                #![trigger self.checked(key, Err(e)), self.reads(now)]
                self.checked(key, Err(e)) && self.reads(now) && wait == e.wait_from(now),
        }
    }

    /// A limiter for `quota`, over a default store and on a default clock.
    pub fn for_quota(quota: Quota) -> (limiter: KeyedLimiter<K>)
        requires
            quota.wf(),
        ensures
            limiter.made_of_defaults(quota),
    {
        let state = DefaultKeyedStateStore::<K>::default();
        let clock = QuantaClock::default();
        KeyedLimiter::new(quota, state, clock)
    }

    /// A limiter for `quota` over the given states and clock.
    pub fn new(quota: Quota, state: DefaultKeyedStateStore<K>, clock: QuantaClock) -> (limiter:
        KeyedLimiter<K>)
        requires
            quota.wf(),
            counted_store(state),
        ensures
            limiter.made_of(quota, state, clock),
        opens_invariants none
    {
        keyed_from_parts(quota, state, clock)
    }

    /// Asks the limiter for one cell under `key`, and records that.
    pub fn ask(&self, key: &K, asks: &mut Asks<K>) -> (r: Result<(), NotUntil>)
        ensures
            self.checked(*key, r),
            final(asks)@ == old(asks)@.push(Asked::Keyed(*key, r)),
        opens_invariants [ 1int ]
    {
        let r = self.check_key(key);
        asks.made = Ghost(asks.made@.push(Asked::Keyed(*key, r)));
        r
    }

    /// Asks the limiter for one cell under `key`.
    pub fn take(&self, key: &K) -> (r: Result<(), NotUntil>)
        ensures
            self.checked(*key, r),
            r matches Err(e) ==> exists|now: u64| #[trigger] self.reads(now) && now < e.earliest,
    {
        self.check_key(key)
    }

    /// Reads the limiter's clock.
    pub fn reading(&self) -> (reading: u64)
        ensures
            self.reads(reading),
        opens_invariants none
    {
        let clock = self.clock();
        assert(self.has_clock(*clock));
        read_clock(clock)
    }

    /// Ends the limiter and gives back what it kept.
    pub fn into_state_store(self) -> (state: DefaultKeyedStateStore<K>)
        ensures
            self.keeps(state),
    {
        self.state_store()
    }
}

/// `dashmap::DashMap`: a map that several threads can share.
#[verifier::external_type_specification]
#[verifier::external_body]
#[verifier::reject_recursive_types(K)]
#[verifier::reject_recursive_types(V)]
#[verifier::reject_recursive_types(S)]
pub struct ExDashMap<K, V, S>(DashMap<K, V, S>);

} // verus!

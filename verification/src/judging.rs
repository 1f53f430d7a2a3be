//! From a limiter's answer to a verdict.
//!
//! A verdict takes one cell, if there is one: each function here asks for exactly one cell, and
//! records it.

use crate::limiter::{waits_out, Asked, Asks, DirectLimiter, KeyedLimiter, NotUntil, Verdict};
use std::hash::Hash;
use vstd::prelude::*;

verus! {

/// The verdict `v` is what comes of the one cell that was asked of `limiter` between `before` and
/// `after`.
pub open spec fn judged_direct<K>(
    limiter: DirectLimiter,
    v: Verdict,
    before: Seq<Asked<K>>,
    after: Seq<Asked<K>>,
) -> bool {
    exists|r: Result<(), NotUntil>| #[trigger]
        limiter.checked(r) && after == before.push(Asked::Direct(limiter, r)) && match r {
            Ok(_) => v is Admit,
            Err(e) => v matches Verdict::Wait(wait) && exists|now: u64| #[trigger]
                limiter.reads(now) && waits_out(e, now, wait),
        }
}

/// The verdict `v` is what comes of the one cell that was asked of `limiter` under `key` between
/// `before` and `after`.
pub open spec fn judged_keyed<K: Hash + Eq + Clone>(
    limiter: KeyedLimiter<K>,
    key: K,
    v: Verdict,
    before: Seq<Asked<K>>,
    after: Seq<Asked<K>>,
) -> bool {
    exists|r: Result<(), NotUntil>| #[trigger]
        limiter.checked(key, r) && after == before.push(Asked::Keyed(key, r)) && match r {
            Ok(_) => v is Admit,
            Err(e) => v matches Verdict::Wait(wait) && exists|now: u64| #[trigger]
                limiter.reads(now) && waits_out(e, now, wait),
        }
}

/// Asks the limiter for one cell and, if there is none, for the time to wait.
pub fn judge_direct<K>(limiter: &DirectLimiter, asks: &mut Asks<K>) -> (v: Verdict)
    ensures
        limiter.judges(v),
        judged_direct(*limiter, v, old(asks)@, final(asks)@),
    opens_invariants [ 1int ]
{
    let r = limiter.ask(asks);
    assert(limiter.checked(r));
    match r {
        Ok(granted) => {
            assert(granted == ());
            Verdict::Admit
        },
        Err(e) => {
            let now: u64 = limiter.reading();
            let wait: u64 = e.wait_time_from(now);
            assert(limiter.reads(now) && waits_out(e, now, wait));
            Verdict::Wait(wait)
        },
    }
}

/// Asks the limiter for one cell under `key` and, if there is none, for the time to wait.
pub fn judge_keyed<K: Hash + Eq + Clone>(
    limiter: &KeyedLimiter<K>,
    key: &K,
    asks: &mut Asks<K>,
) -> (v: Verdict)
    ensures
        limiter.judges(*key, v),
        judged_keyed(*limiter, *key, v, old(asks)@, final(asks)@),
    opens_invariants [ 1int ]
{
    let r = limiter.ask(key, asks);
    assert(limiter.checked(*key, r));
    match r {
        Ok(granted) => {
            assert(granted == ());
            Verdict::Admit
        },
        Err(e) => {
            let now: u64 = limiter.reading();
            let wait: u64 = e.wait_time_from(now);
            assert(limiter.reads(now) && waits_out(e, now, wait));
            Verdict::Wait(wait)
        },
    }
}

impl DirectLimiter {
    /// Asks the limiter for one cell and, if there is none, for the time to wait.
    pub fn judge(&self) -> (v: Verdict)
        ensures
            self.judges(v),
        opens_invariants [ 0int, 1int ]
    {
        let mut asks = Asks::<()>::new();
        judge_direct(self, &mut asks)
    }
}

impl<K: Hash + Eq + Clone> KeyedLimiter<K> {
    /// Asks the limiter for one cell under `key` and, if there is none, for the time to wait.
    pub fn judge(&self, key: &K) -> (v: Verdict)
        ensures
            self.judges(*key, v),
        opens_invariants [ 0int, 1int ]
    {
        let mut asks = Asks::new();
        judge_keyed(self, key, &mut asks)
    }
}

} // verus!

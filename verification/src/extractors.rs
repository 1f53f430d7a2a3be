//! Per-key quotas.
//!
//! A keyed limiter has one quota for all of its keys. [`KeyedDashmapMiddleware`] holds the keys
//! that have a quota of their own.

use crate::limiter::Quota;
use dashmap::DashMap;
use std::hash::Hash;
use std::sync::Arc;
use vstd::prelude::*;
use vstd::std_specs::hash::obeys_key_model;

verus! {

/// Where the last of `entries` under `key` stands, if there is one.
pub open spec fn last_at<K, V>(entries: Seq<(K, V)>, key: K) -> Option<int>
    decreases entries.len(),
{
    if entries.len() == 0 {
        None
    } else if entries.last().0 == key {
        Some(entries.len() - 1)
    } else {
        last_at(entries.drop_last(), key)
    }
}

/// The value that the last of `entries` under `key` has, if there is one.
pub open spec fn last_under<K, V>(entries: Seq<(K, V)>, key: K) -> Option<V> {
    match last_at(entries, key) {
        Some(i) => Some(entries[i].1),
        None => None,
    }
}

/// The last entry under `key` is an entry under `key`, and none under `key` follows it.
pub(crate) proof fn lemma_last_at<K, V>(entries: Seq<(K, V)>, key: K)
    ensures
        match last_at(entries, key) {
            Some(i) => 0 <= i < entries.len() && entries[i].0 == key && forall|j: int|
                i < j < entries.len() ==> (#[trigger] entries[j]).0 != key,
            None => forall|j: int| 0 <= j < entries.len() ==> (#[trigger] entries[j]).0 != key,
        },
    decreases entries.len(),
{
    if entries.len() > 0 && entries.last().0 != key {
        let rest = entries.drop_last();
        lemma_last_at(rest, key);
        assert forall|j: int| 0 <= j < rest.len() implies rest[j] == #[trigger] entries[j] by {}
    }
}

/// Entries under the same keys in the same order have their last one under `key` at the same place.
pub(crate) proof fn lemma_last_at_goes_by_keys<K, V, W>(
    one: Seq<(K, V)>,
    other: Seq<(K, W)>,
    key: K,
)
    requires
        one.len() == other.len(),
        forall|i: int| 0 <= i < one.len() ==> (#[trigger] one[i]).0 == other[i].0,
    ensures
        last_at(one, key) == last_at(other, key),
    decreases one.len(),
{
    if one.len() > 0 && one.last().0 != key {
        lemma_last_at_goes_by_keys(one.drop_last(), other.drop_last(), key);
    }
}

/// A later entry replaces the earlier ones under its key, and touches no other key.
pub proof fn law_later_entry_replaces<K, V>(entries: Seq<(K, V)>, key: K, value: V, other: K)
    ensures
        last_under(entries.push((key, value)), key) == Some(value),
        other != key ==> last_under(entries.push((key, value)), other) == last_under(
            entries,
            other,
        ),
{
    assert(entries.push((key, value)).drop_last() =~= entries);
    lemma_last_at(entries, other);
}

/// Where there are no entries there is none under any key.
pub proof fn law_nothing_under_no_entries<K, V>(entries: Seq<(K, V)>, key: K)
    requires
        entries.len() == 0,
    ensures
        last_under(entries, key) is None,
{
}

/// One of `entries` has the value `value`.
pub open spec fn among<K, V>(value: V, entries: Seq<(K, V)>) -> bool {
    exists|j: int| 0 <= j < entries.len() && (#[trigger] entries[j]).1 == value
}

/// There is nothing on either side, or a handle to `value`.
pub open spec fn handle_to<V>(handle: Option<Arc<V>>, value: Option<V>) -> bool {
    match value {
        Some(value) => handle matches Some(handle) && *handle == value,
        None => handle is None,
    }
}

/// `DashMap::from_iter`: what is found in the map, and what it hands out again, are values of the
/// entries. Of several entries under one key the last one stays; this is claimed of keys whose `==`
/// is equality and whose hash agrees with it.
#[verifier::external_body]
fn collect<K: Eq + Hash, V>(entries: Vec<(K, Arc<V>)>) -> (map: DashMap<K, Arc<V>>)
    ensures
        forall|key: K, value: Arc<V>| #[trigger]
            call_ensures(lookup::<K, V>, (&map, &key), Some(value)) ==> among(value, entries@),
        forall|out: Vec<(K, Arc<V>)>, i: int|
            #![trigger call_ensures(hand_out::<K, V>, (map,), out), out[i]]
            call_ensures(hand_out::<K, V>, (map,), out) && 0 <= i < out.len() ==> among(
                out[i].1,
                entries@,
            ),
        obeys_key_model::<K>() ==> forall|key: K, found: Option<Arc<V>>| #[trigger]
            call_ensures(lookup::<K, V>, (&map, &key), found) ==> found == last_under(
                entries@,
                key,
            ),
        obeys_key_model::<K>() ==> forall|out: Vec<(K, Arc<V>)>, key: K|
            #![trigger call_ensures(hand_out::<K, V>, (map,), out), last_at(out@, key)]
            call_ensures(hand_out::<K, V>, (map,), out) ==> last_under(out@, key) == last_under(
                entries@,
                key,
            ),
{
    DashMap::from_iter(entries)
}

/// `DashMap::get`, handing out what is found under `key` as another handle to it. What that is, is
/// said where the map is made; nothing in this crate changes a map afterwards.
#[verifier::external_body]
fn lookup<K: Eq + Hash, V>(map: &DashMap<K, Arc<V>>, key: &K) -> (found: Option<Arc<V>>)
    opens_invariants none
{
    map.get(key).map(|found| found.value().clone())
}

/// `DashMap::into_iter`: what the map holds, in some order. What that is, is said where the map is
/// made.
#[verifier::external_body]
fn hand_out<K: Eq + Hash, V>(map: DashMap<K, Arc<V>>) -> (out: Vec<(K, Arc<V>)>) {
    map.into_iter().collect()
}

/// The keys that have something of their own: a quota, or what enforces it.
#[verifier::reject_recursive_types(K)]
#[verifier::reject_recursive_types(V)]
#[derive(Debug)]
pub struct KeyedDashmapMiddleware<K: Eq + Hash, V = Quota> {
    keys: DashMap<K, Arc<V>>,
}

impl<K: Eq + Hash, V> KeyedDashmapMiddleware<K, V> {
    /// Looking for `key` can come back with `found`.
    pub closed spec fn finds(self, key: K, found: Option<Arc<V>>) -> bool {
        call_ensures(lookup::<K, V>, (&self.keys, &key), found)
    }

    /// What is held can come out as `out`.
    pub closed spec fn comes_out(self, out: Vec<(K, Arc<V>)>) -> bool {
        call_ensures(hand_out::<K, V>, (self.keys,), out)
    }

    /// The keys of `entries`, and no others, have something of their own, which is what the last
    /// entry under the key says.
    pub open spec fn holds(self, entries: Seq<(K, V)>) -> bool {
        &&& forall|key: K, found: Option<Arc<V>>| #[trigger]
            self.finds(key, found) ==> handle_to(found, last_under(entries, key))
        &&& forall|out: Vec<(K, Arc<V>)>, key: K|
            #![trigger self.comes_out(out), last_at(out@, key)]
            self.comes_out(out) ==> handle_to(last_under(out@, key), last_under(entries, key))
    }

    /// Whatever is found, and whatever comes out, is what one of `entries` says.
    pub open spec fn drawn_from(self, entries: Seq<(K, V)>) -> bool {
        &&& forall|key: K, value: Arc<V>| #[trigger]
            self.finds(key, Some(value)) ==> among(*value, entries)
        &&& forall|out: Vec<(K, Arc<V>)>, i: int|
            #![trigger self.comes_out(out), out[i]]
            self.comes_out(out) && 0 <= i < out.len() ==> among(*out[i].1, entries)
    }

    /// Looking for a key comes back with the same each time.
    pub open spec fn steady(self) -> bool {
        forall|key: K, one: Option<Arc<V>>, other: Option<Arc<V>>|
            #![trigger self.finds(key, one), self.finds(key, other)]
            self.finds(key, one) && self.finds(key, other) ==> one == other
    }

    /// Gives each key what is its own.
    pub fn from(value: Vec<(K, V)>) -> (middleware: Self)
        ensures
            middleware.drawn_from(value@),
            value.len() == 0 ==> middleware.holds(value@),
            obeys_key_model::<K>() ==> middleware.holds(value@) && middleware.steady(),
    {
        let ghost given = value@;
        let mut entries: Vec<(K, Arc<V>)> = Vec::new();
        for entry in it: value
            invariant
                it.seq() == given,
                entries.len() == it.index(),
                forall|i: int|
                    0 <= i < entries.len() ==> (#[trigger] entries[i]).0 == given[i].0
                        && *entries[i].1 == given[i].1,
        {
            entries.push((entry.0, Arc::new(entry.1)));
        }
        let ghost made = entries@;
        let middleware = KeyedDashmapMiddleware { keys: collect(entries) };
        proof {
            assert forall|value: Arc<V>| #[trigger] among(value, made) implies among(
                *value,
                given,
            ) by {
                let j = choose|j: int| 0 <= j < made.len() && (#[trigger] made[j]).1 == value;
                assert(given[j].1 == *value);
            }
            assert forall|key: K|
                handle_to(last_under(made, key), #[trigger] last_under(given, key)) by {
                lemma_last_at(made, key);
                lemma_last_at_goes_by_keys(made, given, key);
            }
            assert forall|key: K, found: Option<Arc<V>>| #[trigger]
                middleware.finds(key, found) && given.len() == 0 implies found is None by {
                if let Some(value) = found {
                    assert(middleware.finds(key, Some(value)));
                }
            }
            assert forall|out: Vec<(K, Arc<V>)>, key: K|
                #![trigger middleware.comes_out(out), last_at(out@, key)]
                middleware.comes_out(out) && given.len() == 0 implies last_at(
                out@,
                key,
            ) is None by {
                if out.len() > 0 {
                    assert(out[0] == out[0]);
                }
            }
        }
        middleware
    }

    /// What is held, in some order.
    pub(crate) fn into_entries(self) -> (out: Vec<(K, Arc<V>)>)
        ensures
            self.comes_out(out),
    {
        hand_out(self.keys)
    }

    /// What `key` has of its own, if it has anything.
    pub fn find(&self, key: &K) -> (found: Option<Arc<V>>)
        ensures
            self.finds(*key, found),
        opens_invariants none
    {
        lookup(&self.keys, key)
    }

    /// Runs `f` on what `key` has of its own, if it has anything. It is run once at most.
    pub fn check_quota<R, F: FnOnce(&V) -> R>(&self, key: &K, f: F) -> (r: Option<R>)
        requires
            forall|own: Arc<V>| #[trigger] self.finds(*key, Some(own)) ==> f.requires((&*own,)),
        ensures
            r is None ==> self.finds(*key, None),
            r matches Some(answer) ==> exists|own: Arc<V>| #[trigger]
                self.finds(*key, Some(own)) && f.ensures((&*own,), answer),
    {
        match self.find(key) {
            Some(own) => {
                assert(self.finds(*key, Some(own)));
                Some(f(&*own))
            },
            None => None,
        }
    }
}

impl<K: Eq + Hash> KeyedDashmapMiddleware<K, Quota> {
    /// Limiters can be made for all the quotas that come out.
    pub open spec fn wf(self) -> bool {
        forall|out: Vec<(K, Arc<Quota>)>, i: int|
            #![trigger self.comes_out(out), out[i]]
            self.comes_out(out) && 0 <= i < out.len() ==> out[i].1.wf()
    }
}

/// What single keys have of their own stays as it was given: of two checks under one key either
/// neither finds anything, or both are run on the same.
pub proof fn law_own_quotas_stay<K, V, R, Q, F, G>(
    m: KeyedDashmapMiddleware<K, V>,
    key: K,
    f: F,
    g: G,
    first: Option<R>,
    second: Option<Q>,
) where K: Eq + Hash, F: FnOnce(&V) -> R, G: FnOnce(&V) -> Q
    requires
        m.steady(),
        call_ensures(KeyedDashmapMiddleware::<K, V>::check_quota::<R, F>, (&m, &key, f), first),
        call_ensures(KeyedDashmapMiddleware::<K, V>::check_quota::<Q, G>, (&m, &key, g), second),
    ensures
        first is None <==> second is None,
        first matches Some(a) ==> second matches Some(b) && exists|own: Arc<V>| #[trigger]
            m.finds(key, Some(own)) && f.ensures((&*own,), a) && g.ensures((&*own,), b),
{
}

/// A check answers what the callback answers on the quota that was given for the key, and answers
/// nothing for a key that was given none.
pub proof fn law_check_runs_on_the_quota_given<K, V, R, F>(
    m: KeyedDashmapMiddleware<K, V>,
    entries: Seq<(K, V)>,
    key: K,
    f: F,
    r: Option<R>,
) where K: Eq + Hash, F: FnOnce(&V) -> R
    requires
        m.holds(entries),
        call_ensures(KeyedDashmapMiddleware::<K, V>::check_quota::<R, F>, (&m, &key, f), r),
    ensures
        match last_under(entries, key) {
            Some(value) => r matches Some(answer) && f.ensures((&value,), answer),
            None => r is None,
        },
{
}

/// A check of what was given answers what the callback answers on the last value that was given for
/// the key, and nothing if none was.
pub proof fn law_check_finds_what_was_given<K, V, R, F>(
    value: Vec<(K, V)>,
    m: KeyedDashmapMiddleware<K, V>,
    key: K,
    f: F,
    r: Option<R>,
) where K: Eq + Hash, F: FnOnce(&V) -> R
    requires
        obeys_key_model::<K>() || value@.len() == 0,
        call_ensures(KeyedDashmapMiddleware::<K, V>::from, (value,), m),
        call_ensures(KeyedDashmapMiddleware::<K, V>::check_quota::<R, F>, (&m, &key, f), r),
    ensures
        last_under(value@, key) matches Some(own) ==> (r matches Some(answer) && f.ensures(
            (&own,),
            answer,
        )),
        last_under(value@, key) is None ==> r is None,
{
    law_check_runs_on_the_quota_given(m, value@, key, f, r);
}

} // verus!

//! The ways of building a rate-limited service agree.
//!
//! Whatever is built of equal parts serves the same service, with a limiter that turns cells away
//! by the same quota, keeps the same state and reads the same clock; a keyed one extracts its keys
//! alike, and gives single keys the same quotas. Which calls such limiters admit is not said here:
//! that rests on time, and on what was taken from the state before.

use crate::direct;
use crate::extractors::KeyedDashmapMiddleware;
use crate::keyed;
use crate::keyed::{KeyExtractor, RateLimiter};
use crate::limiter::{default_clock, default_state, default_store, DirectLimiter, Quota};
use governor::clock::QuantaClock;
use governor::state::keyed::DefaultKeyedStateStore;
use governor::state::InMemoryState;
use std::sync::Arc;
use vstd::prelude::*;

verus! {

/// `Governor::new` agrees with `Governor::new_with_limiter` over a limiter of the same parts.
pub proof fn law_direct_new_is_new_with_limiter<S, Request>(
    inner: S,
    quota: Quota,
    state: InMemoryState,
    clock: QuantaClock,
    g: direct::Governor<S, Request, DirectLimiter>,
    limiter: Arc<DirectLimiter>,
    h: direct::Governor<S, Request, DirectLimiter>,
)
    requires
        call_ensures(
            direct::Governor::<S, Request, DirectLimiter>::new,
            (inner, quota, state, clock),
            g,
        ),
        call_ensures(DirectLimiter::new, (quota, state, clock), *limiter),
        call_ensures(
            direct::Governor::<S, Request, DirectLimiter>::new_with_limiter,
            (inner, limiter),
            h,
        ),
    ensures
        g.service() == inner,
        h.service() == inner,
        g.shared().made_of(quota, state, clock),
        h.shared().made_of(quota, state, clock),
{
}

/// A service put behind `Layer::new` agrees with `Governor::new` over the same parts.
pub proof fn law_direct_layer_is_new<S, Request>(
    inner: S,
    quota: Quota,
    state: InMemoryState,
    clock: QuantaClock,
    layer: direct::Layer<Request, DirectLimiter>,
    g: direct::Governor<S, Request, DirectLimiter>,
    h: direct::Governor<S, Request, DirectLimiter>,
)
    requires
        call_ensures(
            direct::Layer::<Request, DirectLimiter>::new,
            (quota, state, clock),
            layer,
        ),
        call_ensures(direct::Layer::<Request, DirectLimiter>::layer::<S>, (&layer, inner), g),
        call_ensures(
            direct::Governor::<S, Request, DirectLimiter>::new,
            (inner, quota, state, clock),
            h,
        ),
    ensures
        g.service() == inner,
        h.service() == inner,
        g.shared().made_of(quota, state, clock),
        h.shared().made_of(quota, state, clock),
{
}

/// `Governor::default` agrees with `Governor::new` over a default state and a default clock.
pub proof fn law_direct_default_is_new<S, Request>(
    inner: S,
    quota: Quota,
    state: InMemoryState,
    clock: QuantaClock,
    d: direct::Governor<S, Request, DirectLimiter>,
    n: direct::Governor<S, Request, DirectLimiter>,
)
    requires
        default_state(state),
        default_clock(clock),
        call_ensures(direct::Governor::<S, Request, DirectLimiter>::default, (inner, quota), d),
        call_ensures(
            direct::Governor::<S, Request, DirectLimiter>::new,
            (inner, quota, state, clock),
            n,
        ),
    ensures
        d.service() == inner,
        n.service() == inner,
        d.shared().made_of_defaults(quota),
        n.shared().made_of_defaults(quota),
{
}

/// The three ways of making a layer agree: `Layer::default`, `Layer::new` over a default state
/// and a default clock, and `Layer::new_with_limiter` over a new limiter for the quota.
pub proof fn law_direct_layers_agree<S, Request>(
    inner: S,
    quota: Quota,
    state: InMemoryState,
    clock: QuantaClock,
    limiter: DirectLimiter,
    layers: (
        direct::Layer<Request, DirectLimiter>,
        direct::Layer<Request, DirectLimiter>,
        direct::Layer<Request, DirectLimiter>,
    ),
    a: direct::Governor<S, Request, DirectLimiter>,
    b: direct::Governor<S, Request, DirectLimiter>,
    c: direct::Governor<S, Request, DirectLimiter>,
)
    requires
        default_state(state),
        default_clock(clock),
        call_ensures(DirectLimiter::for_quota, (quota,), limiter),
        call_ensures(direct::Layer::<Request, DirectLimiter>::default, (quota,), layers.0),
        call_ensures(
            direct::Layer::<Request, DirectLimiter>::new,
            (quota, state, clock),
            layers.1,
        ),
        call_ensures(
            direct::Layer::<Request, DirectLimiter>::new_with_limiter,
            (limiter,),
            layers.2,
        ),
        call_ensures(direct::Layer::<Request, DirectLimiter>::layer::<S>, (&layers.0, inner), a),
        call_ensures(direct::Layer::<Request, DirectLimiter>::layer::<S>, (&layers.1, inner), b),
        call_ensures(direct::Layer::<Request, DirectLimiter>::layer::<S>, (&layers.2, inner), c),
    ensures
        a.service() == inner && a.shared().made_of_defaults(quota),
        b.service() == inner && b.shared().made_of_defaults(quota),
        c.service() == inner && c.shared().made_of_defaults(quota),
{
}

/// As [`law_direct_new_is_new_with_limiter`], for keyed limiters.
pub proof fn law_keyed_new_is_new_with_limiter<S, KE, Request>(
    inner: S,
    key_extractor: KE,
    quota: Quota,
    state: DefaultKeyedStateStore<KE::Key>,
    clock: QuantaClock,
    middleware: KeyedDashmapMiddleware<KE::Key>,
    g: keyed::Governor<S, KE, Request, RateLimiter<KE::Key>>,
    limiter: Arc<RateLimiter<KE::Key>>,
    h: keyed::Governor<S, KE, Request, RateLimiter<KE::Key>>,
) where KE: KeyExtractor<Request>, KE::Key: Clone + Eq
    requires
        call_ensures(
            keyed::Governor::<S, KE, Request, RateLimiter<KE::Key>>::new,
            (inner, key_extractor, quota, state, clock, middleware),
            g,
        ),
        call_ensures(
            RateLimiter::<KE::Key>::new,
            (quota, state, clock, middleware),
            *limiter,
        ),
        call_ensures(
            keyed::Governor::<S, KE, Request, RateLimiter<KE::Key>>::new_with_limiter,
            (inner, key_extractor, limiter),
            h,
        ),
    ensures
        g.service() == inner,
        h.service() == inner,
        g.extractor() == key_extractor,
        h.extractor() == key_extractor,
        g.shared().general().made_of(quota, state, clock),
        h.shared().general().made_of(quota, state, clock),
        g.shared().assigned(middleware, state, clock),
        h.shared().assigned(middleware, state, clock),
{
}

/// As [`law_direct_layer_is_new`], for keyed limiters. The layer hands the service a clone of its
/// key extractor.
pub proof fn law_keyed_layer_is_new<S, KE, Request>(
    inner: S,
    key_extractor: KE,
    quota: Quota,
    state: DefaultKeyedStateStore<KE::Key>,
    clock: QuantaClock,
    middleware: KeyedDashmapMiddleware<KE::Key>,
    layer: keyed::Layer<Request, KE, RateLimiter<KE::Key>>,
    g: keyed::Governor<S, KE, Request, RateLimiter<KE::Key>>,
    h: keyed::Governor<S, KE, Request, RateLimiter<KE::Key>>,
) where KE: KeyExtractor<Request> + Clone, KE::Key: Clone + Eq
    requires
        call_ensures(
            keyed::Layer::<Request, KE, RateLimiter<KE::Key>>::new,
            (key_extractor, quota, state, clock, middleware),
            layer,
        ),
        call_ensures(
            keyed::Layer::<Request, KE, RateLimiter<KE::Key>>::layer::<S>,
            (&layer, inner),
            g,
        ),
        call_ensures(
            keyed::Governor::<S, KE, Request, RateLimiter<KE::Key>>::new,
            (inner, key_extractor, quota, state, clock, middleware),
            h,
        ),
    ensures
        g.service() == inner,
        h.service() == inner,
        cloned(key_extractor, g.extractor()),
        h.extractor() == key_extractor,
        g.shared().general().made_of(quota, state, clock),
        h.shared().general().made_of(quota, state, clock),
        g.shared().assigned(middleware, state, clock),
        h.shared().assigned(middleware, state, clock),
{
}

/// As [`law_direct_default_is_new`], for keyed limiters: over a default store, and with no
/// quota for a single key.
pub proof fn law_keyed_default_is_new<S, KE, Request>(
    inner: S,
    key_extractor: KE,
    quota: Quota,
    state: DefaultKeyedStateStore<KE::Key>,
    clock: QuantaClock,
    middleware: KeyedDashmapMiddleware<KE::Key>,
    d: keyed::Governor<S, KE, Request, RateLimiter<KE::Key>>,
    n: keyed::Governor<S, KE, Request, RateLimiter<KE::Key>>,
) where KE: KeyExtractor<Request>, KE::Key: Clone + Eq
    requires
        default_store(state),
        default_clock(clock),
        middleware.holds(Seq::empty()),
        call_ensures(
            keyed::Governor::<S, KE, Request, RateLimiter<KE::Key>>::default,
            (inner, key_extractor, quota),
            d,
        ),
        call_ensures(
            keyed::Governor::<S, KE, Request, RateLimiter<KE::Key>>::new,
            (inner, key_extractor, quota, state, clock, middleware),
            n,
        ),
    ensures
        d.service() == inner,
        n.service() == inner,
        d.extractor() == key_extractor,
        n.extractor() == key_extractor,
        d.shared().general().made_of_defaults(quota),
        n.shared().general().made_of_defaults(quota),
        d.shared().has_no_own(),
        n.shared().has_no_own(),
{
}

/// As [`law_direct_layers_agree`], for keyed limiters.
pub proof fn law_keyed_layers_agree<S, KE, Request>(
    inner: S,
    key_extractor: KE,
    quota: Quota,
    state: DefaultKeyedStateStore<KE::Key>,
    clock: QuantaClock,
    middleware: KeyedDashmapMiddleware<KE::Key>,
    limiter: RateLimiter<KE::Key>,
    layers: (
        keyed::Layer<Request, KE, RateLimiter<KE::Key>>,
        keyed::Layer<Request, KE, RateLimiter<KE::Key>>,
        keyed::Layer<Request, KE, RateLimiter<KE::Key>>,
    ),
    a: keyed::Governor<S, KE, Request, RateLimiter<KE::Key>>,
    b: keyed::Governor<S, KE, Request, RateLimiter<KE::Key>>,
    c: keyed::Governor<S, KE, Request, RateLimiter<KE::Key>>,
) where KE: KeyExtractor<Request> + Clone, KE::Key: Clone + Eq
    requires
        default_store(state),
        default_clock(clock),
        middleware.holds(Seq::empty()),
        call_ensures(RateLimiter::<KE::Key>::keyed, (quota,), limiter),
        call_ensures(
            keyed::Layer::<Request, KE, RateLimiter<KE::Key>>::default,
            (key_extractor, quota),
            layers.0,
        ),
        call_ensures(
            keyed::Layer::<Request, KE, RateLimiter<KE::Key>>::new,
            (key_extractor, quota, state, clock, middleware),
            layers.1,
        ),
        call_ensures(
            keyed::Layer::<Request, KE, RateLimiter<KE::Key>>::new_with_limiter,
            (key_extractor, limiter),
            layers.2,
        ),
        call_ensures(
            keyed::Layer::<Request, KE, RateLimiter<KE::Key>>::layer::<S>,
            (&layers.0, inner),
            a,
        ),
        call_ensures(
            keyed::Layer::<Request, KE, RateLimiter<KE::Key>>::layer::<S>,
            (&layers.1, inner),
            b,
        ),
        call_ensures(
            keyed::Layer::<Request, KE, RateLimiter<KE::Key>>::layer::<S>,
            (&layers.2, inner),
            c,
        ),
    ensures
        a.service() == inner && cloned(key_extractor, a.extractor()),
        b.service() == inner && cloned(key_extractor, b.extractor()),
        c.service() == inner && cloned(key_extractor, c.extractor()),
        a.shared().general().made_of_defaults(quota) && a.shared().has_no_own(),
        b.shared().general().made_of_defaults(quota) && b.shared().has_no_own(),
        c.shared().general().made_of_defaults(quota) && c.shared().has_no_own(),
{
}

} // verus!

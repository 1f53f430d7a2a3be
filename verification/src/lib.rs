//! Rate limiting of a service by the Generic Cell Rate Algorithm.
//!
//! A [`direct::Governor`] limits all requests to a service together; a [`keyed::Governor`] limits
//! them by key, where a key is some attribute of a request, and a key can have a quota of its own.
//! The algorithm is that of the `governor` crate. A request that is over the limit is not refused:
//! it waits for as long as the limiter says, is put to the limiter again, and goes to the service
//! once it is admitted.
//!
//! Nothing here sleeps, and nothing here calls a service. A call is a value that says what to do
//! next ([`driver::Action`]) and is told what came of it ([`driver::Event`]); an asynchronous
//! runtime, or a plain loop, drives it. What holds of a call from beginning to end stands in
//! [`direct_laws`] and [`keyed_laws`]; that the ways of building a limited service agree, in
//! [`building_laws`].

pub mod building_laws;
pub mod direct;
pub mod direct_laws;
pub mod driver;
pub mod extractors;
pub mod judging;
pub mod keyed;
pub mod keyed_laws;
pub mod limiter;
pub mod limiter_laws;

# tower-gcra

Rate limiting for services by the Generic Cell Rate Algorithm, verified with Verus. The algorithm
itself is that of the `governor` crate.

- `src/limiter.rs`: quotas, verdicts, and the limiters of the `governor` crate
- `src/direct.rs`: one limit for all requests to a service
- `src/keyed.rs`: limits by key, with quotas for single keys (`src/extractors.rs`)
- `src/driver.rs`: what a call asks of its driver, and what the driver reports
- `src/direct_laws.rs`, `src/keyed_laws.rs`: what holds of a call from beginning to end
- `src/building_laws.rs`: the ways of building a rate-limited service agree
- `app/`: the services as `tower` services, driven by tokio

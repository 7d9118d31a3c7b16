# axum-sentinel-monitor

An embeddable runtime monitor for Axum services: process, Tokio runtime, system
and HTTP metrics through a dashboard and a JSON snapshot.

The logic is a Verus library. Every function in `src/` states in its contract
what it returns or changes, and Verus proves that it does.

- `src/histogram.rs`, `src/window.rs`: latency buckets and the ring of sixty
  one-second slots; laws in `src/ring_laws.rs` and `src/history_laws.rs`.
- `src/route.rs`, `src/endpoints.rs`: names of routes and the bounded table of
  routes; laws in `src/endpoint_laws.rs`.
- `src/stats.rs`, `src/http_stats.rs`: the life of a request and the report on
  HTTP traffic; laws in `src/stats_laws.rs`.
- `src/readings.rs`, `src/heap.rs`, `src/collect.rs`, `src/snapshot.rs`: figures
  of the machine and the snapshot.
- `src/config.rs`, `src/dashboard.rs`, `src/page.rs`, `src/headers.rs`,
  `src/media.rs`, `src/json.rs`, `src/shared.rs`, `src/monitor.rs`:
  configuration, dashboard, content negotiation and the monitor itself.
- `src/metrics.rs`: metrics that a background sampler keeps up to date.
- `src/ratio.rs`, `src/sums.rs`, `src/text.rs`: figures, sums and text.

What is not proved but trusted is small: `String::push` appends a character, and
`HeaderMap::get` gives the first value for a name.

`app/` is the Axum integration around the library: routing, the Tower layer,
JSON, the clock, and what is read of the machine. `tests/` runs the library.

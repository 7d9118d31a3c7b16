//! An embeddable runtime monitor for Axum services.
//!
//! [`Monitor`] holds a configuration and the metrics of a service. It decides
//! which requests are counted, counts them, and reports them together with what
//! is read of the machine as a [`Snapshot`]. Request rates and latency
//! percentiles come from a ring of sixty one-second slots; samples older than
//! [`HTTP_WINDOW`] are discarded. Routes are kept in a bounded table with the
//! requests in flight and the traffic of the last 30 and 60 seconds.
//!
//! Everything here is a function of its arguments: the clock, the machine and
//! the network are read by the caller. Seconds are counted by the caller from a
//! start of its choice (`tick`), and times are in nanoseconds.

pub mod call_laws;
pub mod collect;
pub mod config;
pub mod dashboard;
pub mod dashboard_laws;
pub mod endpoint_laws;
pub mod endpoints;
pub mod headers;
pub mod heap;
pub mod histogram;
pub mod history_laws;
pub mod http_stats;
pub mod json;
pub mod machine_laws;
pub mod media;
pub mod metrics;
pub mod monitor;
pub mod page;
pub mod ratio;
pub mod readings;
pub mod reply_laws;
pub mod ring_laws;
pub mod route;
pub mod route_laws;
pub mod shared;
pub mod snapshot;
pub mod stats;
pub mod stats_laws;
pub mod sums;
pub mod text;
pub mod traffic_laws;
pub mod window;

pub use config::{Config, HTTP_WINDOW, MIN_REFRESH};
pub use json::{SonicJson, SonicJsonRejection};
pub use monitor::Monitor;
pub use ratio::{ByteRate, Figure, Ratio};
pub use snapshot::{
    CollectionStats, HttpEndpointStats, HttpRateStats, HttpSecondSample, HttpStats,
    HttpStatusStats, HttpWindowStats, HttpWindows, LatencyStats, ProcessStats, RuntimeStats,
    Snapshot, SystemStats, Timestamp,
};

//! The snapshot that a monitor serves.
//!
//! Figures that only the machine computes, shares of processor time and load
//! averages, are passed on by their bits. Every figure that is computed here is
//! an exact quotient of counters.

use vstd::prelude::*;

use crate::ratio::{ByteRate, Figure, Ratio};

verus! {

/// A point in time: seconds since the Unix epoch and nanoseconds within the
/// second.
#[derive(Clone, Copy, Debug, PartialEq, Eq, Structural)]
pub struct Timestamp {
    pub secs: i64,
    pub nanos: u32,
}

/// Snapshot served to the dashboard and to API clients.
#[derive(Clone, Debug)]
pub struct Snapshot {
    pub collected_at: Timestamp,
    pub collection: CollectionStats,
    pub process: ProcessStats,
    pub runtime: RuntimeStats,
    pub system: SystemStats,
    pub http: HttpStats,
}

/// Which metrics could not be collected.
#[derive(Clone, Debug)]
pub struct CollectionStats {
    pub partial: bool,
    pub errors: Vec<String>,
}

#[derive(Clone, Copy, Debug, PartialEq, Eq, Structural)]
pub struct ProcessStats {
    pub cpu_percent: Option<Figure>,
    pub rss_bytes: Option<u64>,
    pub threads: Option<i32>,
    pub open_descriptors: Option<i32>,
    pub uptime_seconds: u64,
}

#[derive(Clone, Copy, Debug, PartialEq, Eq, Structural)]
pub struct RuntimeStats {
    /// Tokio live tasks, or OS threads when no runtime is available.
    pub goroutines: u64,
    pub heap_alloc_bytes: u64,
    pub heap_sys_bytes: u64,
    pub heap_inuse_bytes: u64,
    pub heap_idle_bytes: u64,
    pub heap_released_bytes: u64,
    /// Tokio worker threads.
    pub workers: i32,
}

#[derive(Clone, Debug)]
pub struct SystemStats {
    pub cpu_percent: Option<Figure>,
    /// Share of the memory that is used; a hundredfold of it is the percentage.
    pub memory_used_percent: Option<Ratio>,
    pub memory_used_bytes: Option<u64>,
    pub memory_total_bytes: Option<u64>,
    pub memory_available_bytes: Option<u64>,
    /// Share of the disk that is used; a hundredfold of it is the percentage.
    pub disk_used_percent: Option<Ratio>,
    pub disk_used_bytes: Option<u64>,
    pub disk_total_bytes: Option<u64>,
    pub disk_free_bytes: Option<u64>,
    pub disk_fstype: Option<String>,
    pub load1: Option<Figure>,
    pub load5: Option<Figure>,
    pub load15: Option<Figure>,
    pub network_receive_bps: Option<ByteRate>,
    pub network_send_bps: Option<ByteRate>,
}

#[derive(Clone, Debug)]
pub struct HttpStats {
    pub requests: u64,
    pub in_flight: u64,
    /// Requests per second over the last 60 seconds of in-process samples.
    pub rps: Option<Ratio>,
    pub status: HttpStatusStats,
    pub rates: HttpRateStats,
    pub latency: LatencyStats,
    /// Maximum HTTP sample retention, in seconds. Older slots are discarded.
    pub window_seconds: u32,
    pub windows: HttpWindows,
    /// One point per second for the retained window, oldest first.
    pub series: Vec<HttpSecondSample>,
    /// Traffic by route over 30 and 60 seconds, in-flight first then busiest.
    pub endpoints: Vec<HttpEndpointStats>,
}

/// Traffic of one method and path.
#[derive(Clone, Debug)]
pub struct HttpEndpointStats {
    pub method: String,
    pub path: String,
    /// Requests currently being handled for this route.
    pub in_flight: u64,
    pub windows: HttpWindows,
}

/// 30-second and 60-second views of one ring.
#[derive(Clone, Copy, Debug, PartialEq, Eq, Structural)]
pub struct HttpWindows {
    pub secs_30: HttpWindowStats,
    pub secs_60: HttpWindowStats,
}

/// HTTP traffic of a window that never exceeds 60 seconds.
#[derive(Clone, Copy, Debug, PartialEq, Eq, Structural)]
pub struct HttpWindowStats {
    pub seconds: u32,
    pub covered_seconds: u32,
    pub requests: u64,
    pub rps: Ratio,
    pub status: HttpStatusStats,
    pub rates: HttpRateStats,
    pub latency: LatencyStats,
}

/// Requests that finished in a single second.
#[derive(Clone, Copy, Debug, PartialEq, Eq, Structural)]
pub struct HttpSecondSample {
    pub t: i64,
    pub requests: u64,
    pub status: HttpStatusStats,
    pub p50_ns: Option<u64>,
    pub p95_ns: Option<u64>,
    pub p99_ns: Option<u64>,
    pub p999_ns: Option<u64>,
}

#[derive(Clone, Copy, Debug, PartialEq, Eq, Structural)]
pub struct HttpStatusStats {
    pub status_1xx: u64,
    pub status_2xx: u64,
    pub status_3xx: u64,
    pub status_4xx: u64,
    pub status_5xx: u64,
}

/// Shares of requests that ended in an error.
#[derive(Clone, Copy, Debug, PartialEq, Eq, Structural)]
pub struct HttpRateStats {
    pub status_4xx: Option<Ratio>,
    pub status_5xx: Option<Ratio>,
}

#[derive(Clone, Copy, Debug, PartialEq, Eq, Structural)]
pub struct LatencyStats {
    pub p50_ns: Option<u64>,
    pub p95_ns: Option<u64>,
    pub p99_ns: Option<u64>,
    pub p999_ns: Option<u64>,
}

impl Default for ProcessStats {
    fn default() -> (stats: Self)
        ensures
            stats == (ProcessStats {
                cpu_percent: None,
                rss_bytes: None,
                threads: None,
                open_descriptors: None,
                uptime_seconds: 0,
            }),
    {
        ProcessStats {
            cpu_percent: None,
            rss_bytes: None,
            threads: None,
            open_descriptors: None,
            uptime_seconds: 0,
        }
    }
}

impl Default for RuntimeStats {
    fn default() -> (stats: Self)
        ensures
            stats == (RuntimeStats {
                goroutines: 0,
                heap_alloc_bytes: 0,
                heap_sys_bytes: 0,
                heap_inuse_bytes: 0,
                heap_idle_bytes: 0,
                heap_released_bytes: 0,
                workers: 0,
            }),
    {
        RuntimeStats {
            goroutines: 0,
            heap_alloc_bytes: 0,
            heap_sys_bytes: 0,
            heap_inuse_bytes: 0,
            heap_idle_bytes: 0,
            heap_released_bytes: 0,
            workers: 0,
        }
    }
}

impl Default for SystemStats {
    fn default() -> (stats: Self)
        ensures
            stats == (SystemStats {
                cpu_percent: None,
                memory_used_percent: None,
                memory_used_bytes: None,
                memory_total_bytes: None,
                memory_available_bytes: None,
                disk_used_percent: None,
                disk_used_bytes: None,
                disk_total_bytes: None,
                disk_free_bytes: None,
                disk_fstype: None,
                load1: None,
                load5: None,
                load15: None,
                network_receive_bps: None,
                network_send_bps: None,
            }),
    {
        SystemStats {
            cpu_percent: None,
            memory_used_percent: None,
            memory_used_bytes: None,
            memory_total_bytes: None,
            memory_available_bytes: None,
            disk_used_percent: None,
            disk_used_bytes: None,
            disk_total_bytes: None,
            disk_free_bytes: None,
            disk_fstype: None,
            load1: None,
            load5: None,
            load15: None,
            network_receive_bps: None,
            network_send_bps: None,
        }
    }
}

/// Counts of no requests.
pub open spec fn no_status() -> HttpStatusStats {
    HttpStatusStats { status_1xx: 0, status_2xx: 0, status_3xx: 0, status_4xx: 0, status_5xx: 0 }
}

/// Shares of which nothing is known.
pub open spec fn no_rates() -> HttpRateStats {
    HttpRateStats { status_4xx: None, status_5xx: None }
}

/// Latencies of no requests.
pub open spec fn no_latency() -> LatencyStats {
    LatencyStats { p50_ns: None, p95_ns: None, p99_ns: None, p999_ns: None }
}

/// A window without any seconds.
pub open spec fn no_window() -> HttpWindowStats {
    HttpWindowStats {
        seconds: 0,
        covered_seconds: 0,
        requests: 0,
        rps: Ratio { numerator: 0, denominator: 1 },
        status: no_status(),
        rates: no_rates(),
        latency: no_latency(),
    }
}

impl Default for HttpStatusStats {
    fn default() -> (status: Self)
        ensures
            status == no_status(),
    {
        HttpStatusStats { status_1xx: 0, status_2xx: 0, status_3xx: 0, status_4xx: 0, status_5xx: 0 }
    }
}

impl Default for HttpRateStats {
    fn default() -> (rates: Self)
        ensures
            rates == no_rates(),
    {
        HttpRateStats { status_4xx: None, status_5xx: None }
    }
}

impl Default for LatencyStats {
    fn default() -> (latency: Self)
        ensures
            latency == no_latency(),
    {
        LatencyStats { p50_ns: None, p95_ns: None, p99_ns: None, p999_ns: None }
    }
}

impl Default for HttpWindowStats {
    fn default() -> (window: Self)
        ensures
            window == no_window(),
    {
        HttpWindowStats {
            seconds: 0,
            covered_seconds: 0,
            requests: 0,
            rps: Ratio { numerator: 0, denominator: 1 },
            status: HttpStatusStats::default(),
            rates: HttpRateStats::default(),
            latency: LatencyStats::default(),
        }
    }
}

impl Default for HttpWindows {
    fn default() -> (windows: Self)
        ensures
            windows == (HttpWindows { secs_30: no_window(), secs_60: no_window() }),
    {
        HttpWindows { secs_30: HttpWindowStats::default(), secs_60: HttpWindowStats::default() }
    }
}

impl Default for HttpSecondSample {
    fn default() -> (sample: Self)
        ensures
            sample == (HttpSecondSample {
                t: 0,
                requests: 0,
                status: no_status(),
                p50_ns: None,
                p95_ns: None,
                p99_ns: None,
                p999_ns: None,
            }),
    {
        HttpSecondSample {
            t: 0,
            requests: 0,
            status: HttpStatusStats::default(),
            p50_ns: None,
            p95_ns: None,
            p99_ns: None,
            p999_ns: None,
        }
    }
}

impl Default for HttpEndpointStats {
    fn default() -> (stats: Self)
        ensures
            stats.method@.len() == 0,
            stats.path@.len() == 0,
            stats.in_flight == 0,
            stats.windows == (HttpWindows { secs_30: no_window(), secs_60: no_window() }),
    {
        HttpEndpointStats {
            method: String::new(),
            path: String::new(),
            in_flight: 0,
            windows: HttpWindows::default(),
        }
    }
}

impl Default for HttpStats {
    fn default() -> (stats: Self)
        ensures
            stats.requests == 0,
            stats.in_flight == 0,
            stats.rps is None,
            stats.status == no_status(),
            stats.rates == no_rates(),
            stats.latency == no_latency(),
            stats.window_seconds == 0,
            stats.windows == (HttpWindows { secs_30: no_window(), secs_60: no_window() }),
            stats.series@.len() == 0,
            stats.endpoints@.len() == 0,
    {
        HttpStats {
            requests: 0,
            in_flight: 0,
            rps: None,
            status: HttpStatusStats::default(),
            rates: HttpRateStats::default(),
            latency: LatencyStats::default(),
            window_seconds: 0,
            windows: HttpWindows::default(),
            series: Vec::new(),
            endpoints: Vec::new(),
        }
    }
}

} // verus!

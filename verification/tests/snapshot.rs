use axum_sentinel_monitor::snapshot::{
    HttpEndpointStats, HttpRateStats, HttpSecondSample, HttpStats, HttpStatusStats, HttpWindowStats,
    HttpWindows, LatencyStats, ProcessStats, RuntimeStats, SystemStats,
};
use axum_sentinel_monitor::Ratio;

#[test]
fn an_empty_report_tells_of_no_requests() {
    let http = HttpStats::default();
    assert_eq!((http.requests, http.in_flight, http.window_seconds), (0, 0, 0));
    assert_eq!(http.rps, None);
    assert_eq!(http.status, HttpStatusStats::default());
    assert_eq!(http.rates, HttpRateStats { status_4xx: None, status_5xx: None });
    assert_eq!(http.latency, LatencyStats::default());
    assert_eq!(http.windows, HttpWindows::default());
    assert!(http.series.is_empty());
    assert!(http.endpoints.is_empty());
    let window = HttpWindowStats::default();
    assert_eq!((window.seconds, window.covered_seconds, window.requests), (0, 0, 0));
    assert_eq!(window.rps, Ratio { numerator: 0, denominator: 1 });
    assert_eq!(window.latency.p999_ns, None);
    let endpoint = HttpEndpointStats::default();
    assert_eq!((endpoint.method.as_str(), endpoint.path.as_str()), ("", ""));
    assert_eq!(endpoint.in_flight, 0);
    assert_eq!(endpoint.windows.secs_30, window);
    let sample = HttpSecondSample::default();
    assert_eq!((sample.t, sample.requests, sample.p50_ns), (0, 0, None));
    assert_eq!(sample.status.status_5xx, 0);
}

#[test]
fn an_empty_report_tells_nothing_of_the_machine() {
    let process = ProcessStats::default();
    assert_eq!((process.rss_bytes, process.threads), (None, None));
    assert_eq!((process.open_descriptors, process.uptime_seconds), (None, 0));
    assert!(process.cpu_percent.is_none());
    let runtime = RuntimeStats::default();
    assert_eq!((runtime.goroutines, runtime.heap_released_bytes, runtime.workers), (0, 0, 0));
    let system = SystemStats::default();
    assert!(system.cpu_percent.is_none());
    assert!(system.memory_used_percent.is_none());
    assert!(system.disk_fstype.is_none());
    assert!(system.load15.is_none());
    assert!(system.network_receive_bps.is_none());
    assert!(system.network_send_bps.is_none());
}

use axum_sentinel_monitor::http_stats::{collect_http, is_reportable, window_rates};
use axum_sentinel_monitor::route::normalize_path;
use axum_sentinel_monitor::snapshot::HttpStatusStats;
use axum_sentinel_monitor::stats::HttpMetrics;
use axum_sentinel_monitor::Ratio;

#[test]
fn requests_are_counted_by_class() {
    let mut http = HttpMetrics::new();
    for status in [101u16, 200, 204, 301, 404, 500, 503, 599, 600, 99, 999] {
        http.finish(1_000, status, 0);
    }
    assert_eq!(http.status1(), 1);
    assert_eq!(http.status2(), 2);
    assert_eq!(http.status3(), 1);
    assert_eq!(http.status4(), 1);
    assert_eq!(http.status5(), 3);
    assert_eq!(http.requests(), 0);
    let stats = collect_http(&http, 0, 0);
    assert_eq!(stats.windows.secs_60.requests, 11);
    assert_eq!(stats.windows.secs_60.status, stats.status);
}

#[test]
fn begin_request_counts_up() {
    let mut http = HttpMetrics::new();
    assert_eq!(http.begin_request(), 1);
    assert_eq!(http.begin_request(), 2);
    assert_eq!(http.in_flight(), 2);
    http.end_in_flight();
    assert_eq!(http.in_flight(), 1);
    assert_eq!(http.requests(), 2);
}

#[test]
fn skipped_paths_are_not_counted() {
    let mut http = HttpMetrics::new();
    assert!(http.on_request("/monitor", "GET", "/monitor", 0).is_none());
    assert_eq!(http.requests(), 0);
    assert!(http.on_request("/monitor", "GET", "/monitor/", 0).is_some());
    assert_eq!(http.requests(), 1);
}

#[test]
fn a_request_lives_through_its_steps() {
    let mut http = HttpMetrics::new();
    let request = http.on_request("/monitor", "get", "/items/42?x=1", 10).unwrap();
    assert_eq!(request.sequence(), 1);
    let during = collect_http(&http, 10, 0);
    assert_eq!(during.in_flight, 1);
    assert_eq!(during.endpoints[0].in_flight, 1);
    assert_eq!(during.endpoints[0].method, "GET");
    assert_eq!(during.endpoints[0].path, "/items/:id");
    assert_eq!(during.windows.secs_60.requests, 0);

    http.on_response(&request, 2_000_000, Some(404), 11);
    http.on_release(&request);
    let after = collect_http(&http, 12, 0);
    assert_eq!(after.requests, 1);
    assert_eq!(after.in_flight, 0);
    assert_eq!(after.endpoints[0].in_flight, 0);
    assert_eq!(after.endpoints[0].windows.secs_60.requests, 1);
    assert_eq!(after.status.status_4xx, 1);
    assert_eq!(
        after.rates.status_4xx,
        Some(Ratio { numerator: 1, denominator: 1 })
    );
    assert_eq!(after.rps, Some(Ratio { numerator: 1, denominator: 13 }));

    let later = collect_http(&http, 71, 0);
    assert_eq!(later.windows.secs_60.requests, 0);
    assert_eq!(later.endpoints[0].windows.secs_60.requests, 0);
    assert_eq!(later.status.status_4xx, 1);
    assert!(later.latency.p50_ns.is_none());
}

#[test]
fn requests_without_a_response_count_as_server_errors() {
    let mut http = HttpMetrics::new();
    let request = http.on_request("", "POST", "/", 0).unwrap();
    http.on_response(&request, u128::MAX, None, 0);
    http.on_release(&request);
    let stats = collect_http(&http, 0, 0);
    assert_eq!(stats.status.status_5xx, 1);
    assert_eq!(
        stats.latency.p50_ns,
        Some(axum_sentinel_monitor::histogram::MAX_LATENCY_NS)
    );
}

#[test]
fn requests_to_any_path_are_counted_once() {
    for path in ["", "/", "*", "/a?b#c", &format!("/a{}/{}", "é".repeat(46), "é".repeat(48))] {
        let mut http = HttpMetrics::new();
        let request = http.on_request("/monitor", "GET", path, 3).unwrap();
        assert_eq!(http.in_flight(), 1);
        http.on_response(&request, 5, Some(204), 4);
        http.on_release(&request);
        let stats = collect_http(&http, 4, 0);
        assert_eq!(stats.requests, 1);
        assert_eq!(stats.in_flight, 0);
        assert_eq!(stats.status, HttpStatusStats { status_2xx: 1, ..HttpStatusStats::default() });
        assert_eq!(stats.endpoints.len(), 1);
        assert_eq!(stats.endpoints[0].path, normalize_path(path));
        assert_eq!(stats.endpoints[0].windows.secs_60.requests, 1);
    }
}

#[test]
fn abandoned_requests_are_released() {
    let mut http = HttpMetrics::new();
    let request = http.on_request("", "GET", "/slow", 0).unwrap();
    http.on_release(&request);
    let stats = collect_http(&http, 0, 0);
    assert_eq!(stats.requests, 1);
    assert_eq!(stats.in_flight, 0);
    assert_eq!(stats.endpoints[0].in_flight, 0);
    assert_eq!(stats.windows.secs_60.requests, 0);
}

#[test]
fn quiet_metrics_have_no_latency() {
    let http = HttpMetrics::new();
    assert!(is_reportable(&http, 5));
    let stats = collect_http(&http, 5, 1_700_000_000);
    assert_eq!(stats.rps, Some(Ratio { numerator: 0, denominator: 6 }));
    assert!(stats.latency.p50_ns.is_none());
    assert!(stats.latency.p999_ns.is_none());
    assert!(stats.rates.status_4xx.is_none());
    assert_eq!(stats.window_seconds, 60);
    assert_eq!(stats.series.len(), 60);
    assert_eq!(stats.series[59].t, 1_700_000_000);
    assert_eq!(stats.series[0].t, 1_700_000_000 - 59);
    assert!(stats.endpoints.is_empty());
}

#[test]
fn rates_are_shares_of_requests() {
    assert_eq!(window_rates(&[0, 0, 0, 3, 1], 0), (None, None));
    assert_eq!(
        window_rates(&[0, 4, 0, 3, 1], 8),
        (
            Some(Ratio { numerator: 3, denominator: 8 }),
            Some(Ratio { numerator: 1, denominator: 8 })
        )
    );
}

#[test]
fn running_requests_keep_their_route() {
    let mut http = HttpMetrics::new();
    let hold = http.on_request("", "GET", "/hold", 0).unwrap();
    for index in 0..200 {
        let request = http.on_request("", "GET", &format!("/route-{index}"), 0).unwrap();
        http.on_response(&request, 10, Some(200), 0);
        http.on_release(&request);
    }
    http.on_response(&hold, 10, Some(200), 0);
    let stats = collect_http(&http, 0, 0);
    assert!(stats.endpoints.len() <= 65);
    assert_eq!(stats.endpoints[0].path, "/hold");
    assert_eq!(stats.endpoints[0].in_flight, 1);
    assert_eq!(stats.endpoints[0].windows.secs_60.requests, 1);
    assert!(is_reportable(&http, 0));
}

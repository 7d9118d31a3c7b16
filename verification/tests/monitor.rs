use axum_sentinel_monitor::heap::HeapReading;
use axum_sentinel_monitor::media::{prefers_json, read_accept};
use axum_sentinel_monitor::monitor::{Reply, ReplyBody};
use axum_sentinel_monitor::readings::{
    DescriptorReading, Reading, RuntimeReading, SystemReading,
};
use axum_sentinel_monitor::{Config, Figure, Monitor, Snapshot, Timestamp};

const SECOND: u128 = 1_000_000_000;

fn reading(now: u128) -> Reading {
    Reading {
        collected_at: Timestamp { secs: 0, nanos: 0 },
        now,
        uptime_seconds: 0,
        process: None,
        threads: None,
        descriptors: DescriptorReading::Unknown,
        system: SystemReading {
            cpu_percent: Figure { bits: 0 },
            memory_total: 0,
            memory_used: 0,
            memory_available: 0,
            load: None,
            interfaces: 0,
            received: 0,
            sent: 0,
        },
        disk_root: None,
        mounts: vec![],
        mounts_at: now,
        runtime: RuntimeReading::Threads { threads: Some(1), parallelism: Some(1) },
        heap: HeapReading::Unknown,
    }
}

fn snapshot(monitor: &mut Monitor, tick: u64) -> Snapshot {
    assert!(monitor.stats().is_reportable(tick));
    monitor.collect(reading(0), tick, 0, 0);
    monitor.stats().latest().unwrap().clone()
}

fn header<'a>(reply: &'a Reply, name: &str) -> Option<&'a str> {
    reply.headers.iter().find(|header| header.name == name).map(|header| header.value)
}

fn page(reply: &Reply) -> &str {
    match &reply.body {
        ReplyBody::Page(html) => html,
        _ => panic!("no page"),
    }
}

fn request(monitor: &mut Monitor, method: &str, path: &str, status: u16) {
    if let Some(request) = monitor.on_request(method, path, 0) {
        monitor.on_response(&request, 1_000_000, Some(status), 0);
        monitor.on_release(&request);
    }
}

fn prefers(accept: &str) -> bool {
    let ranges = read_accept(&Some(accept.as_bytes().to_vec()));
    let values = ranges
        .iter()
        .map(|range| {
            range
                .qualities
                .iter()
                .map(|text| text.parse::<f32>().ok().map(f32::to_bits))
                .collect()
        })
        .collect();
    prefers_json(&ranges, &values)
}

#[test]
fn serves_html_by_default() {
    let reply = Monitor::default().respond("GET", false, 1, false);
    assert_eq!(reply.status, 200);
    assert_eq!(header(&reply, "content-type"), Some("text/html; charset=utf-8"));
    let html = page(&reply);
    assert!(html.contains("--accent: #67e8f9"));
    assert!(html.contains("canvas"));
    assert!(!html.contains("Chart.js"));
    assert!(html.contains("P999"));
    assert!(html.contains("data-page=\"api\""));
    assert!(html.contains("Endpoints"));
    assert!(!html.contains("data-samples=\"90\""));
}

#[test]
fn serves_process_runtime_system_http_json() {
    let mut monitor = Monitor::default();
    request(&mut monitor, "GET", "/", 200);
    let reply = monitor.respond("GET", prefers("application/json"), 1, false);
    assert_eq!(reply.status, 200);
    assert!(matches!(reply.body, ReplyBody::Snapshot));
    let value = snapshot(&mut monitor, 0);
    assert_eq!(value.http.requests, 1);
    assert_eq!(value.http.status.status_2xx, 1);
    assert_eq!(value.http.window_seconds, 60);
    assert_eq!(value.http.series.len(), 60);
    assert_eq!(value.http.windows.secs_60.requests, 1);
    assert_eq!(value.http.windows.secs_60.status.status_2xx, 1);
    assert_eq!(value.http.endpoints[0].path, "/");
    assert_eq!(value.http.endpoints[0].method, "GET");
    assert_eq!(value.http.endpoints[0].in_flight, 0);
    assert_eq!(value.http.endpoints[0].windows.secs_60.requests, 1);
    assert!(value.http.latency.p50_ns.is_some());
    assert!(value.http.latency.p95_ns.is_some());
    assert!(value.http.latency.p999_ns.is_some());
    assert!(value.http.rps.is_some());
}

#[test]
fn sorts_endpoints_by_recent_request_count() {
    let mut monitor = Monitor::default();
    for _ in 0..3 {
        request(&mut monitor, "GET", "/work", 200);
    }
    request(&mut monitor, "GET", "/fail", 500);
    request(&mut monitor, "GET", "/", 200);
    request(&mut monitor, "GET", "/items/42", 200);
    request(&mut monitor, "GET", "/monitor", 200);
    let value = snapshot(&mut monitor, 0);
    let endpoints = value.http.endpoints;
    assert!(endpoints.len() >= 3);
    assert_eq!(endpoints[0].method, "GET");
    assert_eq!(endpoints[0].path, "/work");
    assert_eq!(endpoints[0].windows.secs_60.requests, 3);
    assert_eq!(endpoints[0].in_flight, 0);
    assert!(endpoints[0].windows.secs_60.latency.p50_ns.is_some());
    assert_eq!(endpoints[0].windows.secs_30.rps.numerator, 3);
    let fail = endpoints.iter().find(|row| row.path == "/fail").expect("fail endpoint");
    assert_eq!(fail.windows.secs_60.status.status_5xx, 1);
    let item = endpoints
        .iter()
        .find(|row| row.path == "/items/:id")
        .expect("collapsed item path");
    assert_eq!(item.windows.secs_60.requests, 1);
}

#[test]
fn records_in_flight_per_endpoint() {
    let mut monitor = Monitor::default();
    let _pending = monitor.on_request("GET", "/hold", 0).unwrap();
    let value = snapshot(&mut monitor, 0);
    assert_eq!(value.http.in_flight, 1);
    let hold = value
        .http
        .endpoints
        .iter()
        .find(|row| row.path == "/hold")
        .expect("hold endpoint");
    assert_eq!(hold.method, "GET");
    assert_eq!(hold.in_flight, 1);
}

#[test]
fn lib_monitor_endpoint_is_not_application_traffic() {
    let mut monitor = Monitor::default();
    request(&mut monitor, "GET", "/monitor", 200);
    assert_eq!(snapshot(&mut monitor, 0).http.requests, 0);
}

#[test]
fn monitor_monitor_endpoint_is_not_application_traffic() {
    let mut monitor = Monitor::default();
    assert!(monitor.on_request("GET", "/monitor", 0).is_none());
    assert_eq!(snapshot(&mut monitor, 0).http.requests, 0);
}

#[test]
fn rejects_non_get_requests() {
    let reply = Monitor::default().respond("POST", true, 1, false);
    assert_eq!(reply.status, 405);
    assert_eq!(header(&reply, "allow"), Some("GET"));
    assert!(matches!(reply.body, ReplyBody::Empty));
}

#[test]
fn serves_default_and_custom_dashboard_safely() {
    let reply = Monitor::default().respond("GET", false, 1, false);
    assert_eq!(reply.status, 200);
    assert_eq!(header(&reply, "content-type"), Some("text/html; charset=utf-8"));
    assert_eq!(header(&reply, "cache-control"), Some("no-store"));
    assert_eq!(header(&reply, "x-content-type-options"), Some("nosniff"));
    let html = page(&reply);
    assert!(html.contains("Axum Sentinel Monitor"));
    for metric in ["Process", "Runtime", "System", "HTTP", "Tasks"] {
        assert!(html.contains(metric), "missing dashboard metric: {metric}");
    }
    assert!(html.contains("data-theme=\"dark\""));
    assert!(html.contains("canvas"));
    assert!(!html.contains("Chart.js"));
    assert!(!html.contains("__MONITOR_TITLE__"));
    assert!(!html.contains("__MONITOR_REFRESH_MS__"));

    let custom = Monitor::new(Config {
        title: "<script>bad('title')</script>".to_owned(),
        custom_head: "<meta name=\"trusted\" content=\"yes\">".to_owned(),
        ..Config::default()
    });
    let reply = custom.respond("GET", false, 1, false);
    let html = page(&reply);
    assert!(html.contains("&lt;script&gt;bad(&#39;title&#39;)&lt;/script&gt;"));
    assert!(!html.contains("<script>bad('title')</script>"));
    assert!(!html.contains("<meta name=\"trusted\" content=\"yes\">"));
}

#[test]
fn serves_documented_json_schema_with_accept_negotiation() {
    let monitor = Monitor::default();
    let json = prefers("text/html;q=0.4, application/json; charset=utf-8; q=0.9");
    let reply = monitor.respond("GET", json, 1, false);
    assert_eq!(header(&reply, "content-type"), Some("application/json; charset=utf-8"));
    assert_eq!(header(&reply, "cache-control"), Some("no-store"));
    assert_eq!(header(&reply, "x-content-type-options"), Some("nosniff"));
    assert!(matches!(reply.body, ReplyBody::Snapshot));
}

#[test]
fn supports_api_only_and_rejects_every_non_get_method() {
    let monitor = Monitor::new(Config { api_only: true, ..Config::default() });
    let reply = monitor.respond("GET", false, 1, false);
    assert_eq!(header(&reply, "content-type"), Some("application/json; charset=utf-8"));
    assert!(matches!(reply.body, ReplyBody::Snapshot));
    for method in ["POST", "PUT", "DELETE", "HEAD", "OPTIONS", "get", ""] {
        let reply = monitor.respond(method, true, 1, false);
        assert_eq!(reply.status, 405);
        assert_eq!(header(&reply, "allow"), Some("GET"));
    }
}

#[test]
fn clamps_refresh_counts_requests_and_isolates_instances() {
    let mut first = Monitor::new(Config { refresh: 1_000_000, ..Config::default() });
    let mut second = Monitor::default();
    assert_eq!(first.config().refresh, Config::MIN_REFRESH);
    request(&mut first, "GET", "/", 200);
    assert_eq!(snapshot(&mut first, 0).http.requests, 1);
    assert_eq!(snapshot(&mut second, 0).http.requests, 0);
}

#[test]
fn snapshots_are_shared_for_the_refresh_interval() {
    let mut monitor = Monitor::new(Config { refresh: 2 * SECOND, ..Config::default() });
    assert!(monitor.snapshot(0).is_none());
    assert!(monitor.stats().disk_due(0));
    monitor.collect(reading(5 * SECOND), 5, 0, 5 * SECOND);
    request(&mut monitor, "GET", "/", 200);
    let shared = monitor.snapshot(7 * SECOND - 1).unwrap();
    assert_eq!(shared.http.requests, 0);
    assert!(monitor.snapshot(4 * SECOND).is_some());
    assert!(monitor.snapshot(7 * SECOND).is_none());
    assert!(monitor.stats().latest().is_some());
    monitor.collect(reading(7 * SECOND), 7, 0, 7 * SECOND);
    assert_eq!(monitor.snapshot(7 * SECOND).unwrap().http.requests, 1);
}

#[test]
fn default_monitor_has_the_default_configuration() {
    let monitor = Monitor::default();
    let expected = Config::default();
    assert_eq!(monitor.config().title, expected.title);
    assert_eq!(monitor.config().description, expected.description);
    assert_eq!(monitor.config().footer, expected.footer);
    assert_eq!(monitor.config().favicon_url, expected.favicon_url);
    assert_eq!(monitor.config().refresh, expected.refresh);
    assert_eq!(monitor.config().font_url, expected.font_url);
    assert_eq!(monitor.config().chart_js_url, expected.chart_js_url);
    assert_eq!(monitor.config().route, expected.route);
}

use std::time::Duration;

use axum_sentinel_monitor::histogram::{
    bucket_of, bucket_upper_ns, LatencyHist, BUCKETS, MAX_LATENCY_NS,
};
use axum_sentinel_monitor::window::SlidingWindow;

fn millis(n: u64) -> u64 {
    Duration::from_millis(n).as_nanos() as u64
}

#[test]
fn buckets_cover_latency_range() {
    for ns in [1, 500, 1_000, 1_000_000, 40_000_000, MAX_LATENCY_NS] {
        let index = bucket_of(ns);
        assert!(index < BUCKETS, "index {index} for {ns} ns");
        assert!(bucket_upper_ns(index) >= ns.min(MAX_LATENCY_NS));
    }
    assert_eq!(bucket_of(0), bucket_of(1));
}

#[test]
fn percentiles_use_window_not_lifetime() {
    let mut window = SlidingWindow::new();
    for _ in 0..9 {
        window.observe(0, millis(1), 2);
    }
    window.observe(0, millis(40), 2);
    let snap = window.snapshot(0, 0);
    assert_eq!(snap.window_60.requests, 10);
    assert!(snap.window_60.p50_ns.unwrap() <= millis(5));
    assert!(snap.window_60.p99_ns.unwrap() >= millis(40));

    let expired = window.snapshot(61, 61);
    assert_eq!(expired.window_60.requests, 0);
    assert!(expired.window_60.p50_ns.is_none());
    assert!(expired.series.iter().all(|sample| sample.requests == 0));

    window.observe(61, millis(8), 5);
    let fresh = window.snapshot(61, 61);
    assert_eq!(fresh.window_60.requests, 1);
    assert_eq!(fresh.window_60.status[4], 1);
    assert_eq!(
        fresh
            .series
            .iter()
            .map(|sample| sample.requests)
            .sum::<u64>(),
        1
    );
}

#[test]
fn p999_tracks_tail_and_series_is_sixty_seconds() {
    let mut window = SlidingWindow::new();
    for _ in 0..998 {
        window.observe(0, millis(2), 2);
    }
    window.observe(0, millis(80), 2);
    let snap = window.snapshot(0, 0);
    assert_eq!(snap.series.len(), 60);
    assert!(snap.window_60.p50_ns.unwrap() < millis(10));
    assert!(snap.window_60.p999_ns.unwrap() >= millis(80));
    let rps = snap.window_60.rps.numerator as f64 / snap.window_60.rps.denominator as f64;
    assert!((rps - 999.0).abs() < f64::EPSILON);
    assert_eq!(snap.window_30.requests, snap.window_60.requests);
}

#[test]
fn thirty_second_view_drops_older_slots() {
    let mut window = SlidingWindow::new();
    window.observe(0, 1_000_000, 2);
    window.observe(31, 2_000_000, 4);
    let snap = window.snapshot(31, 0);
    assert_eq!(snap.window_30.requests, 1);
    assert_eq!(snap.window_30.status[3], 1);
    assert_eq!(snap.window_60.requests, 2);
    assert_eq!(snap.window_60.status[1], 1);
    assert_eq!(snap.window_60.status[3], 1);
}

#[test]
fn each_power_of_two_has_eight_buckets() {
    for ns in 1u64..16 {
        assert_eq!(bucket_of(ns), ns as usize);
        assert_eq!(bucket_upper_ns(ns as usize), ns);
    }
    assert_eq!(bucket_of(16), 16);
    assert_eq!(bucket_of(17), 16);
    assert_eq!(bucket_upper_ns(16), 17);
    assert_eq!(bucket_of(31), 23);
    assert_eq!(bucket_of(32), 24);
    for index in 0..BUCKETS - 1 {
        assert!(bucket_upper_ns(index) <= bucket_upper_ns(index + 1));
    }
    for index in [BUCKETS - 1, BUCKETS, BUCKETS + 1, 1_000, usize::MAX] {
        assert_eq!(bucket_upper_ns(index), MAX_LATENCY_NS);
    }
    assert_eq!(bucket_of(u64::MAX), bucket_of(MAX_LATENCY_NS));
}

#[test]
fn reported_latency_is_within_an_eighth() {
    for ns in [9u64, 100, 12_345, 1_000_000, 987_654_321] {
        let upper = bucket_upper_ns(bucket_of(ns));
        assert!(upper >= ns);
        assert!(upper - ns <= ns / 8 + 1, "{ns} reported as {upper}");
    }
}

#[test]
fn percentiles_of_a_histogram() {
    let mut hist = LatencyHist::new();
    assert_eq!(hist.percentile(500), None);
    hist.add_bucket(bucket_of(1_000), 99);
    hist.add_bucket(bucket_of(1_000_000), 1);
    assert_eq!(hist.percentile(0), None);
    assert_eq!(hist.percentile(500), Some(bucket_upper_ns(bucket_of(1_000))));
    assert_eq!(hist.percentile(990), Some(bucket_upper_ns(bucket_of(1_000))));
    assert_eq!(hist.percentile(999), Some(bucket_upper_ns(bucket_of(1_000_000))));
    let mut other = LatencyHist::new();
    other.add_bucket(bucket_of(2), 100);
    hist.merge(&other);
    assert_eq!(hist.percentile(500), Some(bucket_upper_ns(bucket_of(2))));
}

#[test]
fn a_request_counts_for_a_minute() {
    let mut window = SlidingWindow::new();
    window.observe(100, 5_000, 3);
    for tick in [100u64, 101, 130, 159] {
        let snap = window.snapshot(tick, 0);
        assert_eq!(snap.window_60.requests, 1, "second {tick}");
        assert_eq!(snap.window_60.status, [0, 0, 1, 0, 0]);
    }
    assert_eq!(window.snapshot(129, 0).window_30.requests, 1);
    assert_eq!(window.snapshot(130, 0).window_30.requests, 0);
    assert_eq!(window.snapshot(160, 0).window_60.requests, 0);
    assert_eq!(window.recent_requests(159), 1);
    assert_eq!(window.recent_requests(160), 0);
}

#[test]
fn slots_are_reused_after_a_minute() {
    let mut window = SlidingWindow::new();
    window.observe(5, 10, 2);
    window.observe(65, 10, 5);
    let snap = window.snapshot(65, 0);
    assert_eq!(snap.window_60.requests, 1);
    assert_eq!(snap.window_60.status, [0, 0, 0, 0, 1]);
}

#[test]
fn series_is_oldest_first_and_adds_up() {
    let mut window = SlidingWindow::new();
    window.observe(70, 10, 2);
    window.observe(70, 10, 2);
    window.observe(72, 10, 4);
    let snap = window.snapshot(72, 1_000);
    assert_eq!(snap.series[59].unix_secs, 1_000);
    assert_eq!(snap.series[59].requests, 1);
    assert_eq!(snap.series[59].status[3], 1);
    assert_eq!(snap.series[57].unix_secs, 998);
    assert_eq!(snap.series[57].requests, 2);
    assert_eq!(snap.series[0].unix_secs, 941);
    assert!(snap.series[58].p50_ns.is_none());
    assert!(snap.series[57].p999_ns.is_some());
    let sum: u64 = snap.series.iter().map(|sample| sample.requests).sum();
    assert_eq!(sum, snap.window_60.requests);
}

#[test]
fn covered_seconds_grow_to_the_window() {
    let window = SlidingWindow::new();
    let at = |tick: u64| {
        let snap = window.snapshot(tick, 0);
        (snap.window_30.covered_seconds, snap.window_60.covered_seconds)
    };
    assert_eq!(at(0), (1, 1));
    assert_eq!(at(28), (29, 29));
    assert_eq!(at(29), (30, 30));
    assert_eq!(at(45), (30, 46));
    assert_eq!(at(59), (30, 60));
    assert_eq!(at(u64::MAX - 1), (30, 60));
}

#[test]
fn codes_without_a_class_count_as_requests_only() {
    let mut window = SlidingWindow::new();
    window.observe(0, 10, 0);
    window.observe(0, 10, 6);
    let snap = window.snapshot(0, 0);
    assert_eq!(snap.window_60.requests, 2);
    assert_eq!(snap.window_60.status, [0; 5]);
}

#[test]
fn early_unix_times_do_not_wrap() {
    let window = SlidingWindow::new();
    let snap = window.snapshot(0, i64::MIN + 3);
    assert_eq!(snap.series[59].unix_secs, i64::MIN + 3);
    assert_eq!(snap.series[56].unix_secs, i64::MIN);
    assert_eq!(snap.series[0].unix_secs, i64::MIN);
    assert!(window.is_readable(0));
}

#[test]
fn windows_count_their_history() {
    let mut window = SlidingWindow::new();
    let mut history: Vec<(u64, u64, u8)> = Vec::new();
    let mut tick = 0u64;
    for index in 0..500u64 {
        tick += (index * 7) % 5 / 3;
        let request = (tick, index * index * 1_000, (index % 7) as u8);
        window.observe(request.0, request.1, request.2);
        history.push(request);
        let within = |span: u64| history.iter().filter(|r| tick - r.0 < span).count() as u64;
        assert_eq!(window.recent_requests(tick), within(60));
        let snap = window.snapshot(tick, 0);
        assert_eq!(snap.window_60.requests, within(60));
        assert_eq!(snap.window_30.requests, within(30));
        let errors = history.iter().filter(|r| tick - r.0 < 60 && r.2 == 5).count() as u64;
        assert_eq!(snap.window_60.status[4], errors);
    }
    assert_eq!(window.recent_requests(tick + 60), 0);
}

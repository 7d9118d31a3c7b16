use axum_sentinel_monitor::endpoints::{EndpointSet, MAX_ENDPOINTS};
use axum_sentinel_monitor::route::{normalize_method, normalize_path, MAX_PATH_BYTES};

#[test]
fn collapses_ids_and_keeps_named_segments() {
    assert_eq!(
        normalize_path("/users/42/orders/ab12cd34ef56aa00"),
        "/users/:id/orders/:id"
    );
    assert_eq!(normalize_path("/api/v2/account?x=1"), "/api/v2/account");
    assert_eq!(normalize_path("/items/{id}"), "/items/:id");
    assert_eq!(normalize_path("/"), "/");
    assert_eq!(normalize_method("post"), "POST");
}

#[test]
fn sorts_busiest_endpoint_first() {
    let mut set = EndpointSet::new();
    set.observe_path("GET", "/work", 0, 1_000_000, 2);
    set.observe_path("GET", "/work", 0, 1_000_000, 2);
    set.observe_path("GET", "/slow", 0, 8_000_000, 2);
    set.observe_path("POST", "/user", 0, 2_000_000, 2);
    set.observe_path("GET", "/fail", 0, 3_000_000, 5);
    let rows = set.snapshot(0);
    assert_eq!(rows[0].method, "GET");
    assert_eq!(rows[0].path, "/work");
    assert_eq!(rows[0].window_60.requests, 2);
    assert_eq!(rows[0].in_flight, 0);
    assert_eq!(rows[1].path, "/fail");
    assert_eq!(rows[1].window_60.status[4], 1);
    assert!(rows.iter().any(|row| row.path == "/slow"));
    assert!(rows[0].window_60.p50_ns.is_some());
    let rps = rows[0].window_30.rps.numerator as f64 / rows[0].window_30.rps.denominator as f64;
    assert!(rps > 0.0);
}

#[test]
fn tracks_in_flight_ahead_of_completed_traffic() {
    let mut set = EndpointSet::new();
    set.observe_path("GET", "/work", 0, 1_000_000, 2);
    set.observe_path("GET", "/work", 0, 1_000_000, 2);
    let first = set.begin("GET", "/hold", 0);
    let second = set.begin("GET", "/hold", 0);
    let rows = set.snapshot(0);
    assert_eq!(rows[0].path, "/hold");
    assert_eq!(rows[0].in_flight, 2);
    assert_eq!(rows[0].window_60.requests, 0);
    assert_eq!(rows[1].path, "/work");
    assert_eq!(rows[1].window_60.requests, 2);
    set.end(&first);
    assert_eq!(set.snapshot(0)[0].in_flight, 1);
    set.end(&second);
    let idle = set.snapshot(0);
    assert_eq!(
        idle.iter()
            .find(|row| row.path == "/hold")
            .unwrap()
            .in_flight,
        0
    );
    assert_eq!(idle[0].path, "/work");
}

#[test]
fn expired_window_drops_endpoint_counts() {
    let mut set = EndpointSet::new();
    set.observe_path("GET", "/work", 0, 4_000_000, 2);
    let expired = set.snapshot(61);
    assert_eq!(expired[0].window_60.requests, 0);
    assert!(expired[0].window_60.p50_ns.is_none());
    assert_eq!(expired[0].window_30.requests, 0);
    assert_eq!(expired[0].in_flight, 0);
}

#[test]
fn evicts_least_recently_used_when_full() {
    let mut set = EndpointSet::new();
    for index in 0..MAX_ENDPOINTS {
        set.observe_path("GET", &format!("/route-{index}"), 0, 1_000_000, 2);
    }
    assert_eq!(set.snapshot(0).len(), MAX_ENDPOINTS);

    // `/route-0` was the oldest; touching it hands the LRU slot to `/route-1`.
    set.observe_path("GET", "/route-0", 0, 1_000_000, 2);
    set.observe_path("GET", "/fresh", 0, 1_000_000, 2);

    let paths: Vec<String> = set.snapshot(0).into_iter().map(|row| row.path).collect();
    assert_eq!(paths.len(), MAX_ENDPOINTS);
    assert!(paths.iter().any(|path| path == "/fresh"));
    assert!(paths.iter().any(|path| path == "/route-0"));
    assert!(!paths.iter().any(|path| path == "/route-1"));
    assert!(!paths.iter().any(|path| path == "/..."));
}

#[test]
fn never_evicts_rows_with_in_flight_requests() {
    let mut set = EndpointSet::new();
    let hold = set.begin("GET", "/hold", 0);
    for index in 0..(MAX_ENDPOINTS * 2) {
        set.observe_path("GET", &format!("/route-{index}"), 0, 1_000_000, 2);
    }

    let rows = set.snapshot(0);
    assert_eq!(rows.len(), MAX_ENDPOINTS);
    let row = rows
        .iter()
        .find(|row| row.path == "/hold")
        .expect("in-flight row survives eviction");
    assert_eq!(row.in_flight, 1);

    set.end(&hold);
    let idle = set.snapshot(0);
    assert_eq!(
        idle.iter().find(|row| row.path == "/hold").unwrap().in_flight,
        0
    );
}

#[test]
fn falls_back_to_overflow_when_every_row_is_in_flight() {
    let mut set = EndpointSet::new();
    for index in 0..MAX_ENDPOINTS {
        let _held = set.begin("GET", &format!("/hold-{index}"), 0);
    }
    let extra = set.begin("GET", "/extra", 0);

    let rows = set.snapshot(0);
    let overflow = rows
        .iter()
        .find(|row| row.path == "/...")
        .expect("overflow row when nothing is evictable");
    assert_eq!(overflow.in_flight, 1);

    set.end(&extra);
    let drained = set.snapshot(0);
    assert_eq!(
        drained.iter().find(|row| row.path == "/...").unwrap().in_flight,
        0
    );
}

#[test]
fn evicts_rows_without_recent_traffic_before_the_lru_row() {
    let mut set = EndpointSet::new();
    set.observe_path("GET", "/stale", 0, 1_000_000, 2);
    for index in 0..(MAX_ENDPOINTS - 1) {
        set.observe_path("GET", &format!("/route-{index}"), 61, 1_000_000, 2);
    }
    assert_eq!(set.snapshot(61).len(), MAX_ENDPOINTS);

    // `begin`/`end` refresh the LRU position without recording a request, so
    // `/stale` is now the most recently used row yet still has an empty window.
    let stale = set.begin("GET", "/stale", 61);
    set.end(&stale);
    set.observe_path("GET", "/fresh", 61, 1_000_000, 2);

    let paths: Vec<String> = set.snapshot(61).into_iter().map(|row| row.path).collect();
    assert_eq!(paths.len(), MAX_ENDPOINTS);
    assert!(paths.iter().any(|path| path == "/fresh"));
    assert!(!paths.iter().any(|path| path == "/stale"));
    // The true LRU row survives because a cold row outranks it for eviction.
    assert!(paths.iter().any(|path| path == "/route-0"));
}

#[test]
fn routes_stay_bounded_beside_the_shared_row() {
    let mut set = EndpointSet::new();
    let mut held = Vec::new();
    for index in 0..MAX_ENDPOINTS {
        held.push(set.begin("GET", &format!("/hold-{index}"), 0));
    }
    let shared = set.begin("GET", "/extra", 0);
    assert_eq!(set.snapshot(0).len(), MAX_ENDPOINTS + 1);
    set.end(&shared);
    for handle in held.iter().take(3) {
        set.end(handle);
    }
    for index in 0..10 {
        set.observe_path("GET", &format!("/new-{index}"), 0, 1_000, 2);
    }
    let rows = set.snapshot(0);
    let routes = rows.iter().filter(|row| row.path != "/...").count();
    assert!(routes <= MAX_ENDPOINTS, "{routes} routes");
    assert!(rows.len() <= MAX_ENDPOINTS + 1);
}

#[test]
fn ending_undoes_beginning() {
    let mut set = EndpointSet::new();
    set.observe_path("GET", "/a", 0, 10, 2);
    let handle = set.begin("GET", "/a", 0);
    set.end(&handle);
    set.end(&handle);
    let rows = set.snapshot(0);
    assert_eq!(rows.len(), 1);
    assert_eq!(rows[0].in_flight, 0);
    assert_eq!(rows[0].window_60.requests, 1);
    assert_eq!(set.created(), 1);
}

#[test]
fn requests_of_evicted_rows_are_gone() {
    let mut set = EndpointSet::new();
    let handle = set.begin("GET", "/old", 0);
    set.end(&handle);
    for index in 0..MAX_ENDPOINTS {
        let _ = set.begin("GET", &format!("/hold-{index}"), 0);
    }
    set.observe(&handle, 0, 1_000, 2);
    set.end(&handle);
    assert!(set.snapshot(0).iter().all(|row| row.path != "/old"));
    assert!(set.snapshot(0).iter().all(|row| row.window_60.requests == 0));
    assert!(set.is_readable(0));
}

#[test]
fn ties_are_listed_by_method_and_path() {
    let mut set = EndpointSet::new();
    for (method, path) in [("PUT", "/a"), ("GET", "/b"), ("GET", "/a")] {
        set.observe_path(method, path, 0, 10, 2);
    }
    let rows: Vec<(String, String)> =
        set.snapshot(0).into_iter().map(|row| (row.method, row.path)).collect();
    assert_eq!(
        rows,
        vec![
            ("GET".to_string(), "/a".to_string()),
            ("GET".to_string(), "/b".to_string()),
            ("PUT".to_string(), "/a".to_string()),
        ]
    );
}

#[test]
fn path_names() {
    assert_eq!(normalize_path(""), "/");
    assert_eq!(normalize_path("?x=1"), "/");
    assert_eq!(normalize_path("//a///b/"), "/a/b");
    assert_eq!(normalize_path("/a#part?x"), "/a");
    assert_eq!(
        normalize_path("/f/123e4567-e89b-12d3-a456-426614174000"),
        "/f/:id"
    );
    assert_eq!(normalize_path("/a/:name/b"), "/a/:id/b");
    assert_eq!(normalize_path("/a/:"), "/a/:");
    assert_eq!(normalize_path("/a/{}"), "/a/{}");
    assert_eq!(normalize_path("/deadbeef"), "/:id");
    assert_eq!(normalize_path("/deadbee"), "/deadbee");
    assert_eq!(normalize_path("/v2"), "/v2");
    let long = "x".repeat(100);
    assert_eq!(normalize_path(&format!("/{long}")), format!("/{}", "x".repeat(48)));
    let many = format!("/{long}/{long}/{long}");
    let name = normalize_path(&many);
    assert_eq!(name.len(), MAX_PATH_BYTES);
    assert!(name.starts_with(&format!("/{}/", "x".repeat(48))));
}

#[test]
fn names_end_with_a_whole_character() {
    // The second segment begins at byte 98, so the limit falls between characters.
    let even = format!("/{}/{}", "é".repeat(48), "é".repeat(48));
    assert_eq!(normalize_path(&even), format!("/{}/{}", "é".repeat(48), "é".repeat(15)));
    assert_eq!(normalize_path(&even).len(), MAX_PATH_BYTES);
    // It begins at byte 95, so one character would lie across the limit.
    let across = format!("/a{}/{}", "é".repeat(46), "é".repeat(48));
    assert_eq!(normalize_path(&across), format!("/a{}/{}", "é".repeat(46), "é".repeat(16)));
    assert_eq!(normalize_path(&across).len(), MAX_PATH_BYTES - 1);
    let mut set = EndpointSet::new();
    let handle = set.begin("GET", &across, 0);
    set.end(&handle);
    assert_eq!(set.snapshot(0)[0].path, normalize_path(&across));
}

#[test]
fn names_are_their_own_names() {
    for path in [
        "",
        "/",
        "//a///b/",
        "/users/42/orders/ab12cd34ef56aa00?x=1",
        "/f/123e4567-e89b-12d3-a456-426614174000/{name}/:other",
        "/ä/ö#ü",
    ] {
        let name = normalize_path(path);
        assert_eq!(normalize_path(&name), name);
    }
}

#[test]
fn method_names() {
    assert_eq!(normalize_method(""), "GET");
    assert_eq!(normalize_method("  "), "GET");
    assert_eq!(normalize_method(" delete "), "DELETE");
    assert_eq!(normalize_method("PROPFIND"), "PROPFIND");
    assert_eq!(normalize_method("abcdefghijklmnopqrst"), "ABCDEFGHIJKLMNOP");
}

#[test]
fn known_routes_are_found_in_a_full_table() {
    let mut set = EndpointSet::new();
    let mut places = Vec::new();
    for index in 0..MAX_ENDPOINTS {
        places.push(set.route_metrics("GET", &format!("/route-{index}"), 0));
    }
    assert_eq!(set.route_metrics(" get ", "/route-7?x=1", 0), places[7]);
    assert_eq!(set.snapshot(0).len(), MAX_ENDPOINTS);
    assert_eq!(set.created(), MAX_ENDPOINTS as u64);
    // All rows are cold; the one looked up longest ago makes room.
    set.route_metrics("GET", "/route-0", 0);
    set.route_metrics("GET", "/fresh", 0);
    let paths: Vec<String> = set.snapshot(0).into_iter().map(|row| row.path).collect();
    assert!(paths.iter().any(|path| path == "/route-0"));
    assert!(paths.iter().any(|path| path == "/route-7"));
    assert!(!paths.iter().any(|path| path == "/route-1"));
}

#[test]
fn rows_cool_after_a_minute() {
    let evicted_at = |tick: u64| {
        let mut set = EndpointSet::new();
        set.observe_path("GET", "/warm", 100, 10, 2);
        // Looked up later than every other row, and counted long ago.
        for index in 0..MAX_ENDPOINTS - 1 {
            set.observe_path("GET", &format!("/route-{index}"), tick, 10, 2);
        }
        set.route_metrics("GET", "/warm", tick);
        set.route_metrics("GET", "/new", tick);
        set.snapshot(tick).iter().all(|row| row.path != "/warm")
    };
    assert!(!evicted_at(159));
    assert!(evicted_at(160));
}

#[test]
fn listings_of_one_table_are_equal() {
    let mut set = EndpointSet::new();
    for index in 0..40u64 {
        set.observe_path("GET", &format!("/r-{}", index % 7), 3, index, (index % 5) as u8);
    }
    let _held = set.begin("PUT", "/r-3", 3);
    let first: Vec<String> = set.snapshot(4).iter().map(|row| format!("{row:?}")).collect();
    let second: Vec<String> = set.snapshot(4).iter().map(|row| format!("{row:?}")).collect();
    assert_eq!(first, second);
}

use axum_sentinel_monitor::config::{valid_favicon_url, DEFAULT_ROUTE, DEFAULT_TITLE};
use axum_sentinel_monitor::{Config, HTTP_WINDOW, MIN_REFRESH};

#[test]
fn clamps_refresh_and_rejects_unsafe_favicon() {
    let config = Config {
        refresh: 200 * 1_000_000,
        favicon_url: "javascript:alert(1)".into(),
        route: "status".into(),
        ..Config::default()
    }
    .normalized();
    assert_eq!(config.refresh, MIN_REFRESH);
    assert!(config.favicon_url.is_empty());
    assert_eq!(config.route, "/status");
}

#[test]
fn default_configuration_is_documented() {
    let config = Config::default();
    assert_eq!(config.title, "Axum Sentinel Monitor");
    assert_eq!(
        config.description,
        "Live process, runtime, system, and HTTP metrics for this Axum service."
    );
    assert_eq!(config.footer, "Powered by axum-sentinel-monitor.");
    assert_eq!(config.favicon_url, "");
    assert_eq!(config.refresh, 3_000_000_000);
    assert!(!config.api_only);
    assert_eq!(config.custom_head, "");
    assert!(config.font_url.contains("Roboto"));
    assert!(config.chart_js_url.contains("chart.js@2.9"));
    assert_eq!(config.route, "/monitor");
    assert_eq!(HTTP_WINDOW, 60_000_000_000);
    assert_eq!(Config::MIN_REFRESH, 1_000_000_000);
}

#[test]
fn empty_fields_get_defaults() {
    let config = Config {
        title: String::new(),
        description: String::new(),
        footer: String::new(),
        favicon_url: String::new(),
        refresh: 0,
        api_only: true,
        custom_head: "<b>".into(),
        font_url: String::new(),
        chart_js_url: String::new(),
        route: String::new(),
    }
    .normalized();
    assert_eq!(config.title, DEFAULT_TITLE);
    assert!(!config.description.is_empty());
    assert!(!config.footer.is_empty());
    assert_eq!(config.refresh, 3_000_000_000);
    assert_eq!(config.route, DEFAULT_ROUTE);
    assert_eq!(config.custom_head, "<b>");
    assert_eq!(config.font_url, "");
    assert!(config.api_only);
}

#[test]
fn refresh_of_a_second_and_more_is_kept() {
    for refresh in [1_000_000_000u128, 1_000_000_001, 90_000_000_000] {
        let config = Config { refresh, ..Config::default() }.normalized();
        assert_eq!(config.refresh, refresh);
    }
    let config = Config { refresh: 999_999_999, ..Config::default() }.normalized();
    assert_eq!(config.refresh, 1_000_000_000);
}

#[test]
fn normalizing_twice_is_normalizing_once() {
    let once = Config {
        title: "A".into(),
        route: "a/b".into(),
        refresh: 5,
        favicon_url: " /icon.svg ".into(),
        ..Config::default()
    }
    .normalized();
    let twice = once.clone().normalized();
    assert_eq!(once.title, twice.title);
    assert_eq!(once.route, twice.route);
    assert_eq!(once.route, "/a/b");
    assert_eq!(once.refresh, twice.refresh);
    assert_eq!(once.favicon_url, twice.favicon_url);
    assert_eq!(once.favicon_url, " /icon.svg ");
}

#[test]
fn favicon_urls() {
    for good in [
        "/",
        "/favicon.ico",
        "  /favicon.ico",
        "http://example.com",
        "https://example.com/icon.png?x=1",
        "HTTPS://EXAMPLE.COM",
        "https://host#part",
        "\u{3000}/wide",
    ] {
        assert!(valid_favicon_url(good), "{good}");
    }
    for bad in [
        "",
        "favicon.ico",
        "//example.com/icon",
        "/\\example.com",
        "javascript:alert(1)",
        "ftp://example.com",
        "https://",
        "https:///path",
        "https://?x",
        "https://user@example.com/",
        "://example.com",
        "data:image/png;base64,AAAA",
    ] {
        assert!(!valid_favicon_url(bad), "{bad}");
    }
    // Credentials count in the host only.
    assert!(valid_favicon_url("https://example.com/@user"));
}

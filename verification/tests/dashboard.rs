use axum_sentinel_monitor::dashboard::{escape_html, render, DEFAULT_FAVICON};
use axum_sentinel_monitor::Config;

fn escape(text: &str) -> String {
    let chars: Vec<char> = text.chars().collect();
    escape_html(&chars).into_iter().collect()
}

#[test]
fn escapes_title_and_ignores_custom_head() {
    let config = Config {
        title: "<unsafe>".into(),
        custom_head: "<meta name=\"x\">".into(),
        ..Config::default()
    };
    let html = render(&config, 1, false);
    assert!(html.contains("&lt;unsafe&gt;"));
    assert!(!html.contains("<title><unsafe></title>"));
    assert!(!html.contains("<meta name=\"x\">"));
    assert!(!html.contains("Chart.js"));
    assert!(html.contains("Process"));
    assert!(html.contains("Runtime"));
    assert!(html.contains("System"));
    assert!(html.contains("Endpoints"));
    assert!(html.contains("data-filter=\"all\""));
    assert!(html.contains("Success"));
    assert!(html.contains("Redirect"));
    assert!(html.contains("endpoint-live"));
    assert!(html.contains("endpoint-stats"));
    assert!(html.contains(">P50<"));
    assert!(html.contains(">P95<"));
    assert!(html.contains(">P99<"));
    assert!(html.contains(">P999<"));
    assert!(html.contains(">30s<"));
    assert!(html.contains(">60s<"));
    assert!(!html.contains("data-samples=\"90\""));
    assert!(!html.contains("Location"));
    assert!(!html.contains("Day of week"));
    assert!(html.contains("data-theme=\"dark\""));
    assert!(html.contains("--bg: #0d1117"));
}

#[test]
fn every_placeholder_is_filled() {
    let config = Config {
        title: "T & T".into(),
        description: "says \"hi\"".into(),
        footer: "it's".into(),
        favicon_url: "/icon?a=1&b=2".into(),
        refresh: 2_500_000_000,
        ..Config::default()
    };
    let html = render(&config, 4711, false);
    assert!(!html.contains("__MONITOR_"));
    assert!(html.contains("<title>T &amp; T</title>"));
    assert!(html.contains("says &quot;hi&quot;"));
    assert!(html.contains("it&#39;s"));
    assert!(html.contains("href=\"/icon?a=1&amp;b=2\""));
    assert!(html.contains("Number(\"2500\")"));
    assert!(html.contains("PID 4711"));
    assert!(html.contains("<dt>FDs</dt>"));
    assert!(render(&config, 4711, true).contains("<dt>Handles</dt>"));
}

#[test]
fn default_icon_is_built_in() {
    let html = render(&Config::default(), 1, false);
    assert!(html.contains(DEFAULT_FAVICON));
}

#[test]
fn polling_interval_is_clamped() {
    let at = |refresh: u128| {
        let config = Config { refresh, ..Config::default() };
        render(&config, 1, false)
    };
    assert!(at(0).contains("Number(\"1000\")"));
    assert!(at(999_999_999).contains("Number(\"1000\")"));
    assert!(at(1_001_000_000).contains("Number(\"1001\")"));
    assert!(at(u128::MAX).contains("Number(\"2147483647\")"));
}

#[test]
fn text_is_escaped_once() {
    assert_eq!(escape("<a href='x'>\"&\"</a>"), "&lt;a href=&#39;x&#39;&gt;&quot;&amp;&quot;&lt;/a&gt;");
    assert_eq!(escape("&lt;"), "&amp;lt;");
    assert_eq!(escape("plain text"), "plain text");
    assert_eq!(escape(""), "");
}

#[test]
fn placeholders_in_texts_are_filled_in_turn() {
    let config = Config { title: "pid __MONITOR_PID__".into(), ..Config::default() };
    assert!(render(&config, 17, false).contains("<title>pid 17</title>"));
}

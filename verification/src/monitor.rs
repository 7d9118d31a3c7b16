//! The monitor of a service.

use vstd::prelude::*;

use crate::config;
use crate::config::Config;
use crate::dashboard;
use crate::dashboard::render;
use crate::http_stats;
use crate::readings::Reading;
use crate::shared;
use crate::shared::{SharedState, SharedStats};
use crate::snapshot::Snapshot;
use crate::stats;
use crate::stats::StartedRequest;
use crate::text::{chars_of, eq_chars};

verus! {

pub const JSON_REPLY_TYPE: &'static str = "application/json; charset=utf-8";

pub const HTML_REPLY_TYPE: &'static str = "text/html; charset=utf-8";

/// A header of a reply.
#[derive(Debug)]
pub struct Header {
    pub name: &'static str,
    pub value: &'static str,
}

/// What a reply holds.
#[derive(Debug)]
pub enum ReplyBody {
    Empty,
    /// The current snapshot.
    Snapshot,
    /// The dashboard.
    Page(String),
}

/// The reply to a request for the monitor. The headers replace any of the same
/// name that come with the body.
#[derive(Debug)]
pub struct Reply {
    pub status: u16,
    pub headers: Vec<Header>,
    pub body: ReplyBody,
}

/// Names and values of headers.
pub open spec fn header_pairs(headers: Seq<Header>) -> Seq<(Seq<char>, Seq<char>)> {
    Seq::new(headers.len(), |i: int| (headers[i].name@, headers[i].value@))
}

/// The headers of a served reply.
pub open spec fn served_headers(json: bool) -> Seq<(Seq<char>, Seq<char>)> {
    seq![
        (
            "content-type"@,
            if json {
                JSON_REPLY_TYPE@
            } else {
                HTML_REPLY_TYPE@
            },
        ),
        ("cache-control"@, "no-store"@),
        ("x-content-type-options"@, "nosniff"@),
    ]
}

impl Reply {
    /// Whether this is the reply to a request that was made with `method`, to a
    /// monitor of a configuration. `prefers_json` tells what the client prefers.
    pub open spec fn answers(
        &self,
        method: Seq<char>,
        prefers_json: bool,
        config: Config,
        pid: u32,
        windows: bool,
    ) -> bool {
        if method != "GET"@ {
            &&& self.status == 405
            &&& header_pairs(self.headers@) == seq![("allow"@, "GET"@)]
            &&& self.body is Empty
        } else {
            let json = config.api_only || prefers_json;
            &&& self.status == 200
            &&& header_pairs(self.headers@) == served_headers(json)
            &&& json ==> self.body is Snapshot
            &&& !json ==> (self.body matches ReplyBody::Page(html) && html@ == dashboard::page_of(
                config,
                pid,
                windows,
            ))
        }
    }
}

/// Configuration and metrics of a service.
pub struct Monitor {
    config: Config,
    stats: SharedStats,
}

impl Monitor {
    /// The configuration.
    pub closed spec fn settings(&self) -> Config {
        self.config
    }

    /// The metrics.
    pub closed spec fn view(&self) -> SharedState {
        self.stats@
    }

    pub closed spec fn wf(&self) -> bool {
        self.stats.wf()
    }

    /// Creates a monitor. Snapshots are collected on demand and shared for the
    /// refresh interval.
    pub fn new(config: Config) -> (monitor: Self)
        ensures
            monitor.wf(),
            monitor.settings().normalizes(config),
            monitor@ == shared::fresh_stats(monitor.settings().refresh),
    {
        let config = config.normalized();
        let stats = SharedStats::new(config.refresh);
        Monitor { config, stats }
    }

    /// The normalized configuration.
    pub fn config(&self) -> (config: &Config)
        ensures
            *config == self.settings(),
    {
        &self.config
    }

    /// Decides on a request to the service that begins in second `tick`. One to
    /// the monitor's own route is not counted; any other begins on its route.
    pub fn on_request(&mut self, method: &str, path: &str, tick: u64) -> (request: Option<
        StartedRequest,
    >)
        requires
            old(self).wf(),
            path@ != old(self).settings().route@ ==> old(self)@.http.requests < u64::MAX,
        ensures
            final(self).wf(),
            final(self).settings() == old(self).settings(),
            request is None <==> path@ == old(self).settings().route@,
            request is None ==> final(self)@ == old(self)@,
            request matches Some(r) ==> {
                &&& final(self)@ == (SharedState {
                    http: stats::started(old(self)@.http, method@, path@, tick),
                    ..old(self)@
                })
                &&& r.number() == final(self)@.http.requests
                &&& r.id() == final(self)@.http.table.rows[stats::started_at(
                    old(self)@.http,
                    method@,
                    path@,
                    tick,
                )].id
            },
    {
        self.stats.on_request(self.config.route.as_str(), method, path, tick)
    }

    /// Counts a begun request that took `elapsed` nanoseconds and finished in
    /// second `tick`, with a status or without a response.
    pub fn on_response(
        &mut self,
        request: &StartedRequest,
        elapsed: u128,
        status: Option<u16>,
        tick: u64,
    )
        requires
            old(self).wf(),
        ensures
            final(self).wf(),
            final(self).settings() == old(self).settings(),
            final(self)@ == (SharedState {
                http: stats::completed(
                    old(self)@.http,
                    request.id(),
                    elapsed,
                    match status {
                        Some(code) => code,
                        None => stats::FAILED_STATUS,
                    },
                    tick,
                ),
                ..old(self)@
            }),
    {
        self.stats.on_response(request, elapsed, status, tick);
    }

    /// Ends a begun request, finished or not.
    pub fn on_release(&mut self, request: &StartedRequest)
        requires
            old(self).wf(),
        ensures
            final(self).wf(),
            final(self).settings() == old(self).settings(),
            final(self)@ == (SharedState {
                http: stats::released(old(self)@.http, request.id()),
                ..old(self)@
            }),
    {
        self.stats.on_release(request);
    }

    /// The metrics with the snapshot that is shared.
    pub fn stats(&self) -> (stats: &SharedStats)
        requires
            self.wf(),
        ensures
            stats.wf(),
            stats@ == self@,
    {
        &self.stats
    }

    /// The snapshot that is shared at time `now`, if one was collected and is not
    /// older than the refresh interval.
    pub fn snapshot(&self, now: u128) -> (snapshot: Option<&Snapshot>)
        ensures
            match snapshot {
                Some(s) => shared::shared_at(self@, now) == Some(*s),
                None => shared::shared_at(self@, now) is None,
            },
    {
        self.stats.snapshot(now)
    }

    /// Collects a snapshot from a reading in second `tick`, at Unix time `unix`,
    /// and shares it from time `cached_at` on.
    pub fn collect(&mut self, reading: Reading, tick: u64, unix: i64, cached_at: u128)
        requires
            old(self).wf(),
            http_stats::can_report(old(self)@.http, tick as int),
        ensures
            final(self).wf(),
            final(self).settings() == old(self).settings(),
            shared::renewed(final(self)@, old(self)@, reading, tick as int, unix, cached_at),
    {
        self.stats.collect(reading, tick, unix, cached_at);
    }

    /// Replies to a request for the monitor that was made with `method`, by a
    /// client that prefers JSON or not.
    pub fn respond(&self, method: &str, prefers_json: bool, pid: u32, windows: bool) -> (reply:
        Reply)
        ensures
            reply.answers(method@, prefers_json, self.settings(), pid, windows),
    {
        let made = chars_of(method);
        let get = chars_of("GET");
        if !eq_chars(made.as_slice(), get.as_slice()) {
            let mut headers: Vec<Header> = Vec::new();
            headers.push(Header { name: "allow", value: "GET" });
            assert(header_pairs(headers@) =~= seq![("allow"@, "GET"@)]);
            return Reply { status: 405, headers, body: ReplyBody::Empty };
        }
        let json: bool = self.config.api_only || prefers_json;
        let body = if json {
            ReplyBody::Snapshot
        } else {
            ReplyBody::Page(render(&self.config, pid, windows))
        };
        let mut headers: Vec<Header> = Vec::new();
        headers.push(
            Header {
                name: "content-type",
                value: if json {
                    JSON_REPLY_TYPE
                } else {
                    HTML_REPLY_TYPE
                },
            },
        );
        headers.push(Header { name: "cache-control", value: "no-store" });
        headers.push(Header { name: "x-content-type-options", value: "nosniff" });
        assert(header_pairs(headers@) =~= served_headers(json));
        Reply { status: 200, headers, body }
    }
}

impl Default for Monitor {
    fn default() -> (monitor: Self)
        ensures
            monitor.wf(),
            monitor.settings().title@ == config::DEFAULT_TITLE@,
            monitor.settings().description@ == config::DEFAULT_DESCRIPTION@,
            monitor.settings().footer@ == config::DEFAULT_FOOTER@,
            monitor.settings().favicon_url@.len() == 0,
            monitor.settings().refresh == config::DEFAULT_REFRESH,
            !monitor.settings().api_only,
            monitor.settings().custom_head@.len() == 0,
            monitor.settings().font_url@ == config::LEGACY_FONT_URL@,
            monitor.settings().chart_js_url@ == config::LEGACY_CHART_JS_URL@,
            monitor.settings().route@ == config::DEFAULT_ROUTE@,
            monitor@ == shared::fresh_stats(config::DEFAULT_REFRESH),
    {
        proof {
            reveal_strlit("/monitor");
            reveal_strlit("Axum Sentinel Monitor");
            reveal_strlit("Live process, runtime, system, and HTTP metrics for this Axum service.");
            reveal_strlit("Powered by axum-sentinel-monitor.");
        }
        Monitor::new(Config::default())
    }
}

/// A request that is not a GET is refused, with the one method that is allowed,
/// and shows nothing.
pub proof fn law_only_get_is_served(
    reply: Reply,
    method: Seq<char>,
    prefers_json: bool,
    config: Config,
    pid: u32,
    windows: bool,
)
    requires
        reply.answers(method, prefers_json, config, pid, windows),
    ensures
        reply.status == 405 <==> method != "GET"@,
        reply.status == 405 ==> reply.body is Empty,
        reply.status != 405 ==> reply.status == 200,
{
}

/// What is served is never stored and never sniffed for its type.
pub proof fn law_replies_are_not_stored(
    reply: Reply,
    prefers_json: bool,
    config: Config,
    pid: u32,
    windows: bool,
)
    requires
        reply.answers("GET"@, prefers_json, config, pid, windows),
    ensures
        header_pairs(reply.headers@).contains(("cache-control"@, "no-store"@)),
        header_pairs(reply.headers@).contains(("x-content-type-options"@, "nosniff"@)),
{
    let pairs = header_pairs(reply.headers@);
    assert(pairs[1] == ("cache-control"@, "no-store"@));
    assert(pairs[2] == ("x-content-type-options"@, "nosniff"@));
}

/// A monitor that serves only its API shows the snapshot to every client.
pub proof fn law_api_only_serves_snapshots(
    reply: Reply,
    prefers_json: bool,
    config: Config,
    pid: u32,
    windows: bool,
)
    requires
        config.api_only,
        reply.answers("GET"@, prefers_json, config, pid, windows),
    ensures
        reply.body is Snapshot,
{
}

/// What the metrics of a service always are, as [`stats::lemma_metrics_wf`] says.
pub proof fn lemma_monitor_wf(monitor: Monitor)
    requires
        monitor.wf(),
    ensures
        monitor@.http.status.len() == 5,
        crate::window::ring_wf(monitor@.http.ring),
        crate::endpoints::table_wf(monitor@.http.table),
        monitor@.http.table.created <= monitor@.http.requests,
        monitor@.http.table.clock <= monitor@.http.requests,
        !monitor@.http.table.overrun,
{
    shared::lemma_shared_wf(monitor.stats);
}

} // verus!

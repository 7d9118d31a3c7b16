//! What the functions of the library return and change, in numbers and texts.

use vstd::prelude::*;

use axum::http::{HeaderMap, HeaderValue};

use crate::collect;
use crate::collect::Collector;
use crate::config::{valid_favicon_url, Config};
use crate::dashboard;
use crate::dashboard::{escape_html, render};
use crate::dashboard_laws;
use crate::endpoint_laws;
use crate::endpoints;
use crate::endpoints::{EndpointSet, EndpointTraffic, RouteHandle};
use crate::headers;
use crate::heap::{allocator_stats, resident_anonymous_bytes, AllocatorStats, HeapReading};
use crate::histogram;
use crate::histogram::{bucket_of, bucket_upper_ns, LatencyHist};
use crate::history_laws;
use crate::http_stats::{collect_http, status_from_counts, window_rates};
use crate::json::{check_type, json_reply, JsonBody, JsonReply, SonicJson, SonicJsonRejection};
use crate::machine_laws;
use crate::media;
use crate::media::{
    accept_ranges, choose_quality, is_json_content_type, is_json_value, prefers_json, read_accept,
    MediaRange,
};
use crate::metrics;
use crate::metrics::{
    next_action, tcp_connection_counts, MetricSample, MetricsState, SamplerAction, SamplerEvent,
    SocketEntry,
};
use crate::monitor;
use crate::monitor::{Monitor, Reply, ReplyBody};
use crate::ratio::{clamp_percent, ByteRate, Figure, Ratio};
use crate::readings;
use crate::readings::{network_rates, network_totals, Reading};
use crate::reply_laws;
use crate::route;
use crate::route::{normalize_method, normalize_path};
use crate::route_laws;
use crate::shared::SharedStats;
use crate::snapshot::{HttpStats, HttpStatusStats, Snapshot};
use crate::stats::{HttpMetrics, StartedRequest};
use crate::sums;
use crate::text;
use crate::traffic_laws;
use crate::traffic_laws::Request;
use crate::window;
use crate::window::{Observation, SlidingWindow, TrafficSnapshot};

verus! {

/// The rendered dashboard holds the texts of its configuration in their places,
/// each escaped and none of them with a placeholder in it.
pub proof fn law_rendered_texts(config: Config, pid: u32, windows: bool, html: String)
    requires
        call_ensures(render, (&config, pid, windows), html),
        dashboard_laws::lacks_placeholders(dashboard::escaped(config.title@)),
        dashboard_laws::lacks_placeholders(dashboard::escaped(config.description@)),
        dashboard_laws::lacks_placeholders(dashboard::escaped(config.footer@)),
    ensures
        dashboard_laws::holds(
            html@,
            "<title>"@ + dashboard::escaped(config.title@) + "</title>"@,
        ),
        dashboard_laws::holds(html@, "<h1>"@ + dashboard::escaped(config.title@) + "</h1>"@),
        dashboard_laws::holds(html@, "<p>"@ + dashboard::escaped(config.description@) + "</p>"@),
        dashboard_laws::holds(
            html@,
            "<footer>"@ + dashboard::escaped(config.footer@) + "</footer>"@,
        ),
        dashboard_laws::holds(
            html@,
            "<small>PID "@ + text::numeral(pid as nat) + "</small>"@,
        ),
{
    dashboard_laws::law_texts_stand_in_their_places(config, pid, windows);
}

/// Escaping one character more of a text appends its escape.
pub proof fn law_escaping_goes_on(short: &[char], long: &[char], a: Vec<char>, b: Vec<char>, c: char)
    requires
        call_ensures(escape_html, (short,), a),
        call_ensures(escape_html, (long,), b),
        long@ == short@.push(c),
    ensures
        c == '&' ==> b@ == a@ + seq!['&', 'a', 'm', 'p', ';'],
        c == '<' ==> b@ == a@ + seq!['&', 'l', 't', ';'],
        c == '>' ==> b@ == a@ + seq!['&', 'g', 't', ';'],
        c == '"' ==> b@ == a@ + seq!['&', 'q', 'u', 'o', 't', ';'],
        c == '\'' ==> b@ == a@ + seq!['&', '#', '3', '9', ';'],
        c != '&' && c != '<' && c != '>' && c != '"' && c != '\'' ==> b@ == a@.push(c),
{
    dashboard_laws::law_characters_are_escaped(short@, c);
    assert(a@.push(c) =~= a@ + seq![c]);
}

/// A path with one more segment is listed under the name of the path without it
/// and the segment, or `:id` where the segment is an identifier or a parameter.
/// The names have at most 128 bytes here.
pub proof fn law_paths_are_named_by_their_segments(
    path: &str,
    longer: &str,
    segment: Seq<char>,
    name: String,
    longer_name: String,
)
    requires
        call_ensures(normalize_path, (path,), name),
        call_ensures(normalize_path, (longer,), longer_name),
        longer@ == path@ + seq!['/'] + segment,
        route_laws::is_plain(path@),
        route_laws::is_plain(segment),
        0 < segment.len() <= 48,
        forall|i: int| 0 <= i < segment.len() ==> #[trigger] segment[i] != '/',
        text::byte_len(name@) + 1 + text::byte_len(segment) + 3 < 125,
    ensures
        ({
            let collapsed = route_laws::written_as_identifier(segment)
                || route_laws::written_as_parameter(segment);
            let last = if collapsed {
                seq![':', 'i', 'd']
            } else {
                segment
            };
            if name@ == seq!['/'] {
                longer_name@ == name@ + last
            } else {
                longer_name@ == name@ + seq!['/'] + last
            }
        }),
{
    let last = route::label(segment);
    route_laws::law_labels(segment);
    route_laws::law_segments_are_appended(path@, segment);
    lemma_bytes(name@, seq!['/']);
    lemma_bytes(name@ + seq!['/'], last);
    lemma_bytes(name@, last);
    lemma_small_bytes();
}

proof fn lemma_bytes(a: Seq<char>, b: Seq<char>)
    ensures
        text::byte_len(a + b) == text::byte_len(a) + text::byte_len(b),
    decreases b.len(),
{
    if b.len() == 0 {
        assert(a + b =~= a);
    } else {
        lemma_bytes(a, b.drop_last());
        assert((a + b).drop_last() =~= a + b.drop_last());
    }
}

proof fn lemma_small_bytes()
    ensures
        text::byte_len(seq!['/']) == 1,
        text::byte_len(seq![':', 'i', 'd']) == 3,
{
    reveal_with_fuel(text::byte_len, 4);
    assert(seq!['/'].drop_last() =~= Seq::<char>::empty());
    assert(seq![':', 'i', 'd'].drop_last() =~= seq![':', 'i']);
    assert(seq![':', 'i'].drop_last() =~= seq![':']);
    assert(seq![':'].drop_last() =~= Seq::<char>::empty());
}

/// A query string or a fragment has no bearing on the name of a path.
pub proof fn law_queries_are_not_listed(
    path: &str,
    longer: &str,
    rest: Seq<char>,
    name: String,
    longer_name: String,
)
    requires
        call_ensures(normalize_path, (path,), name),
        call_ensures(normalize_path, (longer,), longer_name),
        longer@ == path@.push('?') + rest || longer@ == path@.push('#') + rest,
    ensures
        longer_name@ == name@,
        name@.len() > 0,
        name@[0] == '/',
        text::byte_len(name@) <= 128,
{
    route::law_query_is_ignored(path@, '?', rest);
    route::law_query_is_ignored(path@, '#', rest);
    route::law_path_names_are_bare(path@);
}

/// A method is listed in capitals.
pub proof fn law_methods_are_listed_in_capitals(method: &str, name: String, i: int)
    requires
        call_ensures(normalize_method, (method,), name),
        0 < method@.len() <= 16,
        forall|j: int| 0 <= j < method@.len() ==> 'a' <= #[trigger] method@[j] <= 'z',
        0 <= i < method@.len(),
    ensures
        name@.len() == method@.len(),
        method@[i] as u32 - name@[i] as u32 == 32,
{
    assert('a' <= method@[0] <= 'z');
    assert('a' <= method@[method@.len() - 1] <= 'z');
    route_laws::law_methods_are_named_in_capitals(method@);
    assert('a' <= method@[i] <= 'z');
}

/// Metrics begin without traffic.
pub proof fn law_new_metrics_have_served_nothing(http: HttpMetrics)
    requires
        call_ensures(HttpMetrics::new, (), http),
    ensures
        http@ == traffic_laws::served(Seq::empty()),
{
    assert(window::ring_after(Seq::empty()) =~= Seq::new(
        60,
        |i: int| window::fresh_slot(u64::MAX),
    ));
}

/// A request to the skipped path is let through without a trace, and any other is
/// counted as begun: one more request, one more in flight.
pub proof fn law_requests_begin(
    http: &mut HttpMetrics,
    skip_path: &str,
    method: &str,
    path: &str,
    tick: u64,
    request: Option<StartedRequest>,
)
    requires
        call_ensures(HttpMetrics::on_request, (http, skip_path, method, path, tick), request),
        old(http)@.requests < u64::MAX,
        old(http)@.in_flight < u64::MAX,
    ensures
        request is None <==> path@ == skip_path@,
        request is None ==> final(http)@ == old(http)@,
        request matches Some(r) ==> {
            &&& r.number() == old(http)@.requests + 1
            &&& final(http)@.requests == old(http)@.requests + 1
            &&& final(http)@.in_flight == old(http)@.in_flight + 1
            &&& final(http)@.status == old(http)@.status
            &&& final(http)@.ring == old(http)@.ring
        },
{
}

/// A request that is begun, answered and released is served: with its time and
/// its status, 500 where there was no response.
pub proof fn law_requests_are_served(
    a: &mut HttpMetrics,
    b: &mut HttpMetrics,
    c: &mut HttpMetrics,
    skip_path: &str,
    method: &str,
    path: &str,
    begun_at: u64,
    request: StartedRequest,
    elapsed: u128,
    status: Option<u16>,
    finished_at: u64,
)
    requires
        call_ensures(
            HttpMetrics::on_request,
            (a, skip_path, method, path, begun_at),
            Some(request),
        ),
        *old(b) == *final(a),
        call_ensures(HttpMetrics::on_response, (b, &request, elapsed, status, finished_at), ()),
        *old(c) == *final(b),
        call_ensures(HttpMetrics::on_release, (c, &request), ()),
    ensures
        final(c)@ == traffic_laws::served_one(
            old(a)@,
            (Request { method: method@, path: path@, begun_at, elapsed, status, finished_at }),
        ),
{
}

/// The same holds of the requests to a service that a monitor counts. Those to the
/// monitor itself leave no trace.
pub proof fn law_monitored_requests_are_served(
    a: &mut Monitor,
    b: &mut Monitor,
    c: &mut Monitor,
    method: &str,
    path: &str,
    begun_at: u64,
    request: Option<StartedRequest>,
    elapsed: u128,
    status: Option<u16>,
    finished_at: u64,
)
    requires
        call_ensures(Monitor::on_request, (a, method, path, begun_at), request),
        *old(b) == *final(a),
        request matches Some(r) ==> call_ensures(
            Monitor::on_response,
            (b, &r, elapsed, status, finished_at),
            (),
        ),
        *old(c) == *final(b),
        request matches Some(r) ==> call_ensures(Monitor::on_release, (c, &r), ()),
    ensures
        request is None <==> path@ == old(a).settings().route@,
        request is None ==> final(a)@ == old(a)@,
        request is Some ==> {
            &&& final(c)@.http == traffic_laws::served_one(
                old(a)@.http,
                (Request { method: method@, path: path@, begun_at, elapsed, status, finished_at }),
            )
            &&& final(c)@.collector == old(a)@.collector
            &&& final(c)@.cache == old(a)@.cache
            &&& final(c)@.refresh == old(a)@.refresh
            &&& final(c).settings() == old(a).settings()
        },
{
}

/// The report on metrics tells of exactly the requests that were served.
pub proof fn law_reports_tell_what_was_served(
    http: HttpMetrics,
    run: Seq<Request>,
    now: u64,
    unix: i64,
    report: HttpStats,
)
    requires
        call_ensures(collect_http, (&http, now, unix), report),
        http@ == traffic_laws::served(run),
        run.len() < u64::MAX,
        traffic_laws::finished_in_order(run, now as int),
        unix - 59 >= i64::MIN,
    ensures
        report.requests == run.len(),
        report.in_flight == 0,
        report.status.status_2xx == sums::how_many(run, traffic_laws::with_status(200, 300)),
        report.status.status_5xx == sums::how_many(run, traffic_laws::with_status(500, 600)),
        traffic_laws::reports_requests(
            report.windows.secs_60,
            traffic_laws::all_noted(run),
            now as int,
            60,
        ),
        traffic_laws::reports_requests(
            report.windows.secs_30,
            traffic_laws::all_noted(run),
            now as int,
            30,
        ),
        report.latency == report.windows.secs_60.latency,
        report.rps == Some(report.windows.secs_60.rps),
        report.rates == report.windows.secs_60.rates,
{
    traffic_laws::law_report_tells_of_what_was_served(run, report, now, unix);
}

/// A window remembers what it observes.
pub proof fn law_windows_observe(
    fresh: SlidingWindow,
    window: &mut SlidingWindow,
    tick: u64,
    ns: u64,
    status_class: u8,
)
    requires
        call_ensures(SlidingWindow::new, (), fresh),
        call_ensures(SlidingWindow::observe, (window, tick, ns, status_class), ()),
    ensures
        fresh.history().len() == 0,
        fresh.wf(),
        final(window).wf(),
        final(window).history().len() == old(window).history().len() + 1,
        final(window).history().last().tick == tick,
        final(window).history().last().ns == ns,
        final(window).history().last().status_class == status_class,
        final(window).history().drop_last() == old(window).history(),
{
    assert(final(window).history().drop_last() =~= old(window).history());
}

/// What a window tells is what it observed: of the last minute, of the last half
/// of it, and in how many requests there were.
pub proof fn law_windows_tell_what_they_observed(
    window: SlidingWindow,
    now: u64,
    unix: i64,
    traffic: TrafficSnapshot,
    recent: u64,
)
    requires
        call_ensures(SlidingWindow::snapshot, (&window, now, unix), traffic),
        call_ensures(SlidingWindow::recent_requests, (&window, now), recent),
        window.wf(),
        history_laws::in_order(window.history()),
        history_laws::ended_by(window.history(), now as int),
        window.history().len() <= u64::MAX,
        unix - 59 >= i64::MIN,
    ensures
        traffic_laws::describes(traffic.window_60, window.history(), now as int, 60),
        traffic_laws::describes(traffic.window_30, window.history(), now as int, 30),
        recent == sums::how_many(
            window.history(),
            |o: Observation| now - 60 < o.tick && o.tick <= now,
        ),
        recent == traffic.window_60.requests,
{
    traffic_laws::law_window_describes_its_requests(window, traffic, now, unix);
    let within = |o: Observation| now - 60 < o.tick && o.tick <= now;
    let some = traffic_laws::lately(now as int, 60);
    assert forall|i: int| 0 <= i < window.history().len() implies some(
        #[trigger] window.history()[i],
    ) == within(window.history()[i]) by {}
    sums::lemma_how_many_matched(window.history(), window.history(), some, within);
}

/// Every latency from a nanosecond to a minute is reported within an eighth of
/// itself, never too short; a longer one as a minute.
pub proof fn law_latencies_are_reported_closely(ns: u64, index: usize, reported: u64)
    requires
        call_ensures(bucket_of, (ns,), index),
        call_ensures(bucket_upper_ns, (index,), reported),
    ensures
        1 <= ns <= 60_000_000_000 ==> ns <= reported && 8 * (reported - ns) <= ns,
        ns > 60_000_000_000 ==> reported == 60_000_000_000,
        index < 272,
{
    histogram::law_reported_latency_is_close(ns as int, index as int);
}

/// A percentile of a histogram is the latency of the bucket up to which that share
/// of the samples lies, and not the one before.
pub proof fn law_percentiles_split_the_samples(
    hist: LatencyHist,
    permille: u32,
    latency: Option<u64>,
) -> (index: int)
    requires
        call_ensures(LatencyHist::percentile, (&hist, permille), latency),
        hist.wf(),
        0 < permille <= 1000,
        sums::total(hist@) > 0,
    ensures
        0 <= index < 272,
        latency matches Some(ns) && ns == histogram::bucket_top(index),
        1000 * sums::total(hist@.take(index + 1)) >= permille * sums::total(hist@),
        1000 * sums::total(hist@.take(index)) < permille * sums::total(hist@),
{
    histogram::lemma_hist_wf(hist);
    let index = histogram::law_percentile_covers_its_share(hist@, permille as nat);
    histogram::lemma_top_near_low(index);
    index
}

/// Counts by status class are named by their class, and of the rates the first is
/// that of client errors and the second that of server errors.
pub proof fn law_counts_are_named(
    counts: [u64; 5],
    requests: u64,
    named: HttpStatusStats,
    rates: (Option<Ratio>, Option<Ratio>),
)
    requires
        call_ensures(status_from_counts, (counts,), named),
        call_ensures(window_rates, (&counts, requests), rates),
    ensures
        named.status_1xx == counts@[0],
        named.status_2xx == counts@[1],
        named.status_3xx == counts@[2],
        named.status_4xx == counts@[3],
        named.status_5xx == counts@[4],
        requests == 0 ==> rates.0 is None && rates.1 is None,
        requests > 0 ==> {
            &&& rates.0 matches Some(rate) && rate.numerator == counts@[3] && rate.denominator
                == requests
            &&& rates.1 matches Some(rate) && rate.numerator == counts@[4] && rate.denominator
                == requests
        },
{
}

/// Requests are begun, counted and ended on the route that their method and path
/// name, and listed once for each route, the busiest first.
pub proof fn law_routes_are_kept_by_name(
    a: &mut EndpointSet,
    b: &mut EndpointSet,
    c: &mut EndpointSet,
    method: &str,
    path: &str,
    tick: u64,
    handle: RouteHandle,
    ns: u64,
    status_class: u8,
    list: Vec<EndpointTraffic>,
    now: u64,
)
    requires
        call_ensures(EndpointSet::begin, (a, method, path, tick), handle),
        call_ensures(EndpointSet::observe, (b, &handle, tick, ns, status_class), ()),
        call_ensures(EndpointSet::end, (c, &handle), ()),
        call_ensures(EndpointSet::snapshot, (&*old(a), now), list),
    ensures
        final(a)@ == endpoints::begun(
            old(a)@,
            route::method_name(method@),
            route::path_name(path@),
            tick as int,
        ),
        handle.id() == final(a)@.rows[endpoints::assigned_at(
            old(a)@,
            route::method_name(method@),
            route::path_name(path@),
            tick as int,
        )].id,
        final(b)@ == endpoints::counted_in(old(b)@, handle.id(), tick, ns, status_class),
        final(c)@ == endpoints::ended(old(c)@, handle.id()),
        list@.len() == old(a)@.rows.len(),
        forall|i: int, j: int|
            #![trigger list@[i], list@[j]]
            0 <= i < j < list@.len() ==> list@[i].in_flight >= list@[j].in_flight && (
            list@[i].in_flight == list@[j].in_flight ==> list@[i].window_60.requests
                >= list@[j].window_60.requests),
{
    assert forall|i: int, j: int|
        #![trigger list@[i], list@[j]]
        0 <= i < j < list@.len() implies list@[i].in_flight >= list@[j].in_flight && (
    list@[i].in_flight == list@[j].in_flight ==> list@[i].window_60.requests
        >= list@[j].window_60.requests) by {
        assert(endpoints::listed_before(list@[i], list@[j]));
    }
}

/// A collected snapshot has the machine's figures as they were read.
#[verifier::rlimit(40)]
pub proof fn law_snapshots_are_as_read(
    collector: &mut Collector,
    reading: Reading,
    http: HttpMetrics,
    tick: u64,
    unix: i64,
    snapshot: Snapshot,
)
    requires
        call_ensures(Collector::collect, (collector, reading, &http, tick, unix), snapshot),
    ensures
        snapshot.collected_at == reading.collected_at,
        snapshot.process.uptime_seconds == reading.uptime_seconds,
        reading.process matches Some(found) ==> snapshot.process.rss_bytes == Some(
            found.rss_bytes,
        ),
        reading.system.memory_total > 0 ==> {
            &&& snapshot.system.memory_used_bytes == Some(reading.system.memory_used)
            &&& snapshot.system.memory_total_bytes == Some(reading.system.memory_total)
            &&& snapshot.system.memory_available_bytes == Some(reading.system.memory_available)
            &&& snapshot.system.memory_used_percent matches Some(share) && share.numerator
                == reading.system.memory_used && share.denominator == reading.system.memory_total
        },
        reading.system.load matches Some(load) ==> {
            &&& snapshot.system.load1 == Some(load.one)
            &&& snapshot.system.load5 == Some(load.five)
            &&& snapshot.system.load15 == Some(load.fifteen)
        },
        snapshot.collection.partial <==> snapshot.collection.errors@.len() > 0,
        snapshot.http.reports(http@, tick as int, unix),
        final(collector)@ == collect::collected(old(collector)@, reading),
        collect::shows_reading(snapshot, old(collector)@, reading),
{
    machine_laws::law_memory_is_as_read(snapshot, old(collector)@, reading);
    machine_laws::law_load_is_as_read(snapshot, old(collector)@, reading);
    machine_laws::law_process_is_as_read(snapshot, old(collector)@, reading);
    machine_laws::law_errors_name_what_is_missing(snapshot, old(collector)@, reading);
}

/// A snapshot is shared until the refresh interval has passed since it was kept.
pub proof fn law_monitors_share_snapshots<'a>(
    monitor: &'a Monitor,
    now: u128,
    snapshot: Option<&'a Snapshot>,
)
    requires
        call_ensures(Monitor::snapshot, (monitor, now), snapshot),
    ensures
        monitor@.cache is None ==> snapshot is None,
        monitor@.cache matches Some(entry) ==> now >= entry.cached_at ==> (snapshot is Some <==> now
            - entry.cached_at < monitor@.refresh),
        monitor@.cache matches Some(entry) ==> (snapshot matches Some(s) ==> *s == entry.snapshot),
{
}

/// A snapshot that a monitor collects is kept, and tells of the requests so far.
pub proof fn law_monitors_keep_snapshots(
    monitor: &mut Monitor,
    reading: Reading,
    tick: u64,
    unix: i64,
    cached_at: u128,
)
    requires
        call_ensures(Monitor::collect, (monitor, reading, tick, unix, cached_at), ()),
    ensures
        final(monitor)@.http == old(monitor)@.http,
        final(monitor)@.refresh == old(monitor)@.refresh,
        final(monitor).settings() == old(monitor).settings(),
        final(monitor)@.cache matches Some(entry) && entry.cached_at == cached_at
            && entry.snapshot.http.requests == old(monitor)@.http.requests
            && entry.snapshot.http.in_flight == old(monitor)@.http.in_flight
            && entry.snapshot.collected_at == reading.collected_at,
{
}

/// A monitor takes over its configuration with what is empty filled in, and shares
/// snapshots for its refresh interval.
pub proof fn law_monitors_are_configured(given: Config, monitor: Monitor, config: Config)
    requires
        call_ensures(Monitor::new, (given,), monitor),
        call_ensures(Config::normalized, (given,), config),
    ensures
        given.title@.len() > 0 ==> monitor.settings().title@ == given.title@,
        given.title@.len() == 0 ==> monitor.settings().title@ == "Axum Sentinel Monitor"@,
        given.refresh >= 1_000_000_000 ==> monitor@.refresh == given.refresh,
        given.refresh == 0 ==> monitor@.refresh == 3_000_000_000,
        0 < given.refresh < 1_000_000_000 ==> monitor@.refresh == 1_000_000_000,
        monitor.settings().api_only == given.api_only,
        given.route@.len() == 0 ==> monitor.settings().route@ == "/monitor"@,
        given.route@.len() > 0 && given.route@[0] == '/' ==> monitor.settings().route@
            == given.route@,
        config.title@ == monitor.settings().title@,
        config.description@ == monitor.settings().description@,
        config.footer@ == monitor.settings().footer@,
        config.favicon_url@ == monitor.settings().favicon_url@,
        config.refresh == monitor.settings().refresh,
        config.route@ == monitor.settings().route@,
        monitor@.cache is None,
        monitor@.http == traffic_laws::served(Seq::empty()),
{
    reply_laws::law_configuration_is_filled_in(given, monitor.settings());
    reply_laws::law_configuration_is_filled_in(given, config);
    assert(window::ring_after(Seq::empty()) =~= Seq::new(
        60,
        |i: int| window::fresh_slot(u64::MAX),
    ));
}

/// An icon is valid exactly where normalizing keeps it.
pub proof fn law_valid_icons_are_kept(raw: &str, valid: bool, given: Config, config: Config)
    requires
        call_ensures(valid_favicon_url, (raw,), valid),
        call_ensures(Config::normalized, (given,), config),
        given.favicon_url@ == raw@,
    ensures
        valid ==> config.favicon_url@ == raw@,
        !valid ==> config.favicon_url@.len() == 0,
{
}

/// A monitor replies to a `GET` with JSON where the client prefers it or nothing
/// else is served, with the dashboard otherwise, and refuses any other method.
pub proof fn law_monitors_reply(
    monitor: Monitor,
    method: &str,
    prefers: bool,
    pid: u32,
    windows: bool,
    reply: Reply,
)
    requires
        call_ensures(Monitor::respond, (&monitor, method, prefers, pid, windows), reply),
    ensures
        method@ != seq!['G', 'E', 'T'] ==> reply.status == 405 && reply.body is Empty
            && monitor::header_pairs(reply.headers@) == seq![("allow"@, "GET"@)],
        method@ == seq!['G', 'E', 'T'] ==> {
            let json = monitor.settings().api_only || prefers;
            &&& reply.status == 200
            &&& json <==> reply.body is Snapshot
            &&& !json <==> reply.body is Page
            &&& json ==> monitor::header_pairs(reply.headers@)[0] == (
                "content-type"@,
                "application/json; charset=utf-8"@,
            )
            &&& !json ==> monitor::header_pairs(reply.headers@)[0] == (
                "content-type"@,
                "text/html; charset=utf-8"@,
            )
            &&& monitor::header_pairs(reply.headers@)[1] == ("cache-control"@, "no-store"@)
            &&& reply.body matches ReplyBody::Page(html) ==> html@ == dashboard::page_of(
                monitor.settings(),
                pid,
                windows,
            )
        },
{
    reply_laws::law_reply_suits_the_client(
        reply,
        method@,
        prefers,
        monitor.settings(),
        pid,
        windows,
    );
}

/// A document is given with status 200 as JSON, a failure to write one with status
/// 500 as plain text.
pub proof fn law_documents_are_replied(serialized: Result<Vec<u8>, String>, reply: JsonReply)
    requires
        call_ensures(json_reply, (serialized,), reply),
    ensures
        match serialized {
            Ok(bytes) => {
                &&& reply.status == 200
                &&& reply.content_type@ == "application/json"@
                &&& reply.body == JsonBody::Document(bytes)
            },
            Err(error) => {
                &&& reply.status == 500
                &&& reply.content_type@ == "text/plain; charset=utf-8"@
                &&& reply.body == JsonBody::Message(error)
            },
        },
{
}

/// A rejected request is replied with status 415 where its type is not JSON, else
/// with status 400, and with its message as plain text.
pub proof fn law_rejections_are_replied(
    rejection: SonicJsonRejection,
    status: u16,
    message: String,
    reply: JsonReply,
)
    requires
        call_ensures(SonicJsonRejection::status, (&rejection,), status),
        call_ensures(SonicJsonRejection::message, (&rejection,), message),
        call_ensures(SonicJsonRejection::reply, (&rejection,), reply),
    ensures
        rejection is MissingContentType ==> status == 415,
        rejection is Body || rejection is InvalidJson ==> status == 400,
        rejection matches SonicJsonRejection::Body(error) ==> message@
            == "failed to read JSON body: "@ + error@,
        rejection matches SonicJsonRejection::InvalidJson(error) ==> message@ == "invalid JSON: "@
            + error@,
        reply.status == status,
        reply.content_type@ == "text/plain; charset=utf-8"@,
        reply.body matches JsonBody::Message(told) && told@ == message@,
{
    reply_laws::law_rejections_are_explained(rejection);
}

/// A body that was read and parsed gives its value, one that was not read or not
/// parsed its own rejection.
pub proof fn law_bodies_are_taken<T>(
    body: Result<Result<T, String>, String>,
    value: Result<SonicJson<T>, SonicJsonRejection>,
)
    requires
        call_ensures(SonicJson::<T>::from_body, (body,), value),
    ensures
        body matches Ok(Ok(parsed)) ==> (value matches Ok(json) && json.0 == parsed),
        body matches Ok(Err(error)) ==> value == Err::<SonicJson<T>, SonicJsonRejection>(
            SonicJsonRejection::InvalidJson(error),
        ),
        body matches Err(error) ==> value == Err::<SonicJson<T>, SonicJsonRejection>(
            SonicJsonRejection::Body(error),
        ),
{
}

/// A request is taken for JSON exactly where the first value of its `Content-Type`
/// header is a JSON type, and what a client accepts is read from the first value
/// of its `Accept` header.
pub proof fn law_headers_are_read_by_name(
    headers: HeaderMap<HeaderValue>,
    yes: bool,
    checked: Result<(), SonicJsonRejection>,
    ranges: Vec<MediaRange>,
)
    requires
        call_ensures(is_json_content_type, (&headers,), yes),
        call_ensures(check_type, (&headers,), checked),
        call_ensures(accept_ranges, (&headers,), ranges),
    ensures
        yes == media::tells_json(headers::value_of(headers, "content-type"@)),
        checked is Ok <==> yes,
        checked matches Err(rejection) ==> rejection is MissingContentType,
        media::range_views(ranges@) == media::accepted(headers::value_of(headers, "accept"@)),
{
}

/// A client prefers JSON as its ranges and their qualities tell, and its ranges are
/// those that its header value lists.
pub proof fn law_preferences_are_read(
    value: Option<Vec<u8>>,
    ranges: Vec<MediaRange>,
    values: Vec<Vec<Option<u32>>>,
    json: bool,
    i: int,
    quality: u32,
    typed: bool,
)
    requires
        call_ensures(read_accept, (&value,), ranges),
        call_ensures(prefers_json, (&ranges, &values), json),
        0 <= i < values@.len(),
        call_ensures(choose_quality, (&values@[i],), quality),
        call_ensures(is_json_value, (&value,), typed),
    ensures
        media::range_views(ranges@) == media::accepted(headers::bytes_in(value)),
        json == media::wants_json(media::range_views(ranges@), media::quality_list(values@)),
        quality == media::quality_list(values@)[i],
        value is None ==> ranges@.len() == 0 && !typed,
        typed == media::tells_json(headers::bytes_in(value)),
{
    if value is None {
        assert(media::range_views(ranges@).len() == 0);
    }
}

/// Metrics show what was sampled, the number of requests in digits, and the time
/// since the start where no uptime was sampled.
pub proof fn law_sampled_metrics_are_shown(
    fresh: MetricsState,
    state: &mut MetricsState,
    sample: MetricSample,
    shown: metrics::Snapshot,
    elapsed_secs: u64,
)
    requires
        call_ensures(MetricsState::new, (), fresh),
        call_ensures(MetricsState::apply, (state, sample), ()),
        call_ensures(MetricsState::snapshot, (&*final(state), elapsed_secs), shown),
    ensures
        fresh@.requests == 0,
        fresh@.sampled.process_uptime == 0,
        sample.process_cpu is Some ==> shown.pid.cpu == sample.process_cpu->0,
        sample.process_ram is Some ==> shown.pid.ram == sample.process_ram->0,
        sample.process_connections is Some ==> shown.pid.conns == sample.process_connections->0,
        sample.process_threads is Some ==> shown.pid.goroutines == sample.process_threads->0,
        sample.process_uptime matches Some(uptime) ==> shown.pid.uptime == (if uptime == 0 {
            elapsed_secs
        } else {
            uptime
        }),
        sample.system_cpu is Some ==> shown.os.cpu == sample.system_cpu->0,
        sample.system_ram is Some ==> shown.os.ram == sample.system_ram->0,
        sample.system_total_ram is Some ==> shown.os.total_ram == sample.system_total_ram->0,
        sample.system_load_average is Some ==> shown.os.load_avg == sample.system_load_average->0,
        sample.system_connections is Some ==> shown.os.conns == sample.system_connections->0,
        dashboard_laws::number_in(shown.pid.requests@) == old(state)@.requests,
{
    dashboard_laws::law_numerals_read_back(old(state)@.requests as nat);
}

/// A counted request is one more, and changes nothing that was sampled.
pub proof fn law_requests_are_counted_up(state: &mut MetricsState)
    requires
        call_ensures(MetricsState::increment_requests, (state,), ()),
        old(state)@.requests < u64::MAX,
    ensures
        final(state)@.requests == old(state)@.requests + 1,
        final(state)@.sampled == old(state)@.sampled,
{
}

/// The connections of the system are its TCP sockets, and those of a process the
/// ones that it holds.
pub proof fn law_connections_are_counted(
    sockets: Vec<SocketEntry>,
    pid: u32,
    counts: (Option<u64>, Option<u64>),
)
    requires
        call_ensures(tcp_connection_counts, (&Some(sockets), pid), counts),
    ensures
        counts.0 matches Some(n) && n == sums::how_many(sockets@, |s: SocketEntry| s.tcp),
        counts.1 matches Some(n) && n == sums::how_many(
            sockets@,
            |s: SocketEntry| s.tcp && s.pids@.contains(pid),
        ),
{
    metrics::law_connections_are_tcp_sockets(sockets@, pid);
}

/// A sampler takes a sample exactly where the metrics are still used after a wait.
pub proof fn law_samplers_go_on(event: SamplerEvent, action: SamplerAction)
    requires
        call_ensures(next_action, (event,), action),
    ensures
        action == SamplerAction::Sample <==> event == (SamplerEvent::Rechecked {
            still_used: true,
        }),
        action == SamplerAction::Stop <==> (event == SamplerEvent::Begun { in_use: false } || event
            == SamplerEvent::Waited { stopped: true } || event == SamplerEvent::Rechecked {
            still_used: false,
        }),
        action == SamplerAction::Wait <==> event == (SamplerEvent::Begun { in_use: true }),
        action == SamplerAction::Recheck <==> event == (SamplerEvent::Waited { stopped: false }),
{
    metrics::law_sampler_samples_what_is_used(event);
}

/// The heap figures of an allocator, where its sums are 64-bit counts.
pub proof fn law_heap_figures(reading: HeapReading, told: AllocatorStats)
    requires
        call_ensures(allocator_stats, (reading,), told),
    ensures
        reading matches HeapReading::Glibc {
            arena,
            hblkhd,
            uordblks,
            fordblks,
            resident_anonymous,
        } ==> arena + hblkhd <= usize::MAX ==> {
            &&& told.alloc_bytes == uordblks
            &&& told.inuse_bytes == uordblks
            &&& told.sys_bytes == arena + hblkhd
            &&& told.idle_bytes == machine_laws::least(fordblks as int, arena + hblkhd)
            &&& resident_anonymous is None ==> told.released_bytes == 0
            &&& resident_anonymous matches Some(resident) ==> told.released_bytes
                == machine_laws::least(
                machine_laws::over(arena + hblkhd, resident as int),
                fordblks as int,
            )
        },
        reading matches HeapReading::Zone { size_in_use, size_allocated } ==> {
            &&& told.alloc_bytes == size_in_use
            &&& told.inuse_bytes == size_in_use
            &&& told.sys_bytes == size_allocated
            &&& told.idle_bytes == machine_laws::over(size_allocated as int, size_in_use as int)
            &&& told.released_bytes == 0
        },
        reading matches HeapReading::Jemalloc {
            allocated,
            active,
            mapped,
            retained,
            resident,
        } ==> mapped + retained <= u64::MAX ==> {
            &&& told.alloc_bytes == allocated
            &&& told.inuse_bytes == active
            &&& told.sys_bytes == mapped + retained
            &&& told.idle_bytes == machine_laws::over(mapped + retained, active as int)
            &&& told.released_bytes == retained + machine_laws::over(
                mapped as int,
                resident as int,
            )
        },
{
}

/// The resident anonymous memory of a process is read in kilobytes from the line of
/// its status that tells it.
pub proof fn law_resident_memory(status: &str, digits: Seq<char>, rest: Seq<char>, bytes: Option<u64>)
    requires
        call_ensures(resident_anonymous_bytes, (status,), bytes),
        digits.len() > 0,
        forall|i: int| 0 <= i < digits.len() ==> '0' <= #[trigger] digits[i] <= '9',
        status@ == "RssAnon:"@ + seq!['\t'] + digits + seq![' ', 'k', 'B'] + seq!['\n'] + rest,
        1024 * dashboard_laws::number_in(digits) <= u64::MAX,
    ensures
        bytes matches Some(n) && n == 1024 * dashboard_laws::number_in(digits),
{
    machine_laws::law_resident_memory_is_read(seq!['x'], digits, rest);
}

/// Rates of receiving and sending are differences over the time that passed, and
/// there are none where none passed or a counter went back.
pub proof fn law_rates_are_differences(
    previous_received: u64,
    previous_sent: u64,
    current_received: u64,
    current_sent: u64,
    elapsed: u128,
    rates: (Option<ByteRate>, Option<ByteRate>),
)
    requires
        call_ensures(
            network_rates,
            (previous_received, previous_sent, current_received, current_sent, elapsed),
            rates,
        ),
    ensures
        elapsed > 0 && current_received >= previous_received && current_sent >= previous_sent ==> {
            &&& rates.0 matches Some(rate) && rate.bytes == current_received - previous_received
                && rate.nanos == elapsed
            &&& rates.1 matches Some(rate) && rate.bytes == current_sent - previous_sent
                && rate.nanos == elapsed
        },
        elapsed == 0 || current_received < previous_received || current_sent < previous_sent
            ==> rates.0 is None && rates.1 is None,
{
}

/// The totals over network interfaces with one more of them.
pub proof fn law_totals_grow_by_an_interface(
    some: Vec<(u64, u64)>,
    more: Vec<(u64, u64)>,
    received: u64,
    sent: u64,
    before: (u64, u64),
    after: (u64, u64),
)
    requires
        call_ensures(network_totals, (&some,), Some(before)),
        call_ensures(network_totals, (&more,), Some(after)),
        more@ == some@.push((received, sent)),
    ensures
        after.0 == before.0 + received,
        after.1 == before.1 + sent,
        some@.len() == 0 ==> before.0 == 0 && before.1 == 0,
{
    machine_laws::law_interfaces_are_added_up(some@, received, sent);
    if some@.len() == 0 {
        assert(some@ =~= Seq::<(u64, u64)>::empty());
    }
}

/// A share is brought between zero and a hundred.
pub proof fn law_shares_are_clamped(read: Figure, told: Figure)
    requires
        call_ensures(clamp_percent, (read,), told),
    ensures
        machine_laws::told_as(read, told),
{
}

/// A request that is known only when it has ended is noted on its route.
pub proof fn law_ended_requests_are_noted(
    set: &mut EndpointSet,
    method: &str,
    path: &str,
    tick: u64,
    ns: u64,
    status_class: u8,
)
    requires
        call_ensures(EndpointSet::observe_path, (set, method, path, tick, ns, status_class), ()),
        old(set).wf(),
        old(set)@.created < u64::MAX,
    ensures
        ({
            let name = route::method_name(method@);
            let place = route::path_name(path@);
            let rows = endpoints::assigned(old(set)@, name, place, tick as int).rows;
            let i = endpoints::assigned_at(old(set)@, name, place, tick as int);
            &&& final(set)@.rows.len() == rows.len()
            &&& final(set)@.rows[i].history == rows[i].history.push(
                Observation { tick, ns, status_class },
            )
            &&& final(set)@.rows[i].in_flight == rows[i].in_flight
            &&& forall|j: int|
                0 <= j < rows.len() && j != i ==> #[trigger] final(set)@.rows[j] == rows[j]
        }),
{
    endpoints::law_routes_are_bounded(*old(set));
    endpoint_laws::law_table_stays_bounded(
        old(set)@,
        route::method_name(method@),
        route::path_name(path@),
        tick as int,
    );
}

/// The totals over network interfaces are known unless one is no 64-bit count.
pub proof fn law_totals_are_known(counters: Vec<(u64, u64)>)
    requires
        call_ensures(network_totals, (&counters,), None),
    ensures
        sums::total(readings::received_counts(counters@)) > u64::MAX || sums::total(
            readings::sent_counts(counters@),
        ) > u64::MAX,
{
}

/// The disk is to be read again where it was not read in the last thirty seconds.
pub proof fn law_disks_are_due(stats: SharedStats, now: u128, due: bool)
    requires
        call_ensures(SharedStats::disk_due, (&stats, now), due),
    ensures
        stats@.collector.disk_at is None ==> due,
        stats@.collector.disk_at matches Some(at) ==> (due <==> now >= at + 30_000_000_000),
{
}

} // verus!

//! HTTP metrics as they are reported in a snapshot.

use vstd::prelude::*;

use crate::endpoints;
use crate::endpoints::{EndpointTraffic, RouteState};
use crate::histogram;
use crate::histogram::WINDOW_SECS;
use crate::ratio::Ratio;
use crate::snapshot::{
    HttpEndpointStats, HttpRateStats, HttpSecondSample, HttpStats, HttpStatusStats, HttpWindowStats,
    HttpWindows, LatencyStats,
};
use crate::stats::{HttpMetrics, HttpState};
use crate::text;
use crate::window;
use crate::window::{SecondSample, SlotState, WindowAgg};

verus! {

/// Five counters by name.
pub open spec fn named_counts(counts: Seq<u64>) -> HttpStatusStats {
    HttpStatusStats {
        status_1xx: counts[0],
        status_2xx: counts[1],
        status_3xx: counts[2],
        status_4xx: counts[3],
        status_5xx: counts[4],
    }
}

/// Shares of client and server errors among `requests`, none where there is no
/// request.
pub open spec fn error_rates(status: HttpStatusStats, requests: u64) -> HttpRateStats {
    if requests == 0 {
        HttpRateStats { status_4xx: None, status_5xx: None }
    } else {
        HttpRateStats {
            status_4xx: Some(Ratio { numerator: status.status_4xx, denominator: requests }),
            status_5xx: Some(Ratio { numerator: status.status_5xx, denominator: requests }),
        }
    }
}

/// Status counters of a run of seconds.
pub open spec fn status_of(secs: Seq<Option<SlotState>>) -> HttpStatusStats {
    HttpStatusStats {
        status_1xx: window::status_total(secs, 0) as u64,
        status_2xx: window::status_total(secs, 1) as u64,
        status_3xx: window::status_total(secs, 2) as u64,
        status_4xx: window::status_total(secs, 3) as u64,
        status_5xx: window::status_total(secs, 4) as u64,
    }
}

/// Latency percentiles of a histogram.
pub open spec fn latency_of(buckets: Seq<nat>) -> LatencyStats {
    LatencyStats {
        p50_ns: histogram::percentile_of(buckets, 500),
        p95_ns: histogram::percentile_of(buckets, 950),
        p99_ns: histogram::percentile_of(buckets, 990),
        p999_ns: histogram::percentile_of(buckets, 999),
    }
}

/// The report on the seconds `secs`, the last `window` ones up to second `tick`.
pub open spec fn window_report(
    secs: Seq<Option<SlotState>>,
    window: int,
    tick: int,
) -> HttpWindowStats {
    let requests = window::requests_total(secs) as u64;
    let covered = window::covered(window, tick);
    HttpWindowStats {
        seconds: window as u32,
        covered_seconds: covered as u32,
        requests,
        rps: Ratio { numerator: requests, denominator: covered as u64 },
        status: status_of(secs),
        rates: error_rates(status_of(secs), requests),
        latency: latency_of(window::bucket_totals(secs)),
    }
}

/// The reports on the last 30 and the last 60 seconds of a ring.
pub open spec fn window_reports(ring: Seq<SlotState>, tick: int) -> HttpWindows {
    let minute = window::last_minute(ring, tick);
    HttpWindows {
        secs_30: window_report(minute.skip(30), 30, tick),
        secs_60: window_report(minute, 60, tick),
    }
}

/// The report on one second that began at Unix time `t`.
pub open spec fn second_report(sec: Option<SlotState>, t: int) -> HttpSecondSample {
    HttpSecondSample {
        t: t as i64,
        requests: window::requests_in(sec) as u64,
        status: HttpStatusStats {
            status_1xx: window::status_in(sec, 0) as u64,
            status_2xx: window::status_in(sec, 1) as u64,
            status_3xx: window::status_in(sec, 2) as u64,
            status_4xx: window::status_in(sec, 3) as u64,
            status_5xx: window::status_in(sec, 4) as u64,
        },
        p50_ns: histogram::percentile_of(window::buckets_in(sec), 500),
        p95_ns: histogram::percentile_of(window::buckets_in(sec), 950),
        p99_ns: histogram::percentile_of(window::buckets_in(sec), 990),
        p999_ns: histogram::percentile_of(window::buckets_in(sec), 999),
    }
}

/// The reports on each second of the last minute, oldest first.
pub open spec fn series_report(ring: Seq<SlotState>, tick: int, unix: i64) -> Seq<
    HttpSecondSample,
> {
    Seq::new(
        WINDOW_SECS as nat,
        |k: int|
            second_report(
                window::last_minute(ring, tick)[k],
                window::seconds_before(unix, WINDOW_SECS - 1 - k),
            ),
    )
}

impl HttpEndpointStats {
    /// Whether this is the report on a row in second `tick`.
    pub open spec fn reports(&self, row: RouteState, tick: int) -> bool {
        &&& self.method@ == row.method
        &&& self.path@ == row.path
        &&& self.in_flight == row.in_flight
        &&& self.windows == window_reports(row.ring, tick)
    }

    /// Whether this route is listed before another: more requests in flight
    /// first, then more requests in the last minute, then by method and path.
    pub open spec fn precedes(&self, other: HttpEndpointStats) -> bool {
        if self.in_flight != other.in_flight {
            self.in_flight > other.in_flight
        } else if self.windows.secs_60.requests != other.windows.secs_60.requests {
            self.windows.secs_60.requests > other.windows.secs_60.requests
        } else if self.method@ != other.method@ {
            text::comes_before(self.method@, other.method@)
        } else {
            text::comes_before(self.path@, other.path@)
        }
    }
}

/// Whether some entry of a list reports on a row.
pub open spec fn is_reported(list: Seq<HttpEndpointStats>, row: RouteState, tick: int) -> bool {
    exists|i: int| 0 <= i < list.len() && (#[trigger] list[i]).reports(row, tick)
}

/// Whether an entry of a list reports on some row.
pub open spec fn reports_some(entry: HttpEndpointStats, rows: Seq<RouteState>, tick: int) -> bool {
    exists|k: int| 0 <= k < rows.len() && entry.reports(#[trigger] rows[k], tick)
}

/// Whether a list has one report for each row of a table, in order.
pub open spec fn reports_all(
    list: Seq<HttpEndpointStats>,
    rows: Seq<RouteState>,
    tick: int,
) -> bool {
    &&& list.len() == rows.len()
    &&& forall|i: int, j: int|
        #![trigger list[i], list[j]]
        0 <= i < j < list.len() ==> list[i].precedes(list[j])
    &&& forall|k: int| 0 <= k < rows.len() ==> #[trigger] is_reported(list, rows[k], tick)
    &&& forall|i: int| 0 <= i < list.len() ==> #[trigger] reports_some(list[i], rows, tick)
}

impl HttpStats {
    /// Whether this is the report on HTTP metrics in second `tick`, at Unix time
    /// `unix`.
    pub open spec fn reports(&self, state: HttpState, tick: int, unix: i64) -> bool {
        &&& self.requests == state.requests
        &&& self.in_flight == state.in_flight
        &&& self.status == named_counts(state.status)
        &&& self.windows == window_reports(state.ring, tick)
        &&& self.rps == Some(self.windows.secs_60.rps)
        &&& self.rates == self.windows.secs_60.rates
        &&& self.latency == self.windows.secs_60.latency
        &&& self.window_seconds == WINDOW_SECS
        &&& self.series@ == series_report(state.ring, tick, unix)
        &&& reports_all(self.endpoints@, state.table.rows, tick)
    }
}

/// Names five counters.
pub fn status_from_counts(counts: [u64; 5]) -> (status: HttpStatusStats)
    ensures
        status == named_counts(counts@),
{
    HttpStatusStats {
        status_1xx: counts[0],
        status_2xx: counts[1],
        status_3xx: counts[2],
        status_4xx: counts[3],
        status_5xx: counts[4],
    }
}

/// Shares of client and server errors among `requests`.
pub fn window_rates(status: &[u64; 5], requests: u64) -> (rates: (Option<Ratio>, Option<Ratio>))
    ensures
        rates.0 == error_rates(named_counts(status@), requests).status_4xx,
        rates.1 == error_rates(named_counts(status@), requests).status_5xx,
{
    if requests == 0 {
        return (None, None);
    }
    (
        Some(Ratio { numerator: status[3], denominator: requests }),
        Some(Ratio { numerator: status[4], denominator: requests }),
    )
}

/// An aggregate as it is reported.
pub open spec fn agg_report(agg: WindowAgg) -> HttpWindowStats {
    HttpWindowStats {
        seconds: agg.seconds,
        covered_seconds: agg.covered_seconds,
        requests: agg.requests,
        rps: agg.rps,
        status: named_counts(agg.status@),
        rates: error_rates(named_counts(agg.status@), agg.requests),
        latency: LatencyStats {
            p50_ns: agg.p50_ns,
            p95_ns: agg.p95_ns,
            p99_ns: agg.p99_ns,
            p999_ns: agg.p999_ns,
        },
    }
}

/// Reports an aggregate.
pub fn to_window_stats(agg: &WindowAgg) -> (stats: HttpWindowStats)
    ensures
        stats == agg_report(*agg),
{
    let (rate_4xx, rate_5xx) = window_rates(&agg.status, agg.requests);
    HttpWindowStats {
        seconds: agg.seconds,
        covered_seconds: agg.covered_seconds,
        requests: agg.requests,
        rps: agg.rps,
        status: status_from_counts(agg.status),
        rates: HttpRateStats { status_4xx: rate_4xx, status_5xx: rate_5xx },
        latency: LatencyStats {
            p50_ns: agg.p50_ns,
            p95_ns: agg.p95_ns,
            p99_ns: agg.p99_ns,
            p999_ns: agg.p999_ns,
        },
    }
}

proof fn lemma_agg_report(
    agg: WindowAgg,
    secs: Seq<Option<SlotState>>,
    window: int,
    tick: int,
)
    requires
        agg.sums_up(secs, window, tick),
    ensures
        agg_report(agg) == window_report(secs, window, tick),
{
    assert(agg.status@[0] == window::status_total(secs, 0));
    assert(agg.status@[1] == window::status_total(secs, 1));
    assert(agg.status@[2] == window::status_total(secs, 2));
    assert(agg.status@[3] == window::status_total(secs, 3));
    assert(agg.status@[4] == window::status_total(secs, 4));
}

fn to_second_sample(sample: &SecondSample, Ghost(sec): Ghost<Option<SlotState>>) -> (stats:
    HttpSecondSample)
    requires
        sample.shows(sec),
    ensures
        stats == second_report(sec, sample.unix_secs as int),
{
    proof {
        assert(sample.status@[0] == window::status_in(sec, 0));
        assert(sample.status@[1] == window::status_in(sec, 1));
        assert(sample.status@[2] == window::status_in(sec, 2));
        assert(sample.status@[3] == window::status_in(sec, 3));
        assert(sample.status@[4] == window::status_in(sec, 4));
    }
    HttpSecondSample {
        t: sample.unix_secs,
        requests: sample.requests,
        status: status_from_counts(sample.status),
        p50_ns: sample.p50_ns,
        p95_ns: sample.p95_ns,
        p99_ns: sample.p99_ns,
        p999_ns: sample.p999_ns,
    }
}

spec fn endpoint_report(entry: HttpEndpointStats, traffic: EndpointTraffic) -> bool {
    &&& entry.method@ == traffic.method@
    &&& entry.path@ == traffic.path@
    &&& entry.in_flight == traffic.in_flight
    &&& entry.windows.secs_30 == agg_report(traffic.window_30)
    &&& entry.windows.secs_60 == agg_report(traffic.window_60)
}

fn to_endpoint_stats(traffic: &EndpointTraffic) -> (entry: HttpEndpointStats)
    ensures
        endpoint_report(entry, *traffic),
{
    HttpEndpointStats {
        method: traffic.method.clone(),
        path: traffic.path.clone(),
        in_flight: traffic.in_flight,
        windows: HttpWindows {
            secs_30: to_window_stats(&traffic.window_30),
            secs_60: to_window_stats(&traffic.window_60),
        },
    }
}

proof fn lemma_reports(
    entry: HttpEndpointStats,
    traffic: EndpointTraffic,
    row: RouteState,
    tick: int,
)
    requires
        endpoint_report(entry, traffic),
        traffic.shows(row, tick),
    ensures
        entry.reports(row, tick),
{
    let minute = window::last_minute(row.ring, tick);
    lemma_agg_report(traffic.window_60, minute, 60, tick);
    lemma_agg_report(traffic.window_30, minute.skip(30), 30, tick);
}

proof fn lemma_reports_all(
    list: Seq<HttpEndpointStats>,
    listing: Seq<EndpointTraffic>,
    rows: Seq<RouteState>,
    tick: int,
)
    requires
        list.len() == listing.len(),
        forall|i: int| 0 <= i < list.len() ==> endpoint_report(#[trigger] list[i], listing[i]),
        endpoints::lists(listing, rows, tick),
    ensures
        reports_all(list, rows, tick),
{
    assert forall|i: int, j: int|
        #![trigger list[i], list[j]]
        0 <= i < j < list.len() implies list[i].precedes(list[j]) by {
        assert(endpoints::listed_before(listing[i], listing[j]));
    }
    assert forall|k: int| 0 <= k < rows.len() implies #[trigger] is_reported(
        list,
        rows[k],
        tick,
    ) by {
        assert(endpoints::is_listed(listing, rows[k], tick));
        let i = choose|i: int|
            0 <= i < listing.len() && (#[trigger] listing[i]).shows(rows[k], tick);
        lemma_reports(list[i], listing[i], rows[k], tick);
    }
    assert forall|i: int| 0 <= i < list.len() implies #[trigger] reports_some(
        list[i],
        rows,
        tick,
    ) by {
        assert(endpoints::has_origin(listing[i], rows, tick));
        let k = choose|k: int|
            0 <= k < rows.len() && listing[i].shows(#[trigger] rows[k], tick);
        lemma_reports(list[i], listing[i], rows[k], tick);
    }
}

/// Whether HTTP metrics can be reported in second `tick`: every sum over the
/// last minute is a 64-bit count, in all and for each route.
pub open spec fn can_report(state: HttpState, tick: int) -> bool {
    &&& window::sums_fit(window::last_minute(state.ring, tick))
    &&& forall|k: int|
        0 <= k < state.table.rows.len() ==> window::sums_fit(
            window::last_minute((#[trigger] state.table.rows[k]).ring, tick),
        )
}

/// Tests whether HTTP metrics can be reported in second `tick`.
pub fn is_reportable(http: &HttpMetrics, tick: u64) -> (fits: bool)
    requires
        http.wf(),
    ensures
        fits == can_report(http@, tick as int),
{
    http.latency().is_readable(tick) && http.endpoints().is_readable(tick)
}

/// Reports HTTP metrics in second `tick`, at Unix time `unix`.
pub fn collect_http(http: &HttpMetrics, tick: u64, unix: i64) -> (stats: HttpStats)
    requires
        http.wf(),
        can_report(http@, tick as int),
    ensures
        stats.reports(http@, tick as int, unix),
{
    let status = HttpStatusStats {
        status_1xx: http.status1(),
        status_2xx: http.status2(),
        status_3xx: http.status3(),
        status_4xx: http.status4(),
        status_5xx: http.status5(),
    };
    let traffic = http.latency().snapshot(tick, unix);
    let ghost minute = window::last_minute(http@.ring, tick as int);
    let window_30 = to_window_stats(&traffic.window_30);
    let window_60 = to_window_stats(&traffic.window_60);
    proof {
        lemma_agg_report(traffic.window_60, minute, 60, tick as int);
        lemma_agg_report(traffic.window_30, minute.skip(30), 30, tick as int);
    }
    let ghost all = series_report(http@.ring, tick as int, unix);
    let mut series: Vec<HttpSecondSample> = Vec::with_capacity(traffic.series.len());
    let mut k: usize = 0;
    while k < traffic.series.len()
        invariant
            k <= traffic.series@.len(),
            traffic.tells(http@.ring, tick as int, unix),
            minute == window::last_minute(http@.ring, tick as int),
            all == series_report(http@.ring, tick as int, unix),
            series@ == all.take(k as int),
        decreases traffic.series@.len() - k,
    {
        assert(traffic.series@[k as int].shows(minute[k as int]));
        series.push(to_second_sample(&traffic.series[k], Ghost(minute[k as int])));
        k = k + 1;
        assert(series@ =~= all.take(k as int));
    }
    assert(all.take(WINDOW_SECS as int) =~= all);
    let listing = http.endpoints().snapshot(tick);
    let mut list: Vec<HttpEndpointStats> = Vec::with_capacity(listing.len());
    let mut i: usize = 0;
    while i < listing.len()
        invariant
            i <= listing@.len(),
            list@.len() == i,
            forall|j: int| 0 <= j < i ==> endpoint_report(#[trigger] list@[j], listing@[j]),
        decreases listing@.len() - i,
    {
        list.push(to_endpoint_stats(&listing[i]));
        i = i + 1;
    }
    proof {
        lemma_reports_all(list@, listing@, http@.table.rows, tick as int);
    }
    HttpStats {
        requests: http.requests(),
        in_flight: http.in_flight(),
        rps: Some(window_60.rps),
        status,
        rates: window_60.rates,
        latency: window_60.latency,
        window_seconds: WINDOW_SECS as u32,
        windows: HttpWindows { secs_30: window_30, secs_60: window_60 },
        series,
        endpoints: list,
    }
}

} // verus!

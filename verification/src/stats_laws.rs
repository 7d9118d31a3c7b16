//! What holds of HTTP metrics whatever requests they have seen.

use vstd::prelude::*;

use crate::endpoint_laws;
use crate::endpoints;
use crate::endpoints::{RouteState, TableState, MAX_ENDPOINTS};
use crate::histogram::{WINDOW_30_SECS, WINDOW_SECS};
use crate::http_stats;
use crate::ring_laws;
use crate::route;
use crate::snapshot::{HttpEndpointStats, HttpStats, HttpWindowStats};
use crate::stats;
use crate::stats::HttpState;
use crate::sums;
use crate::text;
use crate::window;
use crate::window::SlotState;

verus! {

/// Whether a ring counts no request that is still in flight, and with those in
/// flight no more than `requests`.
pub open spec fn ring_accounts(ring: Seq<SlotState>, in_flight: u64, requests: u64) -> bool {
    &&& ring_laws::exact(ring)
    &&& ring_laws::ring_total(ring) + in_flight <= requests
}

/// Whether every ring of the metrics, together with the requests in flight,
/// accounts for no more requests than were begun.
pub open spec fn accounts(state: HttpState) -> bool {
    &&& endpoints::table_wf(state.table)
    &&& state.table.created <= state.requests
    &&& state.table.clock <= state.requests
    &&& !state.table.overrun
    &&& state.status.len() == 5
    &&& ring_accounts(state.ring, state.in_flight, state.requests)
    &&& forall|k: int|
        0 <= k < state.table.rows.len() ==> #[trigger] row_accounts(
            state.table.rows[k],
            state.requests,
        )
}

pub open spec fn row_accounts(row: RouteState, requests: u64) -> bool {
    ring_accounts(row.ring, row.in_flight, requests)
}

/// Whether a request is in flight on the route `id`.
pub open spec fn is_running(state: HttpState, id: u64) -> bool {
    &&& state.in_flight > 0
    &&& endpoints::place_of(state.table, id) matches Some(i) && state.table.rows[i].in_flight > 0
}

/// Metrics without traffic account for it.
pub proof fn law_new_metrics_account(state: HttpState)
    requires
        state == (HttpState {
            requests: 0,
            in_flight: 0,
            status: Seq::new(5, |i: int| 0u64),
            ring: Seq::new(WINDOW_SECS as nat, |i: int| window::fresh_slot(u64::MAX)),
            table: TableState { clock: 0, overrun: false, created: 0, rows: Seq::empty() },
        }),
    ensures
        accounts(state),
{
    ring_laws::law_new_ring_is_exact(state.ring);
}

proof fn lemma_evicted_rows(rows: Seq<RouteState>, tick: int, requests: u64)
    requires
        forall|k: int| 0 <= k < rows.len() ==> #[trigger] row_accounts(rows[k], requests),
    ensures
        endpoints::evicted(rows, tick) matches Some(rest) ==> forall|k: int|
            0 <= k < rest.len() ==> #[trigger] row_accounts(rest[k], requests),
{
    if exists|i: int| endpoints::is_victim(rows, i, tick) {
        let v = choose|i: int| endpoints::is_victim(rows, i, tick);
        let rest = rows.remove(v);
        assert(endpoints::is_idle(rows, v));
        assert forall|k: int| 0 <= k < rest.len() implies #[trigger] row_accounts(
            rest[k],
            requests,
        ) by {
            let old_k = if k < v {
                k
            } else {
                k + 1
            };
            assert(row_accounts(rows[old_k], requests));
        }
    }
}

proof fn lemma_used_rows(
    table: TableState,
    rows: Seq<RouteState>,
    method: Seq<char>,
    path: Seq<char>,
    requests: u64,
)
    requires
        forall|k: int| 0 <= k < rows.len() ==> #[trigger] row_accounts(rows[k], requests),
    ensures
        forall|k: int|
            0 <= k < endpoints::used(table, rows, method, path).rows.len()
                ==> #[trigger] row_accounts(
                endpoints::used(table, rows, method, path).rows[k],
                requests,
            ),
{
    let after = endpoints::used(table, rows, method, path).rows;
    let fresh = endpoints::new_row(table.created, method, path, window::bumped(table.clock));
    ring_laws::law_new_ring_is_exact(fresh.ring);
    assert forall|k: int| 0 <= k < after.len() implies #[trigger] row_accounts(
        after[k],
        requests,
    ) by {
        if k < rows.len() {
            assert(row_accounts(rows[k], requests));
        }
    }
}

pub proof fn lemma_assigned_rows(
    table: TableState,
    method: Seq<char>,
    path: Seq<char>,
    tick: int,
    requests: u64,
)
    requires
        forall|k: int|
            0 <= k < table.rows.len() ==> #[trigger] row_accounts(table.rows[k], requests),
    ensures
        forall|k: int|
            0 <= k < endpoints::assigned(table, method, path, tick).rows.len()
                ==> #[trigger] row_accounts(
                endpoints::assigned(table, method, path, tick).rows[k],
                requests,
            ),
{
    lemma_evicted_rows(table.rows, tick, requests);
    match endpoints::evicted(table.rows, tick) {
        Some(rest) => {
            lemma_evicted_rows(rest, tick, requests);
        },
        None => {},
    }
    let (rows, own) = endpoints::chosen(table, method, path, tick);
    lemma_used_rows(table, rows, method, path, requests);
    lemma_used_rows(
        table,
        rows,
        endpoints::OVERFLOW_METHOD@,
        endpoints::OVERFLOW_PATH@,
        requests,
    );
}

/// Beginning a request keeps the metrics accounted for. Afterwards it is running
/// on its route.
pub proof fn law_starting_keeps_account(
    state: HttpState,
    method: Seq<char>,
    path: Seq<char>,
    tick: u64,
)
    requires
        accounts(state),
        state.requests < u64::MAX,
    ensures
        ({
            let after = stats::started(state, method, path, tick);
            let id = after.table.rows[stats::started_at(state, method, path, tick)].id;
            &&& accounts(after)
            &&& is_running(after, id)
        }),
{
    let name = route::method_name(method);
    let place = route::path_name(path);
    let after = stats::started(state, method, path, tick);
    let base = endpoints::assigned(state.table, name, place, tick as int);
    let i = endpoints::assigned_at(state.table, name, place, tick as int);
    endpoint_laws::law_table_stays_bounded(state.table, name, place, tick as int);
    endpoints::lemma_created(state.table, name, place, tick as int);
    lemma_assigned_rows(state.table, name, place, tick as int, state.requests);
    assert(row_accounts(base.rows[i], state.requests));
    endpoints::lemma_updated(base.rows, base.created, i, after.table.rows[i]);
    assert forall|k: int| 0 <= k < after.table.rows.len() implies #[trigger] row_accounts(
        after.table.rows[k],
        after.requests,
    ) by {
        assert(row_accounts(base.rows[k], state.requests));
    }
    let id = after.table.rows[i].id;
    assert(endpoints::is_row_id(after.table.rows, i, id));
    let k = choose|k: int| endpoints::is_row_id(after.table.rows, k, id);
    assert(after.table.rows[k].id == after.table.rows[i].id);
}

/// Finishing and releasing a running request keeps the metrics accounted for.
pub proof fn law_finishing_keeps_account(
    state: HttpState,
    id: u64,
    elapsed: u128,
    status: u16,
    tick: u64,
)
    requires
        accounts(state),
        is_running(state, id),
    ensures
        accounts(stats::released(stats::completed(state, id, elapsed, status, tick), id)),
{
    let ns = stats::nanos_of(elapsed);
    let class = stats::class_of(status);
    let middle = stats::completed(state, id, elapsed, status, tick);
    let after = stats::released(middle, id);
    let i = choose|i: int| endpoints::is_row_id(state.table.rows, i, id);
    ring_laws::law_counting_stays_exact(state.ring, tick, ns, class);
    let row = state.table.rows[i];
    assert(row_accounts(row, state.requests));
    ring_laws::law_counting_stays_exact(row.ring, tick, ns, class);
    let counted = endpoints::observed_row(row, tick, ns, class);
    endpoints::lemma_observed_recorded(row, tick, ns, class);
    endpoints::lemma_updated(state.table.rows, state.table.created, i, counted);
    assert(endpoints::is_row_id(middle.table.rows, i, id));
    let j = choose|j: int| endpoints::is_row_id(middle.table.rows, j, id);
    assert(middle.table.rows[j].id == middle.table.rows[i].id);
    assert(i == j);
    endpoints::lemma_updated(
        middle.table.rows,
        middle.table.created,
        i,
        endpoints::ended_row(counted),
    );
    assert forall|k: int| 0 <= k < after.table.rows.len() implies #[trigger] row_accounts(
        after.table.rows[k],
        after.requests,
    ) by {
        assert(row_accounts(state.table.rows[k], state.requests));
    }
}

/// Releasing a running request that never finished keeps the metrics accounted
/// for.
pub proof fn law_abandoning_keeps_account(state: HttpState, id: u64)
    requires
        accounts(state),
        is_running(state, id),
    ensures
        accounts(stats::released(state, id)),
{
    let after = stats::released(state, id);
    let i = choose|i: int| endpoints::is_row_id(state.table.rows, i, id);
    endpoints::lemma_updated(
        state.table.rows,
        state.table.created,
        i,
        endpoints::ended_row(state.table.rows[i]),
    );
    assert forall|k: int| 0 <= k < after.table.rows.len() implies #[trigger] row_accounts(
        after.table.rows[k],
        after.requests,
    ) by {
        assert(row_accounts(state.table.rows[k], state.requests));
    }
}

/// A request that is running stays so while another one begins: its row is never
/// evicted.
pub proof fn law_running_requests_keep_their_route(
    state: HttpState,
    id: u64,
    method: Seq<char>,
    path: Seq<char>,
    tick: u64,
)
    requires
        accounts(state),
        state.requests < u64::MAX,
        is_running(state, id),
    ensures
        is_running(stats::started(state, method, path, tick), id),
{
    let name = route::method_name(method);
    let place = route::path_name(path);
    let base = endpoints::assigned(state.table, name, place, tick as int);
    let at = endpoints::assigned_at(state.table, name, place, tick as int);
    let after = stats::started(state, method, path, tick);
    let i = choose|i: int| endpoints::is_row_id(state.table.rows, i, id);
    law_starting_keeps_account(state, method, path, tick);
    endpoint_laws::law_table_stays_bounded(state.table, name, place, tick as int);
    endpoint_laws::law_in_flight_rows_stay(state.table, name, place, tick as int, i);
    let j = choose|j: int|
        0 <= j < base.rows.len() && endpoint_laws::same_row(
            #[trigger] base.rows[j],
            state.table.rows[i],
        );
    lemma_assigned_rows(state.table, name, place, tick as int, state.requests);
    assert(row_accounts(base.rows[j], state.requests));
    assert(endpoints::is_row_id(after.table.rows, j, id));
    let k = choose|k: int| endpoints::is_row_id(after.table.rows, k, id);
    assert(after.table.rows[k].id == after.table.rows[j].id);
    assert(k == j);
}

/// Metrics that are accounted for can be reported in any second.
pub proof fn law_accounted_metrics_are_reportable(state: HttpState, tick: int)
    requires
        accounts(state),
    ensures
        http_stats::can_report(state, tick),
{
    ring_laws::law_exact_ring_is_readable(state.ring, tick);
    assert forall|k: int| 0 <= k < state.table.rows.len() implies window::sums_fit(
        window::last_minute((#[trigger] state.table.rows[k]).ring, tick),
    ) by {
        assert(row_accounts(state.table.rows[k], state.requests));
        ring_laws::law_exact_ring_is_readable(state.table.rows[k].ring, tick);
    }
}

/// Whether a report on a window has no rates and no latencies exactly where it
/// has no requests.
pub open spec fn speaks_of_traffic(stats: HttpWindowStats) -> bool {
    &&& stats.latency.p50_ns is None <==> stats.requests == 0
    &&& stats.latency.p95_ns is None <==> stats.requests == 0
    &&& stats.latency.p99_ns is None <==> stats.requests == 0
    &&& stats.latency.p999_ns is None <==> stats.requests == 0
    &&& stats.rates.status_4xx is None <==> stats.requests == 0
    &&& stats.rates.status_5xx is None <==> stats.requests == 0
    &&& stats.rps.numerator == stats.requests
    &&& stats.rps.denominator > 0
}

/// A report has request rates in both windows, zero without traffic, and
/// latencies and error rates exactly where the window has traffic.
pub proof fn law_report_speaks_of_traffic(
    stats: HttpStats,
    state: HttpState,
    tick: u64,
    unix: i64,
)
    requires
        accounts(state),
        stats.reports(state, tick as int, unix),
    ensures
        stats.rps is Some,
        speaks_of_traffic(stats.windows.secs_30),
        speaks_of_traffic(stats.windows.secs_60),
{
    law_accounted_metrics_are_reportable(state, tick as int);
    ring_laws::lemma_exact_windows(state.ring, tick as int);
    let minute = window::last_minute(state.ring, tick as int);
    window::lemma_totals_split(minute, 30);
}

/// Listed routes are in order: those with more requests in flight first, then
/// those with more requests in the last minute.
pub proof fn law_busy_routes_come_first(
    stats: HttpStats,
    state: HttpState,
    tick: int,
    unix: i64,
    i: int,
    j: int,
)
    requires
        stats.reports(state, tick, unix),
        0 <= i < j < stats.endpoints@.len(),
    ensures
        stats.endpoints@[i].in_flight >= stats.endpoints@[j].in_flight,
        stats.endpoints@[i].in_flight == stats.endpoints@[j].in_flight
            ==> stats.endpoints@[i].windows.secs_60.requests
            >= stats.endpoints@[j].windows.secs_60.requests,
{
    assert(stats.endpoints@[i].precedes(stats.endpoints@[j]));
}

/// Every route of the table is listed, and at most [`MAX_ENDPOINTS`] routes and
/// the shared row are.
pub proof fn law_listing_is_bounded(
    stats: HttpStats,
    state: HttpState,
    tick: int,
    unix: i64,
)
    requires
        endpoints::table_wf(state.table),
        stats.reports(state, tick, unix),
    ensures
        stats.endpoints@.len() == state.table.rows.len(),
        stats.endpoints@.len() <= MAX_ENDPOINTS + 1,
{
}

/// Releasing a request takes it out of those in flight, in all and on its route,
/// and begins no other.
pub proof fn law_release_undoes_start(
    state: HttpState,
    method: Seq<char>,
    path: Seq<char>,
    tick: u64,
)
    requires
        accounts(state),
        state.requests < u64::MAX,
    ensures
        ({
            let after = stats::started(state, method, path, tick);
            let id = after.table.rows[stats::started_at(state, method, path, tick)].id;
            let done = stats::released(after, id);
            &&& done.in_flight == state.in_flight
            &&& done.requests == state.requests + 1
            &&& done.status == state.status
            &&& done.ring == state.ring
            &&& done.table == endpoints::assigned(
                state.table,
                route::method_name(method),
                route::path_name(path),
                tick as int,
            )
        }),
{
    let name = route::method_name(method);
    let place = route::path_name(path);
    let base = endpoints::assigned(state.table, name, place, tick as int);
    let i = endpoints::assigned_at(state.table, name, place, tick as int);
    endpoint_laws::law_table_stays_bounded(state.table, name, place, tick as int);
    lemma_assigned_rows(state.table, name, place, tick as int, state.requests);
    assert(row_accounts(base.rows[i], state.requests));
    endpoint_laws::law_end_undoes_begin(state.table, name, place, tick as int);
}

/// Sum of the five status counters.
pub open spec fn status_sum(state: HttpState) -> int {
    state.status[0] + state.status[1] + state.status[2] + state.status[3] + state.status[4]
}

/// A finished request is counted in exactly one status class where its code has
/// one, and begins or ends no request.
pub proof fn law_finish_counts_one_class(
    state: HttpState,
    elapsed: u128,
    status: u16,
    tick: u64,
)
    requires
        state.status.len() == 5,
        forall|class: int| 0 <= class < 5 ==> #[trigger] state.status[class] < u64::MAX,
    ensures
        ({
            let after = stats::finished(state, elapsed, status, tick);
            &&& status_sum(after) == status_sum(state) + (if 100 <= status < 600 {
                1int
            } else {
                0
            })
            &&& after.requests == state.requests
            &&& after.in_flight == state.in_flight
        }),
{
    let class = stats::class_of(status);
    if class != 0 {
        assert(state.status[class - 1] < u64::MAX);
    }
}

/// A request to any path that begins, is answered or fails, and is released is
/// counted once. None is left in flight by it, and of the status classes only
/// that of its code counts one more, that of a failure where it got no response.
pub proof fn law_every_request_is_counted_once(
    state: HttpState,
    method: Seq<char>,
    path: Seq<char>,
    begun_at: u64,
    elapsed: u128,
    status: Option<u16>,
    finished_at: u64,
)
    requires
        accounts(state),
        state.requests < u64::MAX,
        forall|class: int| 0 <= class < 5 ==> #[trigger] state.status[class] < u64::MAX,
    ensures
        ({
            let code = match status {
                Some(code) => code,
                None => stats::FAILED_STATUS,
            };
            let begun = stats::started(state, method, path, begun_at);
            let id = begun.table.rows[stats::started_at(state, method, path, begun_at)].id;
            let done = stats::released(
                stats::completed(begun, id, elapsed, code, finished_at),
                id,
            );
            &&& accounts(done)
            &&& done.requests == state.requests + 1
            &&& done.in_flight == state.in_flight
            &&& done.status.len() == 5
            &&& forall|class: int|
                0 <= class < 5 ==> #[trigger] done.status[class] == state.status[class] + one_if(
                    stats::class_of(code) == class + 1,
                )
        }),
{
    let code = match status {
        Some(code) => code,
        None => stats::FAILED_STATUS,
    };
    let begun = stats::started(state, method, path, begun_at);
    let id = begun.table.rows[stats::started_at(state, method, path, begun_at)].id;
    law_starting_keeps_account(state, method, path, begun_at);
    law_finishing_keeps_account(begun, id, elapsed, code, finished_at);
    law_release_undoes_start(state, method, path, begun_at);
    let done = stats::released(stats::completed(begun, id, elapsed, code, finished_at), id);
    assert forall|class: int| 0 <= class < 5 implies #[trigger] done.status[class]
        == state.status[class] + one_if(stats::class_of(code) == class + 1) by {
        assert(state.status[class] < u64::MAX);
    }
}

/// Whether a report on a window has one more request than another, in its status
/// class.
pub open spec fn reports_one_more(
    after: HttpWindowStats,
    before: HttpWindowStats,
    status: u16,
) -> bool {
    let class = stats::class_of(status);
    &&& after.requests == before.requests + 1
    &&& after.status.status_1xx == before.status.status_1xx + one_if(class == 1)
    &&& after.status.status_2xx == before.status.status_2xx + one_if(class == 2)
    &&& after.status.status_3xx == before.status.status_3xx + one_if(class == 3)
    &&& after.status.status_4xx == before.status.status_4xx + one_if(class == 4)
    &&& after.status.status_5xx == before.status.status_5xx + one_if(class == 5)
    &&& after.latency.p50_ns is Some
}

proof fn lemma_reports_one_more(
    after: Seq<Option<SlotState>>,
    before: Seq<Option<SlotState>>,
    window: int,
    tick: int,
    ns: u64,
    status: u16,
)
    requires
        ring_laws::has_one_more(after, before, ns, stats::class_of(status)),
        window::sums_fit(after),
        sums::total(window::bucket_totals(after)) == window::requests_total(after),
    ensures
        reports_one_more(
            http_stats::window_report(after, window, tick),
            http_stats::window_report(before, window, tick),
            status,
        ),
{
    let class = stats::class_of(status);
    assert(window::status_total(after, 0) == window::status_total(before, 0) + one_if(class == 1));
    assert(window::status_total(after, 1) == window::status_total(before, 1) + one_if(class == 2));
    assert(window::status_total(after, 2) == window::status_total(before, 2) + one_if(class == 3));
    assert(window::status_total(after, 3) == window::status_total(before, 3) + one_if(class == 4));
    assert(window::status_total(after, 4) == window::status_total(before, 4) + one_if(class == 5));
}

proof fn lemma_ring_reports_one_more(
    ring: Seq<SlotState>,
    ns: u64,
    status: u16,
    tick: u64,
    now: u64,
)
    requires
        ring_laws::exact(ring),
        ring_laws::ring_total(ring) < u64::MAX,
        ring_laws::not_ahead(ring, tick),
        tick <= now < tick + WINDOW_SECS,
    ensures
        ({
            let after = window::observed(ring, tick, ns, stats::class_of(status));
            let old_report = http_stats::window_reports(ring, now as int);
            let new_report = http_stats::window_reports(after, now as int);
            &&& reports_one_more(new_report.secs_60, old_report.secs_60, status)
            &&& now < tick + WINDOW_30_SECS ==> reports_one_more(
                new_report.secs_30,
                old_report.secs_30,
                status,
            )
            &&& now >= tick + WINDOW_30_SECS ==> new_report.secs_30 == old_report.secs_30
        }),
{
    let class = stats::class_of(status);
    let after_ring = window::observed(ring, tick, ns, class);
    let before = window::last_minute(ring, now as int);
    let after = window::last_minute(after_ring, now as int);
    ring_laws::lemma_room(ring, tick, ns, class);
    ring_laws::law_counted_for_a_minute(ring, tick, ns, class, now);
    ring_laws::law_counting_stays_exact(ring, tick, ns, class);
    ring_laws::law_exact_ring_is_readable(after_ring, now as int);
    ring_laws::lemma_exact_windows(after_ring, now as int);
    lemma_reports_one_more(after, before, 60, now as int, ns, status);
    if now < tick + WINDOW_30_SECS {
        window::lemma_totals_split(after, 30);
        assert(window::sums_fit(after.skip(30))) by {
            assert forall|c: int| 0 <= c < 5 implies #[trigger] window::status_total(
                after.skip(30),
                c,
            ) <= u64::MAX by {
                assert(window::status_total(after, c) == window::status_total(after.take(30), c)
                    + window::status_total(after.skip(30), c));
            }
        }
        lemma_reports_one_more(after.skip(30), before.skip(30), 30, now as int, ns, status);
    }
}

/// A request that finished in second `tick` is in the 60-second report of every
/// second of the minute that follows and in the 30-second report for half of it,
/// once and in its status class. `tick` is not older than what its slot of the
/// ring already counts.
pub proof fn law_finished_request_is_reported(
    state: HttpState,
    id: u64,
    elapsed: u128,
    status: u16,
    tick: u64,
    now: u64,
)
    requires
        accounts(state),
        is_running(state, id),
        ring_laws::not_ahead(state.ring, tick),
        tick <= now < tick + WINDOW_SECS,
    ensures
        ({
            let after = stats::completed(state, id, elapsed, status, tick);
            let old_report = http_stats::window_reports(state.ring, now as int);
            let new_report = http_stats::window_reports(after.ring, now as int);
            &&& reports_one_more(new_report.secs_60, old_report.secs_60, status)
            &&& now < tick + WINDOW_30_SECS ==> reports_one_more(
                new_report.secs_30,
                old_report.secs_30,
                status,
            )
            &&& now >= tick + WINDOW_30_SECS ==> new_report.secs_30 == old_report.secs_30
        }),
{
    lemma_ring_reports_one_more(state.ring, stats::nanos_of(elapsed), status, tick, now);
}

/// The same holds of the report on the route of the request.
pub proof fn law_finished_request_is_reported_on_its_route(
    state: HttpState,
    id: u64,
    elapsed: u128,
    status: u16,
    tick: u64,
    now: u64,
    i: int,
)
    requires
        accounts(state),
        endpoints::is_row_id(state.table.rows, i, id),
        state.table.rows[i].in_flight > 0,
        ring_laws::not_ahead(state.table.rows[i].ring, tick),
        tick <= now < tick + WINDOW_SECS,
    ensures
        ({
            let after = stats::completed(state, id, elapsed, status, tick);
            let old_report = http_stats::window_reports(state.table.rows[i].ring, now as int);
            let new_report = http_stats::window_reports(after.table.rows[i].ring, now as int);
            &&& after.table.rows[i].id == id
            &&& reports_one_more(new_report.secs_60, old_report.secs_60, status)
            &&& now < tick + WINDOW_30_SECS ==> reports_one_more(
                new_report.secs_30,
                old_report.secs_30,
                status,
            )
            &&& now >= tick + WINDOW_30_SECS ==> new_report.secs_30 == old_report.secs_30
        }),
{
    let row = state.table.rows[i];
    let k = choose|k: int| endpoints::is_row_id(state.table.rows, k, id);
    assert(state.table.rows[k].id == state.table.rows[i].id);
    assert(k == i);
    assert(row_accounts(row, state.requests));
    lemma_ring_reports_one_more(row.ring, stats::nanos_of(elapsed), status, tick, now);
}

/// One where something holds, else zero.
pub open spec fn one_if(holds: bool) -> int {
    if holds {
        1
    } else {
        0
    }
}

/// A request is in no report from a minute after it finished: the reports are
/// what they were without it.
pub proof fn law_old_requests_are_not_reported(
    state: HttpState,
    id: u64,
    elapsed: u128,
    status: u16,
    tick: u64,
    now: u64,
    unix: i64,
)
    requires
        accounts(state),
        ring_laws::not_ahead(state.ring, tick),
        now >= tick + WINDOW_SECS,
        now < u64::MAX,
    ensures
        ({
            let after = stats::completed(state, id, elapsed, status, tick);
            &&& http_stats::window_reports(after.ring, now as int) == http_stats::window_reports(
                state.ring,
                now as int,
            )
            &&& http_stats::series_report(after.ring, now as int, unix)
                == http_stats::series_report(state.ring, now as int, unix)
        }),
{
    ring_laws::law_forgotten_after_a_minute(
        state.ring,
        tick,
        stats::nanos_of(elapsed),
        stats::class_of(status),
        now,
    );
    let after = stats::completed(state, id, elapsed, status, tick);
    assert(http_stats::series_report(after.ring, now as int, unix) =~= http_stats::series_report(
        state.ring,
        now as int,
        unix,
    ));
}

/// Whether two entries of a listing say the same.
pub open spec fn same_entry(a: HttpEndpointStats, b: HttpEndpointStats) -> bool {
    &&& a.method@ == b.method@
    &&& a.path@ == b.path@
    &&& a.in_flight == b.in_flight
    &&& a.windows == b.windows
}

proof fn lemma_precedes_is_strict(a: HttpEndpointStats, b: HttpEndpointStats)
    ensures
        !(a.precedes(b) && b.precedes(a)),
        same_entry(a, b) ==> !a.precedes(b),
{
    text::lemma_order_is_total(a.method@, b.method@);
    text::lemma_order_is_total(a.path@, b.path@);
    text::lemma_order_is_total(a.path@, a.path@);
}

proof fn lemma_same_at(
    a: Seq<HttpEndpointStats>,
    b: Seq<HttpEndpointStats>,
    rows: Seq<RouteState>,
    tick: int,
    i: int,
)
    requires
        http_stats::reports_all(a, rows, tick),
        http_stats::reports_all(b, rows, tick),
        0 <= i < a.len(),
        forall|k: int| 0 <= k < i ==> same_entry(#[trigger] a[k], b[k]),
    ensures
        same_entry(a[i], b[i]),
{
    assert(http_stats::reports_some(a[i], rows, tick));
    assert(http_stats::reports_some(b[i], rows, tick));
    let r = choose|r: int| 0 <= r < rows.len() && a[i].reports(#[trigger] rows[r], tick);
    let q = choose|q: int| 0 <= q < rows.len() && b[i].reports(#[trigger] rows[q], tick);
    assert(http_stats::is_reported(b, rows[r], tick));
    assert(http_stats::is_reported(a, rows[q], tick));
    let j = choose|j: int| 0 <= j < b.len() && (#[trigger] b[j]).reports(rows[r], tick);
    let k = choose|k: int| 0 <= k < a.len() && (#[trigger] a[k]).reports(rows[q], tick);
    if j < i {
        assert(same_entry(a[j], b[j]));
        assert(a[j].precedes(a[i]));
        lemma_precedes_is_strict(a[j], a[i]);
    }
    if k < i {
        assert(same_entry(a[k], b[k]));
        assert(b[k].precedes(b[i]));
        lemma_precedes_is_strict(b[k], b[i]);
    }
    if j > i && k > i {
        assert(b[i].precedes(b[j]));
        assert(a[i].precedes(a[k]));
        lemma_precedes_is_strict(a[i], b[i]);
    }
}

/// A listing of a table is determined by it: any two say the same, entry by
/// entry.
pub proof fn law_listing_is_determined(
    a: Seq<HttpEndpointStats>,
    b: Seq<HttpEndpointStats>,
    rows: Seq<RouteState>,
    tick: int,
    i: int,
)
    requires
        http_stats::reports_all(a, rows, tick),
        http_stats::reports_all(b, rows, tick),
        0 <= i < a.len(),
    ensures
        a.len() == b.len(),
        same_entry(a[i], b[i]),
    decreases i,
{
    assert forall|k: int| 0 <= k < i implies same_entry(#[trigger] a[k], b[k]) by {
        law_listing_is_determined(a, b, rows, tick, k);
    }
    lemma_same_at(a, b, rows, tick, i);
}

} // verus!

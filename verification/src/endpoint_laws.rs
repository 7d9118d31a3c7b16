//! What holds of a table of routes whatever requests it has seen.

use vstd::prelude::*;

use crate::endpoints;
use crate::endpoints::{
    EndpointSet, EndpointTraffic, RouteState, TableState, MAX_ENDPOINTS, OVERFLOW_METHOD,
    OVERFLOW_PATH,
};
use crate::history_laws;
use crate::route;
use crate::text;
use crate::window;
use crate::window::{Observation, SlotState, WindowAgg};

verus! {

/// Whether two states of a row differ at most in when it was last looked up.
pub open spec fn same_row(a: RouteState, b: RouteState) -> bool {
    &&& a.id == b.id
    &&& a.method == b.method
    &&& a.path == b.path
    &&& a.in_flight == b.in_flight
    &&& a.last_observe == b.last_observe
    &&& a.ring == b.ring
    &&& a.history == b.history
}

/// Whether a table still has a row.
pub open spec fn keeps(rows: Seq<RouteState>, row: RouteState) -> bool {
    exists|j: int| 0 <= j < rows.len() && same_row(#[trigger] rows[j], row)
}

/// Of idle rows one without requests in the last minute is evicted before one
/// with requests, and of two alike the one that was used longer ago.
pub proof fn law_cold_rows_go_first(rows: Seq<RouteState>, victim: int, other: int, tick: int)
    requires
        endpoints::is_victim(rows, victim, tick),
        endpoints::is_idle(rows, other),
    ensures
        rows[victim].in_flight == 0,
        endpoints::is_cold(rows[other], tick) ==> endpoints::is_cold(rows[victim], tick),
        endpoints::is_cold(rows[other], tick) == endpoints::is_cold(rows[victim], tick)
            ==> rows[victim].last_used <= rows[other].last_used,
{
    assert(endpoints::goes_first(rows, victim, other, tick));
}

proof fn lemma_victim_among(rows: Seq<RouteState>, n: int, tick: int) -> (best: Option<int>)
    requires
        0 <= n <= rows.len(),
    ensures
        match best {
            None => forall|j: int| 0 <= j < n ==> !#[trigger] endpoints::is_idle(rows, j),
            Some(b) => {
                &&& 0 <= b < n
                &&& endpoints::is_idle(rows, b)
                &&& forall|j: int|
                    0 <= j < n && #[trigger] endpoints::is_idle(rows, j) ==> endpoints::goes_first(
                        rows,
                        b,
                        j,
                        tick,
                    )
            },
        },
    decreases n,
{
    if n == 0 {
        None
    } else {
        let best = lemma_victim_among(rows, n - 1, tick);
        if !endpoints::is_idle(rows, n - 1) {
            best
        } else if best is None || !endpoints::goes_first(rows, best->0, n - 1, tick) {
            Some(n - 1)
        } else {
            best
        }
    }
}

/// Eviction fails exactly where every row is in flight.
pub proof fn law_eviction_needs_an_idle_row(rows: Seq<RouteState>, tick: int)
    ensures
        endpoints::evicted(rows, tick) is None <==> forall|i: int|
            0 <= i < rows.len() ==> (#[trigger] rows[i]).in_flight != 0,
{
    let best = lemma_victim_among(rows, rows.len() as int, tick);
    match best {
        Some(b) => {
            assert(endpoints::is_victim(rows, b, tick));
            assert(rows[b].in_flight == 0);
        },
        None => {
            assert forall|i: int| 0 <= i < rows.len() implies (#[trigger] rows[i]).in_flight
                != 0 by {
                assert(!endpoints::is_idle(rows, i));
            }
            assert forall|v: int| !endpoints::is_victim(rows, v, tick) by {}
        },
    }
}

proof fn lemma_evicted_keeps(rows: Seq<RouteState>, tick: int, row: RouteState)
    requires
        keeps(rows, row),
        row.in_flight != 0,
    ensures
        endpoints::evicted(rows, tick) matches Some(rest) ==> keeps(rest, row),
{
    if exists|i: int| endpoints::is_victim(rows, i, tick) {
        let v = choose|i: int| endpoints::is_victim(rows, i, tick);
        let j = choose|j: int| 0 <= j < rows.len() && same_row(#[trigger] rows[j], row);
        let rest = rows.remove(v);
        assert(rows[v].in_flight == 0);
        if j < v {
            assert(rest[j] == rows[j]);
        } else {
            assert(rest[j - 1] == rows[j]);
        }
    }
}

proof fn lemma_used_keeps(
    table: TableState,
    rows: Seq<RouteState>,
    method: Seq<char>,
    path: Seq<char>,
    row: RouteState,
)
    requires
        keeps(rows, row),
    ensures
        keeps(endpoints::used(table, rows, method, path).rows, row),
{
    let j = choose|j: int| 0 <= j < rows.len() && same_row(#[trigger] rows[j], row);
    let after = endpoints::used(table, rows, method, path).rows;
    assert(same_row(after[j], row));
}

/// A row with requests in flight is never evicted.
pub proof fn law_in_flight_rows_stay(
    table: TableState,
    method: Seq<char>,
    path: Seq<char>,
    tick: int,
    i: int,
)
    requires
        endpoints::table_wf(table),
        0 <= i < table.rows.len(),
        table.rows[i].in_flight != 0,
    ensures
        keeps(endpoints::assigned(table, method, path, tick).rows, table.rows[i]),
{
    let row = table.rows[i];
    assert(same_row(table.rows[i], row));
    assert(keeps(table.rows, row));
    lemma_evicted_keeps(table.rows, tick, row);
    match endpoints::evicted(table.rows, tick) {
        Some(rest) => {
            lemma_evicted_keeps(rest, tick, row);
        },
        None => {},
    }
    let (rows, own) = endpoints::chosen(table, method, path, tick);
    assert(keeps(rows, row));
    lemma_used_keeps(table, rows, method, path, row);
    lemma_used_keeps(table, rows, OVERFLOW_METHOD@, OVERFLOW_PATH@, row);
}

proof fn lemma_evicted_wf(table: TableState, rows: Seq<RouteState>, tick: int)
    requires
        endpoints::rows_distinct(rows, table.created),
        !table.overrun ==> endpoints::stamps_within(rows, table.clock),
    ensures
        endpoints::evicted(rows, tick) matches Some(rest) ==> endpoints::rows_distinct(
            rest,
            table.created,
        ) && (!table.overrun ==> endpoints::stamps_within(rest, table.clock))
            && endpoints::route_count(rest) <= endpoints::route_count(rows) && rest.len() == rows.len() - 1,
{
    if exists|i: int| endpoints::is_victim(rows, i, tick) {
        let v = choose|i: int| endpoints::is_victim(rows, i, tick);
        endpoints::lemma_rows_distinct_removed(rows, table.created, v);
        endpoints::lemma_route_count_drops(rows, v);
    }
}

proof fn lemma_used_wf(
    table: TableState,
    rows: Seq<RouteState>,
    method: Seq<char>,
    path: Seq<char>,
)
    requires
        endpoints::rows_distinct(rows, table.created),
        !table.overrun ==> endpoints::stamps_within(rows, table.clock),
        table.created < u64::MAX,
        endpoints::route_count(rows) <= MAX_ENDPOINTS,
        endpoints::has_row(rows, method, path) || endpoints::route_count(rows) < MAX_ENDPOINTS
            || (method == OVERFLOW_METHOD@ && path == OVERFLOW_PATH@ && rows.len()
            <= MAX_ENDPOINTS),
    ensures
        endpoints::table_wf(endpoints::used(table, rows, method, path)),
        0 <= endpoints::used_at(rows, method, path) < endpoints::used(
            table,
            rows,
            method,
            path,
        ).rows.len(),
{
    let clock = window::bumped(table.clock);
    if endpoints::has_row(rows, method, path) {
        let i = endpoints::row_of(rows, method, path);
        endpoints::lemma_updated(
            rows,
            table.created,
            i,
            RouteState { last_used: clock, ..rows[i] },
        );
    } else {
        let row = endpoints::new_row(table.created, method, path, clock);
        endpoints::lemma_pushed(rows, table.created, row);
        endpoints::lemma_route_count_pushed(rows, row);
    }
}

/// Assigning rows keeps a table within its bound, and its routes distinct.
pub proof fn law_table_stays_bounded(
    table: TableState,
    method: Seq<char>,
    path: Seq<char>,
    tick: int,
)
    requires
        endpoints::table_wf(table),
        table.created < u64::MAX,
    ensures
        endpoints::table_wf(endpoints::assigned(table, method, path, tick)),
        endpoints::assigned(table, method, path, tick).rows.len() <= MAX_ENDPOINTS + 1,
        0 <= endpoints::assigned_at(table, method, path, tick) < endpoints::assigned(
            table,
            method,
            path,
            tick,
        ).rows.len(),
{
    lemma_evicted_wf(table, table.rows, tick);
    match endpoints::evicted(table.rows, tick) {
        Some(rest) => {
            lemma_evicted_wf(table, rest, tick);
        },
        None => {},
    }
    let (rows, own) = endpoints::chosen(table, method, path, tick);
    if own {
        lemma_used_wf(table, rows, method, path);
    } else {
        lemma_used_wf(table, rows, OVERFLOW_METHOD@, OVERFLOW_PATH@);
    }
}

/// A request is assigned a row that carries its method and path, or the shared
/// row; the shared row only where every other row is in flight.
pub proof fn law_request_gets_its_row(
    table: TableState,
    method: Seq<char>,
    path: Seq<char>,
    tick: int,
)
    requires
        endpoints::table_wf(table),
        table.created < u64::MAX,
    ensures
        ({
            let after = endpoints::assigned(table, method, path, tick);
            let row = after.rows[endpoints::assigned_at(table, method, path, tick)];
            ||| row.method == method && row.path == path
            ||| {
                &&& row.method == OVERFLOW_METHOD@ && row.path == OVERFLOW_PATH@
                &&& forall|j: int|
                    0 <= j < after.rows.len() && j != endpoints::assigned_at(
                        table,
                        method,
                        path,
                        tick,
                    ) ==> (#[trigger] after.rows[j]).in_flight != 0
            }
        }),
{
    law_table_stays_bounded(table, method, path, tick);
    law_eviction_needs_an_idle_row(table.rows, tick);
    match endpoints::evicted(table.rows, tick) {
        Some(rest) => {
            law_eviction_needs_an_idle_row(rest, tick);
        },
        None => {},
    }
}

/// Ending a request undoes what its beginning did to the number of requests in
/// flight: what remains is that its row was looked up.
pub proof fn law_end_undoes_begin(
    table: TableState,
    method: Seq<char>,
    path: Seq<char>,
    tick: int,
)
    requires
        endpoints::table_wf(table),
        table.created < u64::MAX,
        endpoints::assigned(table, method, path, tick).rows[endpoints::assigned_at(
            table,
            method,
            path,
            tick,
        )].in_flight < u64::MAX,
    ensures
        ({
            let after = endpoints::begun(table, method, path, tick);
            let id = after.rows[endpoints::assigned_at(table, method, path, tick)].id;
            endpoints::ended(after, id) == endpoints::assigned(table, method, path, tick)
        }),
{
    law_table_stays_bounded(table, method, path, tick);
    let base = endpoints::assigned(table, method, path, tick);
    let after = endpoints::begun(table, method, path, tick);
    let i = endpoints::assigned_at(table, method, path, tick);
    let id = after.rows[i].id;
    assert(endpoints::is_row_id(after.rows, i, id));
    let k = choose|k: int| endpoints::is_row_id(after.rows, k, id);
    assert(base.rows[k].id == base.rows[i].id);
    assert(k == i);
    assert(endpoints::ended(after, id).rows =~= base.rows);
}

/// A request counted in one row changes no other row.
pub proof fn law_rows_do_not_interfere(
    table: TableState,
    id: u64,
    tick: u64,
    ns: u64,
    status_class: u8,
    i: int,
)
    requires
        endpoints::table_wf(table),
        0 <= i < table.rows.len(),
        table.rows[i].id != id,
    ensures
        endpoints::counted_in(table, id, tick, ns, status_class).rows[i] == table.rows[i],
        endpoints::ended(table, id).rows[i] == table.rows[i],
{
}

/// The row that a request is assigned becomes the most recently used one, as long
/// as the use counter does not pass its largest reading.
pub proof fn law_assigned_row_is_the_latest(
    table: TableState,
    method: Seq<char>,
    path: Seq<char>,
    tick: int,
    j: int,
)
    requires
        endpoints::table_wf(table),
        table.created < u64::MAX,
        !table.overrun,
        table.clock < u64::MAX,
        0 <= j < endpoints::assigned(table, method, path, tick).rows.len(),
        j != endpoints::assigned_at(table, method, path, tick),
    ensures
        ({
            let after = endpoints::assigned(table, method, path, tick);
            let at = endpoints::assigned_at(table, method, path, tick);
            &&& after.rows[j].last_used < after.rows[at].last_used
            &&& after.rows[at].last_used == after.clock
            &&& after.clock == table.clock + 1
            &&& !after.overrun
        }),
{
    law_table_stays_bounded(table, method, path, tick);
    lemma_evicted_wf(table, table.rows, tick);
    match endpoints::evicted(table.rows, tick) {
        Some(rest) => {
            lemma_evicted_wf(table, rest, tick);
        },
        None => {},
    }
    let (rows, own) = endpoints::chosen(table, method, path, tick);
    assert(endpoints::stamps_within(rows, table.clock));
    let after = endpoints::assigned(table, method, path, tick);
    if j < rows.len() {
        assert(after.rows[j].last_used == rows[j].last_used);
    }
}

/// A request whose method and path have the names of a row that is in the table
/// is assigned that row. No row is evicted or created, even in a full table, and
/// nothing changes but when the row was last looked up.
pub proof fn law_known_route_is_found(
    table: TableState,
    method: Seq<char>,
    path: Seq<char>,
    tick: int,
    i: int,
)
    requires
        endpoints::table_wf(table),
        endpoints::is_row(table.rows, i, route::method_name(method), route::path_name(path)),
    ensures
        ({
            let name = route::method_name(method);
            let place = route::path_name(path);
            let after = endpoints::assigned(table, name, place, tick);
            &&& endpoints::assigned_at(table, name, place, tick) == i
            &&& after.created == table.created
            &&& after.rows.len() == table.rows.len()
            &&& forall|j: int|
                0 <= j < table.rows.len() ==> same_row(#[trigger] after.rows[j], table.rows[j])
            &&& forall|j: int|
                0 <= j < table.rows.len() && j != i ==> #[trigger] after.rows[j] == table.rows[j]
        }),
{
    let name = route::method_name(method);
    let place = route::path_name(path);
    assert(endpoints::has_row(table.rows, name, place));
    endpoints::lemma_row_is_one(
        table.rows,
        table.created,
        i,
        endpoints::row_of(table.rows, name, place),
    );
}

proof fn lemma_all_old(history: Seq<Observation>, now: int)
    requires
        history_laws::in_order(history),
        history.len() > 0 ==> now - history.last().tick >= 60,
    ensures
        history_laws::counted_within(history, now, 60) == 0,
    decreases history.len(),
{
    if history.len() > 0 {
        history_laws::lemma_shorter_in_order(history);
        lemma_all_old(history.drop_last(), now);
    }
}

/// A row is cold exactly where its last minute holds no request. Its requests
/// were counted in the order of the seconds they ended in, and none ended after
/// second `tick`.
pub proof fn law_cold_rows_are_quiet(table: TableState, i: int, tick: u64)
    requires
        endpoints::table_wf(table),
        0 <= i < table.rows.len(),
        history_laws::in_order(table.rows[i].history),
        history_laws::ended_by(table.rows[i].history, tick as int),
        table.rows[i].history.len() <= u64::MAX,
    ensures
        endpoints::is_cold(table.rows[i], tick as int) <==> window::requests_total(
            window::last_minute(table.rows[i].ring, tick as int),
        ) == 0,
{
    let row = table.rows[i];
    assert(endpoints::row_recorded(row));
    history_laws::law_ring_counts_its_history(row.history, tick);
    if row.history.len() > 0 && endpoints::is_cold(row, tick as int) {
        lemma_all_old(row.history, tick as int);
    }
}

/// A row is not cold for a minute after its last request, and cold from then on.
/// One that never counted a request is cold in every second.
pub proof fn law_rows_cool_after_a_minute(row: RouteState, tick: int)
    requires
        endpoints::row_recorded(row),
    ensures
        row.history.len() == 0 ==> endpoints::is_cold(row, tick),
        row.history.len() > 0 && row.history.last().tick < u64::MAX ==> {
            let u = row.history.last().tick as int;
            endpoints::is_cold(row, tick) <==> tick >= u + 60
        },
{
}

/// Beginning and ending requests leaves what a row has counted, and so whether it
/// is cold.
pub proof fn law_begin_and_end_count_nothing(row: RouteState, in_flight: u64, last_used: u64)
    ensures
        ({
            let after = endpoints::ended_row(RouteState { in_flight, last_used, ..row });
            &&& after.ring == row.ring
            &&& after.history == row.history
            &&& forall|tick: int|
                #[trigger] endpoints::is_cold(after, tick) == endpoints::is_cold(row, tick)
        }),
{
}

/// Whether two aggregates say the same.
pub open spec fn same_window(a: WindowAgg, b: WindowAgg) -> bool {
    &&& a.seconds == b.seconds
    &&& a.covered_seconds == b.covered_seconds
    &&& a.requests == b.requests
    &&& a.rps == b.rps
    &&& a.status@ == b.status@
    &&& a.p50_ns == b.p50_ns
    &&& a.p95_ns == b.p95_ns
    &&& a.p99_ns == b.p99_ns
    &&& a.p999_ns == b.p999_ns
}

/// Whether two entries of a listing say the same.
pub open spec fn same_traffic(a: EndpointTraffic, b: EndpointTraffic) -> bool {
    &&& a.method@ == b.method@
    &&& a.path@ == b.path@
    &&& a.in_flight == b.in_flight
    &&& same_window(a.window_30, b.window_30)
    &&& same_window(a.window_60, b.window_60)
}

proof fn lemma_same_window(
    a: WindowAgg,
    b: WindowAgg,
    secs: Seq<Option<SlotState>>,
    span: int,
    tick: int,
)
    requires
        a.sums_up(secs, span, tick),
        b.sums_up(secs, span, tick),
    ensures
        same_window(a, b),
{
    assert forall|class: int| 0 <= class < 5 implies a.status@[class] == b.status@[class] by {
        assert(a.status@[class] == window::status_total(secs, class));
        assert(b.status@[class] == window::status_total(secs, class));
    }
    assert(a.status@ =~= b.status@);
}

proof fn lemma_same_traffic(a: EndpointTraffic, b: EndpointTraffic, row: RouteState, tick: int)
    requires
        a.shows(row, tick),
        b.shows(row, tick),
    ensures
        same_traffic(a, b),
{
    let minute = window::last_minute(row.ring, tick);
    lemma_same_window(a.window_60, b.window_60, minute, 60, tick);
    lemma_same_window(a.window_30, b.window_30, minute.skip(30), 30, tick);
}

proof fn lemma_listed_before_is_strict(a: EndpointTraffic, b: EndpointTraffic)
    ensures
        !(endpoints::listed_before(a, b) && endpoints::listed_before(b, a)),
        same_traffic(a, b) ==> !endpoints::listed_before(a, b),
{
    text::lemma_order_is_total(a.method@, b.method@);
    text::lemma_order_is_total(a.path@, b.path@);
    text::lemma_order_is_total(a.path@, a.path@);
}

proof fn lemma_same_entry_at(
    a: Seq<EndpointTraffic>,
    b: Seq<EndpointTraffic>,
    rows: Seq<RouteState>,
    tick: int,
    i: int,
)
    requires
        endpoints::lists(a, rows, tick),
        endpoints::lists(b, rows, tick),
        0 <= i < a.len(),
        forall|k: int| 0 <= k < i ==> same_traffic(#[trigger] a[k], b[k]),
    ensures
        same_traffic(a[i], b[i]),
{
    assert(endpoints::has_origin(a[i], rows, tick));
    assert(endpoints::has_origin(b[i], rows, tick));
    let r = choose|r: int| 0 <= r < rows.len() && a[i].shows(#[trigger] rows[r], tick);
    let q = choose|q: int| 0 <= q < rows.len() && b[i].shows(#[trigger] rows[q], tick);
    assert(endpoints::is_listed(b, rows[r], tick));
    assert(endpoints::is_listed(a, rows[q], tick));
    let j = choose|j: int| 0 <= j < b.len() && (#[trigger] b[j]).shows(rows[r], tick);
    let k = choose|k: int| 0 <= k < a.len() && (#[trigger] a[k]).shows(rows[q], tick);
    lemma_same_traffic(a[i], b[j], rows[r], tick);
    lemma_same_traffic(b[i], a[k], rows[q], tick);
    if j < i {
        assert(same_traffic(a[j], b[j]));
        assert(endpoints::listed_before(a[j], a[i]));
        lemma_listed_before_is_strict(a[j], a[i]);
    }
    if k < i {
        assert(same_traffic(a[k], b[k]));
        assert(endpoints::listed_before(b[k], b[i]));
        lemma_listed_before_is_strict(b[k], b[i]);
    }
    if j > i && k > i {
        assert(endpoints::listed_before(b[i], b[j]));
        assert(endpoints::listed_before(a[i], a[k]));
        lemma_listed_before_is_strict(a[i], b[i]);
    }
}

/// A listing of a table in one second is determined by it: any two say the same,
/// entry by entry. (Listing takes the table by a shared reference, so it leaves
/// the table as it is.)
pub proof fn law_listing_is_determined(
    a: Seq<EndpointTraffic>,
    b: Seq<EndpointTraffic>,
    rows: Seq<RouteState>,
    tick: int,
    i: int,
)
    requires
        endpoints::lists(a, rows, tick),
        endpoints::lists(b, rows, tick),
        0 <= i < a.len(),
    ensures
        a.len() == b.len(),
        same_traffic(a[i], b[i]),
    decreases i,
{
    assert forall|k: int| 0 <= k < i implies same_traffic(#[trigger] a[k], b[k]) by {
        law_listing_is_determined(a, b, rows, tick, k);
    }
    lemma_same_entry_at(a, b, rows, tick, i);
}

/// A listing has no method and path twice, and at most [`MAX_ENDPOINTS`] entries
/// besides that of the shared row.
pub proof fn law_listing_is_bounded(set: EndpointSet, list: Seq<EndpointTraffic>, tick: int)
    requires
        set.wf(),
        endpoints::lists(list, set@.rows, tick),
    ensures
        list.len() == set@.rows.len(),
        list.len() <= MAX_ENDPOINTS + 1,
        endpoints::route_count(set@.rows) <= MAX_ENDPOINTS,
        forall|i: int, j: int|
            #![trigger list[i], list[j]]
            0 <= i < j < list.len() ==> list[i].method@ != list[j].method@ || list[i].path@
                != list[j].path@,
{
    endpoints::law_routes_are_bounded(set);
    let rows = set@.rows;
    assert forall|i: int, j: int|
        #![trigger list[i], list[j]]
        0 <= i < j < list.len() implies list[i].method@ != list[j].method@ || list[i].path@
        != list[j].path@ by {
        if list[i].method@ == list[j].method@ && list[i].path@ == list[j].path@ {
            assert(endpoints::has_origin(list[i], rows, tick));
            assert(endpoints::has_origin(list[j], rows, tick));
            let r = choose|r: int| 0 <= r < rows.len() && list[i].shows(#[trigger] rows[r], tick);
            let q = choose|q: int| 0 <= q < rows.len() && list[j].shows(#[trigger] rows[q], tick);
            endpoints::lemma_row_is_one(rows, set@.created, r, q);
            lemma_same_traffic(list[i], list[j], rows[r], tick);
            assert(endpoints::listed_before(list[i], list[j]));
            lemma_listed_before_is_strict(list[i], list[j]);
        }
    }
}

/// Whether no request of a row ended in the sixty seconds before second `tick`.
pub open spec fn is_quiet(row: RouteState, tick: int) -> bool {
    row.history.len() == 0 || row.history.last().tick + 60 <= tick
}

/// A route that has no row gets one of its own as long as there are fewer than 64
/// rows, and no row is given up for it.
pub proof fn law_there_is_room_for_sixty_four(
    table: TableState,
    method: Seq<char>,
    path: Seq<char>,
    tick: int,
)
    requires
        endpoints::table_wf(table),
        table.rows.len() < 64,
        forall|i: int|
            0 <= i < table.rows.len() ==> (#[trigger] table.rows[i]).method != method
                || table.rows[i].path != path,
    ensures
        ({
            let after = endpoints::assigned(table, method, path, tick);
            let n = table.rows.len() as int;
            &&& after.rows.len() == n + 1
            &&& after.rows.take(n) == table.rows
            &&& endpoints::assigned_at(table, method, path, tick) == n
            &&& after.rows[n].method == method
            &&& after.rows[n].path == path
            &&& after.rows[n].in_flight == 0
            &&& after.rows[n].history.len() == 0
        }),
{
    assert(!endpoints::has_row(table.rows, method, path));
    assert(endpoints::assigned(table, method, path, tick).rows.take(table.rows.len() as int)
        =~= table.rows);
}

/// Whether row `v` is the one to give up: no request is in flight on it, and of
/// all such rows it is a quiet one where there are any, and the one that was used
/// longest ago.
pub open spec fn is_given_up(rows: Seq<RouteState>, v: int, tick: int) -> bool {
    &&& 0 <= v < rows.len()
    &&& rows[v].in_flight == 0
    &&& forall|j: int|
        0 <= j < rows.len() && j != v && (#[trigger] rows[j]).in_flight == 0 ==> {
            ||| is_quiet(rows[v], tick) && !is_quiet(rows[j], tick)
            ||| is_quiet(rows[v], tick) == is_quiet(rows[j], tick) && rows[v].last_used
                < rows[j].last_used
        }
}

/// A new route takes the place of the row to give up where 64 routes have a row,
/// and all other rows stay as they are.
pub proof fn law_full_table_gives_up_one_row(
    table: TableState,
    method: Seq<char>,
    path: Seq<char>,
    tick: int,
    v: int,
)
    requires
        endpoints::table_wf(table),
        table.rows.len() == 64,
        forall|i: int|
            0 <= i < table.rows.len() ==> {
                &&& (#[trigger] table.rows[i]).method != method || table.rows[i].path != path
                &&& table.rows[i].method != "*"@ || table.rows[i].path != "/..."@
                &&& table.rows[i].history.len() > 0 ==> table.rows[i].history.last().tick < u64::MAX
            },
        is_given_up(table.rows, v, tick),
    ensures
        ({
            let after = endpoints::assigned(table, method, path, tick);
            &&& after.rows.len() == 64
            &&& after.rows.take(63) == table.rows.remove(v)
            &&& endpoints::assigned_at(table, method, path, tick) == 63
            &&& after.rows[63].method == method
            &&& after.rows[63].path == path
            &&& after.rows[63].in_flight == 0
            &&& after.rows[63].history.len() == 0
        }),
{
    let rows = table.rows;
    assert(!endpoints::has_row(rows, method, path));
    assert forall|i: int| 0 <= i < rows.len() implies endpoints::is_cold(rows[i], tick) == is_quiet(
        #[trigger] rows[i],
        tick,
    ) by {
        assert(endpoints::row_recorded(rows[i]));
    }
    assert forall|j: int| #[trigger] endpoints::is_idle(rows, j) implies endpoints::goes_first(
        rows,
        v,
        j,
        tick,
    ) by {
        assert(endpoints::is_cold(rows[v], tick) == is_quiet(rows[v], tick));
        assert(endpoints::is_cold(rows[j], tick) == is_quiet(rows[j], tick));
    }
    assert(endpoints::is_victim(rows, v, tick));
    endpoints::lemma_victim_is_one(
        rows,
        v,
        choose|i: int| endpoints::is_victim(rows, i, tick),
        tick,
    );
    let rest = rows.remove(v);
    assert(!endpoints::has_row(rest, method, path)) by {
        assert forall|i: int| !endpoints::is_row(rest, i, method, path) by {
            if 0 <= i < rest.len() {
                assert(rest[i] == rows[if i < v {
                    i
                } else {
                    i + 1
                }]);
            }
        }
    }
    assert(!endpoints::has_row(
        rest,
        endpoints::OVERFLOW_METHOD@,
        endpoints::OVERFLOW_PATH@,
    )) by {
        assert forall|i: int|
            !endpoints::is_row(
                rest,
                i,
                endpoints::OVERFLOW_METHOD@,
                endpoints::OVERFLOW_PATH@,
            ) by {
            if 0 <= i < rest.len() {
                assert(rest[i] == rows[if i < v {
                    i
                } else {
                    i + 1
                }]);
            }
        }
    }
    assert(endpoints::route_count(rest) == 63);
    assert(endpoints::assigned(table, method, path, tick).rows.take(63) =~= rest);
}

/// A new route shares a row named `*` and `/...` where requests are in flight on
/// 64 other routes.
pub proof fn law_busy_table_shares_a_row(
    table: TableState,
    method: Seq<char>,
    path: Seq<char>,
    tick: int,
)
    requires
        endpoints::table_wf(table),
        table.rows.len() >= 64,
        forall|i: int|
            0 <= i < table.rows.len() ==> {
                &&& (#[trigger] table.rows[i]).method != method || table.rows[i].path != path
                &&& table.rows[i].in_flight > 0
            },
    ensures
        ({
            let after = endpoints::assigned(table, method, path, tick);
            let at = endpoints::assigned_at(table, method, path, tick);
            &&& 0 <= at < after.rows.len()
            &&& after.rows[at].method == "*"@
            &&& after.rows[at].path == "/..."@
            &&& after.rows.len() <= 65
            &&& forall|j: int|
                0 <= j < table.rows.len() && j != at ==> #[trigger] after.rows[j] == table.rows[j]
        }),
{
    let rows = table.rows;
    assert(!endpoints::has_row(rows, method, path));
    assert forall|i: int| !endpoints::is_victim(rows, i, tick) by {}
    if endpoints::has_row(rows, endpoints::OVERFLOW_METHOD@, endpoints::OVERFLOW_PATH@) {
        let k = endpoints::row_of(rows, endpoints::OVERFLOW_METHOD@, endpoints::OVERFLOW_PATH@);
        assert(endpoints::is_row(
            rows,
            k,
            endpoints::OVERFLOW_METHOD@,
            endpoints::OVERFLOW_PATH@,
        ));
    }
}

} // verus!

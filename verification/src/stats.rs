//! HTTP metrics of a service and the life of a request in them.

use vstd::prelude::*;

use crate::endpoints;
use crate::endpoints::{EndpointSet, RouteHandle, TableState};
use crate::route;
use crate::text::{chars_of, eq_chars};
use crate::window;
use crate::window::{SlidingWindow, SlotState};

verus! {

/// Status that stands for a request that failed without a response.
pub const FAILED_STATUS: u16 = 500;

/// Everything that is known of the HTTP traffic of a service.
#[verifier::ext_equal]
pub struct HttpState {
    /// Requests ever begun.
    pub requests: u64,
    /// Requests begun and not yet released.
    pub in_flight: u64,
    /// Finished requests by status class, counted from class 1xx.
    pub status: Seq<u64>,
    /// The last minute of traffic.
    pub ring: Seq<SlotState>,
    /// The last minute of traffic by route.
    pub table: TableState,
}

/// Class of a status code, zero for a code outside of the five classes.
pub open spec fn class_of(status: u16) -> u8 {
    if 100 <= status < 600 {
        (status / 100) as u8
    } else {
        0
    }
}

/// A duration in nanoseconds as it is counted; one too long for 64 bits counts
/// as the longest.
pub open spec fn nanos_of(elapsed: u128) -> u64 {
    if elapsed <= u64::MAX {
        elapsed as u64
    } else {
        u64::MAX
    }
}

/// A counter after one event less; zero is followed by the largest count.
pub open spec fn lowered_count(count: u64) -> u64 {
    if count == 0 {
        u64::MAX
    } else {
        (count - 1) as u64
    }
}

/// The metrics after one more request was begun.
pub open spec fn begun_request(state: HttpState) -> HttpState {
    HttpState {
        requests: (state.requests + 1) as u64,
        in_flight: window::bumped(state.in_flight),
        ..state
    }
}

/// The metrics after a request finished in second `tick`.
pub open spec fn finished(state: HttpState, elapsed: u128, status: u16, tick: u64) -> HttpState {
    let class = class_of(status);
    HttpState {
        status: if class == 0 {
            state.status
        } else {
            state.status.update(class - 1, window::bumped(state.status[class - 1]))
        },
        ring: window::observed(state.ring, tick, nanos_of(elapsed), class),
        ..state
    }
}

/// The metrics after an application request was begun on its route.
pub open spec fn started(
    state: HttpState,
    method: Seq<char>,
    path: Seq<char>,
    tick: u64,
) -> HttpState {
    HttpState {
        table: endpoints::begun(
            state.table,
            route::method_name(method),
            route::path_name(path),
            tick as int,
        ),
        ..begun_request(state)
    }
}

/// Place of the route that the request was begun on.
pub open spec fn started_at(
    state: HttpState,
    method: Seq<char>,
    path: Seq<char>,
    tick: u64,
) -> int {
    endpoints::assigned_at(
        state.table,
        route::method_name(method),
        route::path_name(path),
        tick as int,
    )
}

/// The metrics after a request on the route `id` finished.
pub open spec fn completed(
    state: HttpState,
    id: u64,
    elapsed: u128,
    status: u16,
    tick: u64,
) -> HttpState {
    HttpState {
        table: endpoints::counted_in(
            state.table,
            id,
            tick,
            nanos_of(elapsed),
            class_of(status),
        ),
        ..finished(state, elapsed, status, tick)
    }
}

/// The metrics after a request on the route `id` is no longer in flight.
pub open spec fn released(state: HttpState, id: u64) -> HttpState {
    HttpState {
        in_flight: lowered_count(state.in_flight),
        table: endpoints::ended(state.table, id),
        ..state
    }
}

/// A request that was begun, for as long as it lasts.
#[derive(Debug)]
pub struct StartedRequest {
    sequence: u64,
    route: RouteHandle,
}

impl StartedRequest {
    /// Which request this is, counted from one.
    pub closed spec fn number(&self) -> u64 {
        self.sequence
    }

    /// Identity of the row of its route.
    pub closed spec fn id(&self) -> u64 {
        self.route.id()
    }

    /// Which request this is, counted from one.
    pub fn sequence(&self) -> (number: u64)
        ensures
            number == self.number(),
    {
        self.sequence
    }
}

/// HTTP metrics of a service.
pub struct HttpMetrics {
    requests: u64,
    in_flight: u64,
    status1: u64,
    status2: u64,
    status3: u64,
    status4: u64,
    status5: u64,
    latency: SlidingWindow,
    endpoints: EndpointSet,
}

impl HttpMetrics {
    /// The metrics.
    pub closed spec fn view(&self) -> HttpState {
        HttpState {
            requests: self.requests,
            in_flight: self.in_flight,
            status: seq![self.status1, self.status2, self.status3, self.status4, self.status5],
            ring: self.latency@,
            table: self.endpoints@,
        }
    }

    /// The ring and the table hold what they must, and no more routes were
    /// created or looked up than requests begun.
    pub closed spec fn wf(&self) -> bool {
        &&& self.latency.wf()
        &&& self.endpoints.wf()
        &&& self.endpoints@.created <= self.requests
        &&& self.endpoints@.clock <= self.requests
        &&& !self.endpoints@.overrun
    }

    /// Metrics without traffic.
    pub fn new() -> (metrics: Self)
        ensures
            metrics.wf(),
            metrics@ == (HttpState {
                requests: 0,
                in_flight: 0,
                status: Seq::new(5, |i: int| 0u64),
                ring: Seq::new(60, |i: int| window::fresh_slot(u64::MAX)),
                table: TableState { clock: 0, overrun: false, created: 0, rows: Seq::empty() },
            }),
    {
        let metrics = HttpMetrics {
            requests: 0,
            in_flight: 0,
            status1: 0,
            status2: 0,
            status3: 0,
            status4: 0,
            status5: 0,
            latency: SlidingWindow::new(),
            endpoints: EndpointSet::new(),
        };
        assert(metrics@.status =~= Seq::new(5, |i: int| 0u64));
        metrics
    }

    /// Counts a request that begins and tells which one it is.
    pub fn begin_request(&mut self) -> (sequence: u64)
        requires
            old(self).wf(),
            old(self)@.requests < u64::MAX,
        ensures
            final(self).wf(),
            final(self)@ == begun_request(old(self)@),
            sequence == old(self)@.requests + 1,
    {
        let sequence: u64 = self.requests + 1;
        self.requests = sequence;
        self.in_flight = self.in_flight.wrapping_add(1);
        sequence
    }

    /// Counts a request that took `elapsed` nanoseconds and finished in second
    /// `tick`.
    pub fn finish(&mut self, elapsed: u128, status: u16, tick: u64)
        requires
            old(self).wf(),
        ensures
            final(self).wf(),
            final(self)@ == finished(old(self)@, elapsed, status, tick),
    {
        self.record_status(status);
        let ns: u64 = if elapsed <= u64::MAX as u128 {
            elapsed as u64
        } else {
            u64::MAX
        };
        self.latency.observe(tick, ns, status_class(status));
    }

    fn record_status(&mut self, status: u16)
        requires
            old(self).wf(),
        ensures
            final(self).wf(),
            final(self)@ == (HttpState {
                status: if class_of(status) == 0 {
                    old(self)@.status
                } else {
                    old(self)@.status.update(
                        class_of(status) - 1,
                        window::bumped(old(self)@.status[class_of(status) - 1]),
                    )
                },
                ..old(self)@
            }),
    {
        match status / 100 {
            1 => {
                self.status1 = self.status1.wrapping_add(1);
            },
            2 => {
                self.status2 = self.status2.wrapping_add(1);
            },
            3 => {
                self.status3 = self.status3.wrapping_add(1);
            },
            4 => {
                self.status4 = self.status4.wrapping_add(1);
            },
            5 => {
                self.status5 = self.status5.wrapping_add(1);
            },
            _ => {},
        }
        proof {
            let class = class_of(status);
            if class != 0 {
                assert(self@.status =~= old(self)@.status.update(
                    class - 1,
                    window::bumped(old(self)@.status[class - 1]),
                ));
            } else {
                assert(self@.status =~= old(self)@.status);
            }
        }
    }

    /// Counts a request as no longer in flight.
    pub fn end_in_flight(&mut self)
        requires
            old(self).wf(),
        ensures
            final(self).wf(),
            final(self)@ == (HttpState {
                in_flight: lowered_count(old(self)@.in_flight),
                ..old(self)@
            }),
    {
        self.in_flight = self.in_flight.wrapping_sub(1);
    }

    /// Decides on a request to `path` that begins in second `tick`. A request to
    /// `skip_path` is not counted; any other begins on its route.
    pub fn on_request(&mut self, skip_path: &str, method: &str, path: &str, tick: u64) -> (request:
        Option<StartedRequest>)
        requires
            old(self).wf(),
            path@ != skip_path@ ==> old(self)@.requests < u64::MAX,
        ensures
            final(self).wf(),
            request is None <==> path@ == skip_path@,
            request is None ==> final(self)@ == old(self)@,
            request matches Some(r) ==> {
                &&& final(self)@ == started(old(self)@, method@, path@, tick)
                &&& r.number() == final(self)@.requests
                &&& r.id() == final(self)@.table.rows[started_at(
                    old(self)@,
                    method@,
                    path@,
                    tick,
                )].id
            },
    {
        let asked = chars_of(path);
        let skipped = chars_of(skip_path);
        if eq_chars(asked.as_slice(), skipped.as_slice()) {
            return None;
        }
        proof {
            endpoints::lemma_created(
                self.endpoints@,
                route::method_name(method@),
                route::path_name(path@),
                tick as int,
            );
        }
        let sequence = self.begin_request();
        let route = self.endpoints.begin(method, path, tick);
        Some(StartedRequest { sequence, route })
    }

    /// Counts a begun request that took `elapsed` nanoseconds and finished in
    /// second `tick`, with a status or without a response.
    pub fn on_response(
        &mut self,
        request: &StartedRequest,
        elapsed: u128,
        status: Option<u16>,
        tick: u64,
    )
        requires
            old(self).wf(),
        ensures
            final(self).wf(),
            final(self)@ == completed(
                old(self)@,
                request.id(),
                elapsed,
                match status {
                    Some(code) => code,
                    None => FAILED_STATUS,
                },
                tick,
            ),
    {
        let code: u16 = match status {
            Some(code) => code,
            None => FAILED_STATUS,
        };
        let ns: u64 = if elapsed <= u64::MAX as u128 {
            elapsed as u64
        } else {
            u64::MAX
        };
        self.finish(elapsed, code, tick);
        self.endpoints.observe(&request.route, tick, ns, status_class(code));
    }

    /// Ends a begun request, finished or not.
    pub fn on_release(&mut self, request: &StartedRequest)
        requires
            old(self).wf(),
        ensures
            final(self).wf(),
            final(self)@ == released(old(self)@, request.id()),
    {
        self.end_in_flight();
        self.endpoints.end(&request.route);
    }

    pub fn requests(&self) -> (count: u64)
        ensures
            count == self@.requests,
    {
        self.requests
    }

    pub fn in_flight(&self) -> (count: u64)
        ensures
            count == self@.in_flight,
    {
        self.in_flight
    }

    pub fn status1(&self) -> (count: u64)
        ensures
            count == self@.status[0],
    {
        self.status1
    }

    pub fn status2(&self) -> (count: u64)
        ensures
            count == self@.status[1],
    {
        self.status2
    }

    pub fn status3(&self) -> (count: u64)
        ensures
            count == self@.status[2],
    {
        self.status3
    }

    pub fn status4(&self) -> (count: u64)
        ensures
            count == self@.status[3],
    {
        self.status4
    }

    pub fn status5(&self) -> (count: u64)
        ensures
            count == self@.status[4],
    {
        self.status5
    }

    /// The last minute of traffic.
    pub fn latency(&self) -> (window: &SlidingWindow)
        requires
            self.wf(),
        ensures
            window.wf(),
            window@ == self@.ring,
    {
        &self.latency
    }

    /// The last minute of traffic by route.
    pub fn endpoints(&self) -> (set: &EndpointSet)
        requires
            self.wf(),
        ensures
            set.wf(),
            set@ == self@.table,
    {
        &self.endpoints
    }
}

fn status_class(status: u16) -> (class: u8)
    ensures
        class == class_of(status),
{
    if 100 <= status && status < 600 {
        (status / 100) as u8
    } else {
        0
    }
}

/// What HTTP metrics always are: five status counters, a ring, a table of routes
/// within its bounds, and no more routes created or looked up than requests
/// begun, so that the use counter of the table never passes its largest reading.
pub proof fn lemma_metrics_wf(http: HttpMetrics)
    requires
        http.wf(),
    ensures
        http@.status.len() == 5,
        window::ring_wf(http@.ring),
        endpoints::table_wf(http@.table),
        http@.table.created <= http@.requests,
        http@.table.clock <= http@.requests,
        !http@.table.overrun,
{
    window::lemma_ring_wf(http.latency);
    endpoints::law_routes_are_bounded(http.endpoints);
}

} // verus!

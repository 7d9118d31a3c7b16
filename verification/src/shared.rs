//! Metrics of a service together with the snapshot that is shared for a while.

use vstd::prelude::*;

use crate::collect;
use crate::collect::{Collector, CollectorState};
use crate::histogram::WINDOW_SECS;
use crate::http_stats;
use crate::http_stats::is_reportable;
use crate::readings;
use crate::readings::Reading;
use crate::snapshot::Snapshot;
use crate::stats;
use crate::stats::{HttpMetrics, HttpState, StartedRequest};
use crate::window;

verus! {

/// A snapshot and the time at which it was kept.
#[derive(Debug)]
pub struct CacheEntry {
    pub snapshot: Snapshot,
    pub cached_at: u128,
}

/// Metrics, what the collector keeps, and the snapshot that is shared.
pub struct SharedState {
    pub http: HttpState,
    pub collector: CollectorState,
    pub cache: Option<CacheEntry>,
    /// How long a snapshot is shared, in nanoseconds.
    pub refresh: u128,
}

/// The snapshot that is shared at time `now`.
pub open spec fn shared_at(state: SharedState, now: u128) -> Option<Snapshot> {
    match state.cache {
        Some(entry) => if readings::since(now, entry.cached_at) < state.refresh {
            Some(entry.snapshot)
        } else {
            None
        },
        None => None,
    }
}

/// Whether one state follows from another by collecting a snapshot from a reading
/// in second `tick`, at Unix time `unix`, and keeping it from time `cached_at` on.
pub open spec fn renewed(
    after: SharedState,
    before: SharedState,
    reading: Reading,
    tick: int,
    unix: i64,
    cached_at: u128,
) -> bool {
    &&& after.http == before.http
    &&& after.refresh == before.refresh
    &&& after.collector == collect::collected(before.collector, reading)
    &&& after.cache matches Some(entry) && {
        &&& entry.cached_at == cached_at
        &&& collect::shows_reading(entry.snapshot, before.collector, reading)
        &&& entry.snapshot.http.reports(before.http, tick, unix)
    }
}

/// The state before any traffic and any snapshot.
pub open spec fn fresh_stats(refresh: u128) -> SharedState {
    SharedState {
        http: HttpState {
            requests: 0,
            in_flight: 0,
            status: Seq::new(5, |i: int| 0u64),
            ring: Seq::new(WINDOW_SECS as nat, |i: int| window::fresh_slot(u64::MAX)),
            table: crate::endpoints::TableState { clock: 0, overrun: false, created: 0, rows: Seq::empty() },
        },
        collector: collect::fresh_collector(),
        cache: None,
        refresh,
    }
}

/// Metrics of a service together with the snapshot that is shared for a while.
pub struct SharedStats {
    http: HttpMetrics,
    collector: Collector,
    cache: Option<CacheEntry>,
    refresh: u128,
}

impl SharedStats {
    pub closed spec fn view(&self) -> SharedState {
        SharedState {
            http: self.http@,
            collector: self.collector@,
            cache: self.cache,
            refresh: self.refresh,
        }
    }

    pub closed spec fn wf(&self) -> bool {
        self.http.wf()
    }

    /// Metrics without traffic, whose snapshots are shared for `refresh`
    /// nanoseconds.
    pub fn new(refresh: u128) -> (stats: Self)
        ensures
            stats.wf(),
            stats@ == fresh_stats(refresh),
    {
        SharedStats { http: HttpMetrics::new(), collector: Collector::new(), cache: None, refresh }
    }

    /// The HTTP metrics.
    pub fn http(&self) -> (http: &HttpMetrics)
        requires
            self.wf(),
        ensures
            http.wf(),
            http@ == self@.http,
    {
        &self.http
    }

    /// The snapshot that is shared at time `now`, if one was kept and is not too
    /// old.
    pub fn snapshot(&self, now: u128) -> (snapshot: Option<&Snapshot>)
        ensures
            match snapshot {
                Some(s) => shared_at(self@, now) == Some(*s),
                None => shared_at(self@, now) is None,
            },
    {
        match &self.cache {
            Some(entry) => if now.saturating_sub(entry.cached_at) < self.refresh {
                Some(&entry.snapshot)
            } else {
                None
            },
            None => None,
        }
    }

    /// The snapshot that was kept last, however old.
    pub fn latest(&self) -> (snapshot: Option<&Snapshot>)
        ensures
            match snapshot {
                Some(s) => self@.cache matches Some(entry) && entry.snapshot == *s,
                None => self@.cache is None,
            },
    {
        match &self.cache {
            Some(entry) => Some(&entry.snapshot),
            None => None,
        }
    }

    /// Tests whether the disk is to be read for a snapshot at time `now`.
    pub fn disk_due(&self, now: u128) -> (due: bool)
        ensures
            due == collect::is_disk_due(self@.collector, now),
    {
        self.collector.disk_due(now)
    }

    /// Tests whether the metrics can be reported in second `tick`.
    pub fn is_reportable(&self, tick: u64) -> (fits: bool)
        requires
            self.wf(),
        ensures
            fits == http_stats::can_report(self@.http, tick as int),
    {
        is_reportable(&self.http, tick)
    }

    /// Collects a snapshot from a reading in second `tick`, at Unix time `unix`,
    /// and keeps it from time `cached_at` on.
    pub fn collect(&mut self, reading: Reading, tick: u64, unix: i64, cached_at: u128)
        requires
            old(self).wf(),
            http_stats::can_report(old(self)@.http, tick as int),
        ensures
            final(self).wf(),
            renewed(final(self)@, old(self)@, reading, tick as int, unix, cached_at),
    {
        let snapshot = self.collector.collect(reading, &self.http, tick, unix);
        self.cache = Some(CacheEntry { snapshot, cached_at });
    }

    /// Decides on a request, as [`HttpMetrics::on_request`] does.
    pub fn on_request(&mut self, skip_path: &str, method: &str, path: &str, tick: u64) -> (request:
        Option<StartedRequest>)
        requires
            old(self).wf(),
            path@ != skip_path@ ==> old(self)@.http.requests < u64::MAX,
        ensures
            final(self).wf(),
            request is None <==> path@ == skip_path@,
            request is None ==> final(self)@ == old(self)@,
            request matches Some(r) ==> {
                &&& final(self)@ == (SharedState {
                    http: stats::started(old(self)@.http, method@, path@, tick),
                    ..old(self)@
                })
                &&& r.number() == final(self)@.http.requests
                &&& r.id() == final(self)@.http.table.rows[stats::started_at(
                    old(self)@.http,
                    method@,
                    path@,
                    tick,
                )].id
            },
    {
        self.http.on_request(skip_path, method, path, tick)
    }

    /// Counts a begun request that finished.
    pub fn on_response(
        &mut self,
        request: &StartedRequest,
        elapsed: u128,
        status: Option<u16>,
        tick: u64,
    )
        requires
            old(self).wf(),
        ensures
            final(self).wf(),
            final(self)@ == (SharedState {
                http: stats::completed(
                    old(self)@.http,
                    request.id(),
                    elapsed,
                    match status {
                        Some(code) => code,
                        None => stats::FAILED_STATUS,
                    },
                    tick,
                ),
                ..old(self)@
            }),
    {
        self.http.on_response(request, elapsed, status, tick);
    }

    /// Ends a begun request, finished or not.
    pub fn on_release(&mut self, request: &StartedRequest)
        requires
            old(self).wf(),
        ensures
            final(self).wf(),
            final(self)@ == (SharedState {
                http: stats::released(old(self)@.http, request.id()),
                ..old(self)@
            }),
    {
        self.http.on_release(request);
    }
}

/// A snapshot is shared from when it was kept until the refresh interval has
/// passed, and not longer.
pub proof fn law_snapshot_is_shared_for_refresh(state: SharedState, now: u128)
    requires
        state.cache is Some,
        now >= state.cache->0.cached_at,
    ensures
        now < state.cache->0.cached_at + state.refresh ==> shared_at(state, now) == Some(
            state.cache->0.snapshot,
        ),
        now >= state.cache->0.cached_at + state.refresh ==> shared_at(state, now) is None,
{
}

/// The state after requests were begun, finished or released: nothing but the
/// HTTP metrics has changed.
pub open spec fn after_requests(state: SharedState, http: HttpState) -> SharedState {
    SharedState { http, ..state }
}

/// Where a snapshot was collected at time `a` and requests were recorded since,
/// it is what is shared at time `b` as long as less than the refresh interval has
/// passed, without those requests. From then on none is shared; one that is
/// collected then counts them and takes its place.
pub proof fn law_snapshot_is_shared_and_then_renewed(
    state: SharedState,
    http: HttpState,
    renewal: SharedState,
    reading: Reading,
    tick: int,
    unix: i64,
    b: u128,
)
    requires
        state.cache is Some,
        b >= state.cache->0.cached_at,
        shared_at(after_requests(state, http), b) is None ==> renewed(
            renewal,
            after_requests(state, http),
            reading,
            tick,
            unix,
            b,
        ),
    ensures
        b - state.cache->0.cached_at < state.refresh ==> {
            &&& shared_at(after_requests(state, http), b) == Some(state.cache->0.snapshot)
            &&& after_requests(state, http).collector == state.collector
        },
        b - state.cache->0.cached_at >= state.refresh ==> {
            &&& shared_at(after_requests(state, http), b) is None
            &&& renewal.cache is Some
            &&& renewal.cache->0.cached_at == b
            &&& renewal.cache->0.snapshot.http.reports(http, tick, unix)
            &&& renewal.refresh > 0 ==> shared_at(renewal, b) == Some(
                renewal.cache->0.snapshot,
            )
        },
{
}

/// What the metrics of a service always are, as [`stats::lemma_metrics_wf`] says.
pub proof fn lemma_shared_wf(shared: SharedStats)
    requires
        shared.wf(),
    ensures
        shared@.http.status.len() == 5,
        window::ring_wf(shared@.http.ring),
        crate::endpoints::table_wf(shared@.http.table),
        shared@.http.table.created <= shared@.http.requests,
        shared@.http.table.clock <= shared@.http.requests,
        !shared@.http.table.overrun,
{
    stats::lemma_metrics_wf(shared.http);
}

} // verus!

//! What readings and reports tell of a run of requests, in numbers.

use vstd::prelude::*;

use crate::endpoint_laws;
use crate::endpoints;
use crate::histogram;
use crate::histogram::BUCKETS;
use crate::history_laws;
use crate::http_stats;
use crate::ring_laws;
use crate::route;
use crate::snapshot::{HttpSecondSample, HttpStats, HttpWindowStats};
use crate::stats;
use crate::stats::HttpState;
use crate::stats_laws;
use crate::sums;
use crate::text;
use crate::window;
use crate::window::{
    Observation, SecondSample, SlidingWindow, SlotState, TrafficSnapshot, WindowAgg,
};

verus! {

/// Requests that ended in the last `span` seconds up to second `now`.
pub open spec fn lately(now: int, span: int) -> spec_fn(Observation) -> bool {
    |o: Observation| now - span < o.tick <= now
}

/// Requests that ended in one second.
pub open spec fn just_then(second: int) -> spec_fn(Observation) -> bool {
    |o: Observation| o.tick == second
}

/// Those among some requests with a status of one class.
pub open spec fn of_class(some: spec_fn(Observation) -> bool, class: int) -> spec_fn(
    Observation,
) -> bool {
    |o: Observation| some(o) && o.status_class == class
}

spec fn in_bucket(some: spec_fn(Observation) -> bool, bucket: int) -> spec_fn(Observation) -> bool {
    |o: Observation| some(o) && histogram::bucket_index(o.ns as int) == bucket
}

spec fn in_first(some: spec_fn(Observation) -> bool, n: int) -> spec_fn(Observation) -> bool {
    |o: Observation| some(o) && histogram::bucket_index(o.ns as int) < n
}

/// Those among some requests that took at most `ns` nanoseconds; a minute stands
/// for any longer time.
pub open spec fn at_most(some: spec_fn(Observation) -> bool, ns: u64) -> spec_fn(
    Observation,
) -> bool {
    |o: Observation| some(o) && (o.ns <= ns || ns == 60_000_000_000)
}

/// Those among some requests that took less than eight ninths of `ns`
/// nanoseconds; the shortest time is a nanosecond.
pub open spec fn well_below(some: spec_fn(Observation) -> bool, ns: u64) -> spec_fn(
    Observation,
) -> bool {
    |o: Observation| some(o) && 9 * o.ns < 8 * ns && ns >= 2
}

/// Whether a latency is told exactly where there are requests, at least
/// `permille` thousandths of them took no longer, and fewer took clearly less.
pub open spec fn has_share(
    latency: Option<u64>,
    history: Seq<Observation>,
    some: spec_fn(Observation) -> bool,
    permille: int,
) -> bool {
    let all = sums::how_many(history, some);
    match latency {
        None => all == 0,
        Some(ns) => {
            &&& all > 0
            &&& 1 <= ns <= 60_000_000_000
            &&& 1000 * sums::how_many(history, at_most(some, ns)) >= permille * all
            &&& 1000 * sums::how_many(history, well_below(some, ns)) < permille * all
        },
    }
}

proof fn lemma_first_buckets(
    buckets: Seq<nat>,
    history: Seq<Observation>,
    some: spec_fn(Observation) -> bool,
    n: int,
)
    requires
        buckets.len() == BUCKETS,
        forall|i: int|
            0 <= i < BUCKETS ==> #[trigger] buckets[i] == sums::how_many(
                history,
                in_bucket(some, i),
            ),
        0 <= n <= BUCKETS,
    ensures
        histogram::total_of(buckets, n) == sums::how_many(history, in_first(some, n)),
    decreases n,
{
    if n == 0 {
        assert(buckets.take(0) =~= Seq::<nat>::empty());
        assert forall|i: int| 0 <= i < history.len() implies in_first(some, 0)(
            #[trigger] history[i],
        ) ==> false by {
            histogram::lemma_bucket_sides(history[i].ns as int, 0);
        }
        sums::lemma_how_many_weaker(history, in_first(some, 0), |o: Observation| false);
        lemma_none(history);
    } else {
        lemma_first_buckets(buckets, history, some, n - 1);
        sums::lemma_total_prefix_step(buckets, n - 1);
        assert(buckets[n - 1] == sums::how_many(history, in_bucket(some, n - 1)));
        sums::lemma_how_many_joined(
            history,
            in_first(some, n - 1),
            in_bucket(some, n - 1),
            in_first(some, n),
        );
    }
}

proof fn lemma_none(history: Seq<Observation>)
    ensures
        sums::how_many(history, |o: Observation| false) == 0,
    decreases history.len(),
{
    if history.len() > 0 {
        lemma_none(history.drop_last());
    }
}

proof fn lemma_has_share(
    buckets: Seq<nat>,
    history: Seq<Observation>,
    some: spec_fn(Observation) -> bool,
    permille: nat,
)
    requires
        buckets.len() == BUCKETS,
        forall|i: int|
            0 <= i < BUCKETS ==> #[trigger] buckets[i] == sums::how_many(
                history,
                in_bucket(some, i),
            ),
        history.len() <= u64::MAX,
        0 < permille <= 1000,
    ensures
        has_share(histogram::percentile_of(buckets, permille), history, some, permille as int),
        sums::total(buckets) == sums::how_many(history, some),
{
    lemma_first_buckets(buckets, history, some, BUCKETS as int);
    assert(buckets.take(BUCKETS as int) =~= buckets);
    assert forall|i: int| 0 <= i < history.len() implies in_first(some, BUCKETS as int)(
        #[trigger] history[i],
    ) == some(history[i]) by {
        histogram::lemma_bucket_sides(history[i].ns as int, 0);
    }
    sums::lemma_how_many_matched(history, history, in_first(some, BUCKETS as int), some);
    sums::lemma_how_many_bound(history, some);
    if sums::total(buckets) > 0 {
        let index = histogram::law_percentile_covers_its_share(buckets, permille);
        lemma_first_buckets(buckets, history, some, index);
        lemma_first_buckets(buckets, history, some, index + 1);
        histogram::lemma_top_near_low(index);
        let top = histogram::bucket_top(index);
        if index == 0 {
            assert forall|i: int| 0 <= i < history.len() implies in_first(some, 1)(
                #[trigger] history[i],
            ) ==> false by {
                histogram::lemma_bucket_sides(history[i].ns as int, 0);
            }
            sums::lemma_how_many_weaker(history, in_first(some, 1), |o: Observation| false);
            lemma_none(history);
            assert(permille * sums::total(buckets) > 0) by (nonlinear_arith)
                requires
                    permille > 0,
                    sums::total(buckets) > 0,
            ;
        }
        histogram::lemma_bucket_sides(1, index);
        histogram::lemma_bucket_sides(1, 1);
        assert(histogram::holds_latency(1, 1));
        histogram::law_bucket_is_unique(1, 1, histogram::bucket_index(1));
        assert(top >= 1);
        let ns = top as u64;
        assert forall|i: int| 0 <= i < history.len() implies in_first(some, index + 1)(
            #[trigger] history[i],
        ) ==> at_most(some, ns)(history[i]) by {
            histogram::lemma_bucket_sides(history[i].ns as int, index);
        }
        sums::lemma_how_many_weaker(history, in_first(some, index + 1), at_most(some, ns));
        assert forall|i: int| 0 <= i < history.len() implies well_below(some, ns)(
            #[trigger] history[i],
        ) ==> in_first(some, index)(history[i]) by {
            histogram::lemma_bucket_sides(history[i].ns as int, index);
        }
        sums::lemma_how_many_weaker(history, well_below(some, ns), in_first(some, index));
    }
}

proof fn lemma_counts_of_a_run(history: Seq<Observation>, now: int, span: int)
    ensures
        history_laws::counted_within(history, now, span) == sums::how_many(
            history,
            lately(now, span),
        ),
        forall|class: int|
            #[trigger] history_laws::status_within(history, now, span, class) == sums::how_many(
                history,
                of_class(lately(now, span), class + 1),
            ),
        forall|i: int|
            #[trigger] history_laws::bucket_within(history, now, span, i) == sums::how_many(
                history,
                in_bucket(lately(now, span), i),
            ),
    decreases history.len(),
{
    if history.len() > 0 {
        lemma_counts_of_a_run(history.drop_last(), now, span);
        assert forall|class: int|
            #[trigger] history_laws::status_within(history, now, span, class) == sums::how_many(
                history,
                of_class(lately(now, span), class + 1),
            ) by {
            assert(history_laws::status_within(history.drop_last(), now, span, class)
                == sums::how_many(
                history.drop_last(),
                of_class(lately(now, span), class + 1),
            ));
        }
        assert forall|i: int|
            #[trigger] history_laws::bucket_within(history, now, span, i) == sums::how_many(
                history,
                in_bucket(lately(now, span), i),
            ) by {
            assert(history_laws::bucket_within(history.drop_last(), now, span, i)
                == sums::how_many(history.drop_last(), in_bucket(lately(now, span), i)));
        }
    }
}

/// Whether an aggregate tells of the requests of the last `span` seconds up to
/// second `now`: how many there were, in all, by status class and per second
/// passed, and how long half of them, 95, 99 and 99.9 of a hundred took at most.
pub open spec fn describes(
    agg: WindowAgg,
    history: Seq<Observation>,
    now: int,
    span: int,
) -> bool {
    let some = lately(now, span);
    &&& agg.seconds == span
    &&& agg.covered_seconds == (if now + 1 < span {
        now + 1
    } else {
        span
    })
    &&& agg.requests == sums::how_many(history, some)
    &&& agg.rps.numerator == agg.requests
    &&& agg.rps.denominator == agg.covered_seconds
    &&& agg.status@[0] == sums::how_many(history, of_class(some, 1))
    &&& agg.status@[1] == sums::how_many(history, of_class(some, 2))
    &&& agg.status@[2] == sums::how_many(history, of_class(some, 3))
    &&& agg.status@[3] == sums::how_many(history, of_class(some, 4))
    &&& agg.status@[4] == sums::how_many(history, of_class(some, 5))
    &&& has_share(agg.p50_ns, history, some, 500)
    &&& has_share(agg.p95_ns, history, some, 950)
    &&& has_share(agg.p99_ns, history, some, 990)
    &&& has_share(agg.p999_ns, history, some, 999)
}

proof fn lemma_describes(
    agg: WindowAgg,
    secs: Seq<Option<SlotState>>,
    history: Seq<Observation>,
    now: int,
    span: int,
)
    requires
        0 <= now,
        1 <= span <= 60,
        agg.sums_up(secs, span, now),
        history_laws::sums_are_counts(secs, history, now, span),
        history.len() <= u64::MAX,
        window::secs_wf(secs),
    ensures
        describes(agg, history, now, span),
{
    let buckets = window::bucket_totals(secs);
    window::lemma_bucket_totals_len(secs);
    lemma_counts_of_a_run(history, now, span);
    assert forall|i: int| 0 <= i < BUCKETS implies #[trigger] buckets[i] == sums::how_many(
        history,
        in_bucket(lately(now, span), i),
    ) by {
        assert(buckets[i] == history_laws::bucket_within(history, now, span, i));
    }
    lemma_has_share(buckets, history, lately(now, span), 500);
    lemma_has_share(buckets, history, lately(now, span), 950);
    lemma_has_share(buckets, history, lately(now, span), 990);
    lemma_has_share(buckets, history, lately(now, span), 999);
    assert forall|class: int| 0 <= class < 5 implies #[trigger] agg.status@[class]
        == sums::how_many(history, of_class(lately(now, span), class + 1)) by {
        assert(window::status_total(secs, class) == history_laws::status_within(
            history,
            now,
            span,
            class,
        ));
    }
    assert(agg.status@[0] == sums::how_many(history, of_class(lately(now, span), 1)));
}

/// What a slot holds of a second is what was counted in that second.
spec fn second_is_counted(sec: Option<SlotState>, history: Seq<Observation>, t: int) -> bool {
    let some = just_then(t);
    &&& window::requests_in(sec) == sums::how_many(history, some)
    &&& forall|class: int|
        0 <= class < 5 ==> #[trigger] window::status_in(sec, class) == sums::how_many(
            history,
            of_class(some, class + 1),
        )
    &&& forall|i: int|
        0 <= i < BUCKETS ==> #[trigger] window::buckets_in(sec)[i] == sums::how_many(
            history,
            in_bucket(some, i),
        )
}

proof fn lemma_seconds_are_counted(history: Seq<Observation>, now: u64, t: int)
    requires
        history_laws::in_order(history),
        history_laws::ended_by(history, now as int),
        history.len() <= u64::MAX,
        now - 60 < t <= now,
    ensures
        second_is_counted(
            window::second(window::ring_after(history), t),
            history,
            t,
        ),
    decreases history.len(),
{
    let some = just_then(t);
    let after = window::ring_after(history);
    history_laws::lemma_ring_after_wf(history);
    if history.len() > 0 {
        let less = history.drop_last();
        let o = history.last();
        let ring = window::ring_after(less);
        history_laws::lemma_shorter_in_order(history);
        history_laws::lemma_ring_after_wf(less);
        history_laws::lemma_slots_hold_by(less, o.tick as int);
        lemma_seconds_are_counted(less, now, t);
        let p = window::place(o.tick as int);
        assert(history_laws::holds_by(ring[p], o.tick as int));
        histogram::lemma_bucket_sides(o.ns as int, 0);
        let b = histogram::bucket_index(o.ns as int);
        let before = window::second(ring, t);
        let sec = window::second(after, t);
        sums::lemma_how_many_bound(less, some);
        if t == o.tick {
            let slot = window::opened(ring[p], o.tick);
            assert(window::requests_in(before) == slot.requests);
            assert(sec == Some(window::counted(slot, o.ns, o.status_class)));
            assert forall|class: int| 0 <= class < 5 implies #[trigger] window::status_in(
                sec,
                class,
            ) == sums::how_many(history, of_class(some, class + 1)) by {
                assert(window::status_in(before, class) == slot.status[class]);
                assert(window::status_in(before, class) == sums::how_many(
                    less,
                    of_class(some, class + 1),
                ));
                sums::lemma_how_many_bound(less, of_class(some, class + 1));
            }
            assert forall|i: int| 0 <= i < BUCKETS implies #[trigger] window::buckets_in(sec)[i]
                == sums::how_many(history, in_bucket(some, i)) by {
                assert(window::buckets_in(before)[i] == slot.buckets[i]);
                assert(window::buckets_in(before)[i] == sums::how_many(less, in_bucket(some, i)));
                sums::lemma_how_many_bound(less, in_bucket(some, i));
            }
        } else {
            assert(window::requests_in(sec) == window::requests_in(before) && forall|class: int|
                0 <= class < 5 ==> #[trigger] window::status_in(sec, class) == window::status_in(
                    before,
                    class,
                ) && forall|i: int|
                    0 <= i < BUCKETS ==> #[trigger] window::buckets_in(sec)[i]
                        == window::buckets_in(before)[i]) by {
                if t >= 0 && window::place(t) == p {
                    vstd::arithmetic::div_mod::lemma_mod_equivalence(t, o.tick as int, 60);
                    assert(o.tick < t);
                    assert(after[p].tick == o.tick);
                    assert(sec is None);
                }
            }
            assert forall|class: int| 0 <= class < 5 implies #[trigger] window::status_in(
                sec,
                class,
            ) == sums::how_many(history, of_class(some, class + 1)) by {
                assert(window::status_in(before, class) == sums::how_many(
                    less,
                    of_class(some, class + 1),
                ));
            }
            assert forall|i: int| 0 <= i < BUCKETS implies #[trigger] window::buckets_in(sec)[i]
                == sums::how_many(history, in_bucket(some, i)) by {
                assert(window::buckets_in(before)[i] == sums::how_many(less, in_bucket(some, i)));
            }
        }
    }
}

/// Whether a sample tells of the requests of one second.
pub open spec fn describes_second(
    sample: SecondSample,
    history: Seq<Observation>,
    second: int,
) -> bool {
    let some = just_then(second);
    &&& sample.requests == sums::how_many(history, some)
    &&& sample.status@[0] == sums::how_many(history, of_class(some, 1))
    &&& sample.status@[1] == sums::how_many(history, of_class(some, 2))
    &&& sample.status@[2] == sums::how_many(history, of_class(some, 3))
    &&& sample.status@[3] == sums::how_many(history, of_class(some, 4))
    &&& sample.status@[4] == sums::how_many(history, of_class(some, 5))
    &&& has_share(sample.p50_ns, history, some, 500)
    &&& has_share(sample.p95_ns, history, some, 950)
    &&& has_share(sample.p99_ns, history, some, 990)
    &&& has_share(sample.p999_ns, history, some, 999)
}

proof fn lemma_describes_second(
    sample: SecondSample,
    sec: Option<SlotState>,
    history: Seq<Observation>,
    t: int,
)
    requires
        sample.shows(sec),
        second_is_counted(sec, history, t),
        sec matches Some(slot) ==> slot.buckets.len() == BUCKETS,
        history.len() <= u64::MAX,
    ensures
        describes_second(sample, history, t),
{
    let buckets = window::buckets_in(sec);
    lemma_has_share(buckets, history, just_then(t), 500);
    lemma_has_share(buckets, history, just_then(t), 950);
    lemma_has_share(buckets, history, just_then(t), 990);
    lemma_has_share(buckets, history, just_then(t), 999);
    assert forall|class: int| 0 <= class < 5 implies #[trigger] sample.status@[class]
        == sums::how_many(history, of_class(just_then(t), class + 1)) by {
        assert(sample.status@[class] == window::status_in(sec, class));
    }
    assert(sample.status@[0] == sums::how_many(history, of_class(just_then(t), 1)));
}

/// A window that was observed in the order of the seconds tells of exactly the
/// requests of the last sixty seconds, of the last thirty, and of each of the
/// sixty, oldest first.
pub proof fn law_window_describes_its_requests(
    window: SlidingWindow,
    traffic: TrafficSnapshot,
    now: u64,
    unix: i64,
)
    requires
        window.wf(),
        history_laws::in_order(window.history()),
        history_laws::ended_by(window.history(), now as int),
        window.history().len() <= u64::MAX,
        traffic.tells(window@, now as int, unix),
        unix - 59 >= i64::MIN,
    ensures
        describes(traffic.window_60, window.history(), now as int, 60),
        describes(traffic.window_30, window.history(), now as int, 30),
        traffic.series@.len() == 60,
        forall|k: int|
            0 <= k < 60 ==> {
                &&& (#[trigger] traffic.series@[k]).unix_secs == unix - 59 + k
                &&& describes_second(traffic.series@[k], window.history(), now - 59 + k)
            },
{
    window::lemma_ring_wf(window);
    lemma_ring_describes(window.history(), traffic, now, unix);
}

proof fn lemma_ring_describes(
    history: Seq<Observation>,
    traffic: TrafficSnapshot,
    now: u64,
    unix: i64,
)
    requires
        history_laws::in_order(history),
        history_laws::ended_by(history, now as int),
        history.len() <= u64::MAX,
        traffic.tells(window::ring_after(history), now as int, unix),
        unix - 59 >= i64::MIN,
    ensures
        describes(traffic.window_60, history, now as int, 60),
        describes(traffic.window_30, history, now as int, 30),
        traffic.series@.len() == 60,
        forall|k: int|
            0 <= k < 60 ==> {
                &&& (#[trigger] traffic.series@[k]).unix_secs == unix - 59 + k
                &&& describes_second(traffic.series@[k], history, now - 59 + k)
            },
{
    let ring = window::ring_after(history);
    let minute = window::last_minute(ring, now as int);
    history_laws::lemma_ring_after_wf(history);
    history_laws::law_ring_counts_its_history(history, now);
    ring_laws::lemma_minute_wf(ring, now as int);
    history_laws::lemma_half_wf(minute);
    lemma_describes(traffic.window_60, minute, history, now as int, 60);
    lemma_describes(traffic.window_30, minute.skip(30), history, now as int, 30);
    assert forall|k: int| 0 <= k < 60 implies {
        &&& (#[trigger] traffic.series@[k]).unix_secs == unix - 59 + k
        &&& describes_second(traffic.series@[k], history, now - 59 + k)
    } by {
        lemma_seconds_are_counted(history, now, now - 59 + k);
        assert(traffic.series@[k].shows(minute[k]));
        lemma_describes_second(traffic.series@[k], minute[k], history, now - 59 + k);
    }
}

/// Whether a report on a window tells of the requests of the last `span` seconds
/// up to second `now`.
pub open spec fn reports_requests(
    stats: HttpWindowStats,
    history: Seq<Observation>,
    now: int,
    span: int,
) -> bool {
    let some = lately(now, span);
    &&& stats.seconds == span
    &&& stats.covered_seconds == (if now + 1 < span {
        now + 1
    } else {
        span
    })
    &&& stats.requests == sums::how_many(history, some)
    &&& stats.rps.numerator == stats.requests
    &&& stats.rps.denominator == stats.covered_seconds
    &&& stats.status.status_1xx == sums::how_many(history, of_class(some, 1))
    &&& stats.status.status_2xx == sums::how_many(history, of_class(some, 2))
    &&& stats.status.status_3xx == sums::how_many(history, of_class(some, 3))
    &&& stats.status.status_4xx == sums::how_many(history, of_class(some, 4))
    &&& stats.status.status_5xx == sums::how_many(history, of_class(some, 5))
    &&& stats.rates.status_4xx is None <==> stats.requests == 0
    &&& stats.rates.status_5xx is None <==> stats.requests == 0
    &&& stats.rates.status_4xx matches Some(rate) ==> rate.numerator == stats.status.status_4xx
        && rate.denominator == stats.requests
    &&& stats.rates.status_5xx matches Some(rate) ==> rate.numerator == stats.status.status_5xx
        && rate.denominator == stats.requests
    &&& has_share(stats.latency.p50_ns, history, some, 500)
    &&& has_share(stats.latency.p95_ns, history, some, 950)
    &&& has_share(stats.latency.p99_ns, history, some, 990)
    &&& has_share(stats.latency.p999_ns, history, some, 999)
}

/// Whether a report on one second tells of the requests of that second.
pub open spec fn reports_second(
    sample: HttpSecondSample,
    history: Seq<Observation>,
    second: int,
) -> bool {
    let some = just_then(second);
    &&& sample.requests == sums::how_many(history, some)
    &&& sample.status.status_1xx == sums::how_many(history, of_class(some, 1))
    &&& sample.status.status_2xx == sums::how_many(history, of_class(some, 2))
    &&& sample.status.status_3xx == sums::how_many(history, of_class(some, 3))
    &&& sample.status.status_4xx == sums::how_many(history, of_class(some, 4))
    &&& sample.status.status_5xx == sums::how_many(history, of_class(some, 5))
    &&& has_share(sample.p50_ns, history, some, 500)
    &&& has_share(sample.p95_ns, history, some, 950)
    &&& has_share(sample.p99_ns, history, some, 990)
    &&& has_share(sample.p999_ns, history, some, 999)
}

proof fn lemma_reports_requests(
    secs: Seq<Option<SlotState>>,
    history: Seq<Observation>,
    now: int,
    span: int,
)
    requires
        0 <= now,
        1 <= span <= 60,
        history_laws::sums_are_counts(secs, history, now, span),
        history.len() <= u64::MAX,
        window::secs_wf(secs),
    ensures
        reports_requests(http_stats::window_report(secs, span, now), history, now, span),
{
    let some = lately(now, span);
    let buckets = window::bucket_totals(secs);
    window::lemma_bucket_totals_len(secs);
    lemma_counts_of_a_run(history, now, span);
    assert forall|i: int| 0 <= i < BUCKETS implies #[trigger] buckets[i] == sums::how_many(
        history,
        in_bucket(some, i),
    ) by {
        assert(buckets[i] == history_laws::bucket_within(history, now, span, i));
    }
    lemma_has_share(buckets, history, some, 500);
    lemma_has_share(buckets, history, some, 950);
    lemma_has_share(buckets, history, some, 990);
    lemma_has_share(buckets, history, some, 999);
    sums::lemma_how_many_bound(history, some);
    assert forall|class: int| 0 <= class < 5 implies #[trigger] window::status_total(secs, class)
        == sums::how_many(history, of_class(some, class + 1)) && window::status_total(secs, class)
        <= u64::MAX by {
        assert(window::status_total(secs, class) == history_laws::status_within(
            history,
            now,
            span,
            class,
        ));
        sums::lemma_how_many_bound(history, of_class(some, class + 1));
    }
    assert(window::status_total(secs, 0) == sums::how_many(history, of_class(some, 1)));
    assert(window::status_total(secs, 1) == sums::how_many(history, of_class(some, 2)));
    assert(window::status_total(secs, 2) == sums::how_many(history, of_class(some, 3)));
    assert(window::status_total(secs, 3) == sums::how_many(history, of_class(some, 4)));
    assert(window::status_total(secs, 4) == sums::how_many(history, of_class(some, 5)));
}

proof fn lemma_reports_second(
    sec: Option<SlotState>,
    t: int,
    history: Seq<Observation>,
    second: int,
)
    requires
        second_is_counted(sec, history, second),
        sec matches Some(slot) ==> slot.buckets.len() == BUCKETS,
        history.len() <= u64::MAX,
    ensures
        reports_second(http_stats::second_report(sec, t), history, second),
{
    let some = just_then(second);
    let buckets = window::buckets_in(sec);
    lemma_has_share(buckets, history, some, 500);
    lemma_has_share(buckets, history, some, 950);
    lemma_has_share(buckets, history, some, 990);
    lemma_has_share(buckets, history, some, 999);
    sums::lemma_how_many_bound(history, some);
    assert forall|class: int| 0 <= class < 5 implies #[trigger] window::status_in(sec, class)
        == sums::how_many(history, of_class(some, class + 1)) && window::status_in(sec, class)
        <= u64::MAX by {
        sums::lemma_how_many_bound(history, of_class(some, class + 1));
    }
    assert(window::status_in(sec, 0) == sums::how_many(history, of_class(some, 1)));
    assert(window::status_in(sec, 1) == sums::how_many(history, of_class(some, 2)));
    assert(window::status_in(sec, 2) == sums::how_many(history, of_class(some, 3)));
    assert(window::status_in(sec, 3) == sums::how_many(history, of_class(some, 4)));
    assert(window::status_in(sec, 4) == sums::how_many(history, of_class(some, 5)));
}

proof fn lemma_windows_report(history: Seq<Observation>, now: u64)
    requires
        history_laws::in_order(history),
        history_laws::ended_by(history, now as int),
        history.len() <= u64::MAX,
    ensures
        ({
            let windows = http_stats::window_reports(window::ring_after(history), now as int);
            &&& reports_requests(windows.secs_60, history, now as int, 60)
            &&& reports_requests(windows.secs_30, history, now as int, 30)
        }),
{
    let ring = window::ring_after(history);
    let minute = window::last_minute(ring, now as int);
    history_laws::lemma_ring_after_wf(history);
    history_laws::law_ring_counts_its_history(history, now);
    ring_laws::lemma_minute_wf(ring, now as int);
    history_laws::lemma_half_wf(minute);
    lemma_reports_requests(minute, history, now as int, 60);
    lemma_reports_requests(minute.skip(30), history, now as int, 30);
}

/// A request from its beginning to its end: what was asked for, in which seconds
/// it began and finished, how many nanoseconds it took, and the status of the
/// response where there was one.
pub struct Request {
    pub method: Seq<char>,
    pub path: Seq<char>,
    pub begun_at: u64,
    pub elapsed: u128,
    pub status: Option<u16>,
    pub finished_at: u64,
}

/// Status that a request is counted with.
pub open spec fn status_of(request: Request) -> u16 {
    match request.status {
        Some(code) => code,
        None => 500,
    }
}

/// What is counted of a request: all its nanoseconds, and the hundreds of its
/// status.
pub open spec fn noted(request: Request) -> Observation {
    Observation {
        tick: request.finished_at,
        ns: if request.elapsed > 0xffff_ffff_ffff_ffff {
            0xffff_ffff_ffff_ffff
        } else {
            request.elapsed as u64
        },
        status_class: if status_of(request) < 100 {
            0
        } else if status_of(request) < 200 {
            1
        } else if status_of(request) < 300 {
            2
        } else if status_of(request) < 400 {
            3
        } else if status_of(request) < 500 {
            4
        } else if status_of(request) < 600 {
            5
        } else {
            0
        },
    }
}

/// What is counted of a run of requests.
pub open spec fn all_noted(run: Seq<Request>) -> Seq<Observation> {
    Seq::new(run.len(), |i: int| noted(run[i]))
}

/// Requests with a status from `low` up to but not with `high`.
pub open spec fn with_status(low: int, high: int) -> spec_fn(Request) -> bool {
    |r: Request| low <= status_of(r) < high
}

/// The metrics after one more request was begun, finished and released.
pub open spec fn served_one(state: HttpState, r: Request) -> HttpState {
    let begun = stats::started(state, r.method, r.path, r.begun_at);
    let id = begun.table.rows[stats::started_at(state, r.method, r.path, r.begun_at)].id;
    stats::released(
        stats::completed(begun, id, r.elapsed, status_of(r), r.finished_at),
        id,
    )
}

/// The metrics after a run of requests, served one after the other from the
/// start of a service on.
pub open spec fn served(run: Seq<Request>) -> HttpState
    decreases run.len(),
{
    if run.len() == 0 {
        HttpState {
            requests: 0,
            in_flight: 0,
            status: Seq::new(5, |i: int| 0u64),
            ring: window::ring_after(Seq::empty()),
            table: endpoints::TableState {
                clock: 0,
                overrun: false,
                created: 0,
                rows: Seq::empty(),
            },
        }
    } else {
        served_one(served(run.drop_last()), run.last())
    }
}

/// Whether no request of a run finished before one that was served earlier, and
/// none after second `now`.
pub open spec fn finished_in_order(run: Seq<Request>, now: int) -> bool {
    &&& forall|i: int, j: int|
        #![trigger run[i], run[j]]
        0 <= i < j < run.len() ==> run[i].finished_at <= run[j].finished_at
    &&& run.len() > 0 ==> run.last().finished_at <= now
}

proof fn lemma_served(run: Seq<Request>)
    requires
        run.len() < u64::MAX,
    ensures
        ({
            let state = served(run);
            &&& stats_laws::accounts(state)
            &&& state.requests == run.len()
            &&& state.in_flight == 0
            &&& state.ring == window::ring_after(all_noted(run))
            &&& state.status.len() == 5
            &&& state.status[0] == sums::how_many(run, with_status(100, 200))
            &&& state.status[1] == sums::how_many(run, with_status(200, 300))
            &&& state.status[2] == sums::how_many(run, with_status(300, 400))
            &&& state.status[3] == sums::how_many(run, with_status(400, 500))
            &&& state.status[4] == sums::how_many(run, with_status(500, 600))
        }),
    decreases run.len(),
{
    if run.len() == 0 {
        assert(all_noted(run) =~= Seq::<Observation>::empty());
        stats_laws::law_new_metrics_account(served(run));
    } else {
        let less = run.drop_last();
        let r = run.last();
        let state = served(less);
        lemma_served(less);
        sums::lemma_how_many_bound(less, with_status(100, 200));
        sums::lemma_how_many_bound(less, with_status(200, 300));
        sums::lemma_how_many_bound(less, with_status(300, 400));
        sums::lemma_how_many_bound(less, with_status(400, 500));
        sums::lemma_how_many_bound(less, with_status(500, 600));
        assert forall|class: int| 0 <= class < 5 implies #[trigger] state.status[class]
            < u64::MAX by {
            assert(class == 0 || class == 1 || class == 2 || class == 3 || class == 4);
        }
        stats_laws::law_every_request_is_counted_once(
            state,
            r.method,
            r.path,
            r.begun_at,
            r.elapsed,
            r.status,
            r.finished_at,
        );
        let done = served(run);
        assert(all_noted(run).drop_last() =~= all_noted(less));
        assert(all_noted(run).last() == noted(r));
        assert(done.ring == window::observed(
            state.ring,
            noted(r).tick,
            noted(r).ns,
            noted(r).status_class,
        ));
        assert(done.status[0] == state.status[0] + stats_laws::one_if(100 <= status_of(r) < 200));
        assert(done.status[1] == state.status[1] + stats_laws::one_if(200 <= status_of(r) < 300));
        assert(done.status[2] == state.status[2] + stats_laws::one_if(300 <= status_of(r) < 400));
        assert(done.status[3] == state.status[3] + stats_laws::one_if(400 <= status_of(r) < 500));
        assert(done.status[4] == state.status[4] + stats_laws::one_if(500 <= status_of(r) < 600));
    }
}

/// The report on a service tells of exactly the requests it has served: all of
/// them and their status classes from its start on, and those of the last sixty
/// seconds, of the last thirty and of each second with how long they took.
pub proof fn law_report_tells_of_what_was_served(
    run: Seq<Request>,
    report: HttpStats,
    now: u64,
    unix: i64,
)
    requires
        run.len() < u64::MAX,
        finished_in_order(run, now as int),
        report.reports(served(run), now as int, unix),
        unix - 59 >= i64::MIN,
    ensures
        report.requests == run.len(),
        report.in_flight == 0,
        report.status.status_1xx == sums::how_many(run, with_status(100, 200)),
        report.status.status_2xx == sums::how_many(run, with_status(200, 300)),
        report.status.status_3xx == sums::how_many(run, with_status(300, 400)),
        report.status.status_4xx == sums::how_many(run, with_status(400, 500)),
        report.status.status_5xx == sums::how_many(run, with_status(500, 600)),
        report.window_seconds == 60,
        reports_requests(report.windows.secs_60, all_noted(run), now as int, 60),
        reports_requests(report.windows.secs_30, all_noted(run), now as int, 30),
        report.rps == Some(report.windows.secs_60.rps),
        report.rates == report.windows.secs_60.rates,
        report.latency == report.windows.secs_60.latency,
        report.series@.len() == 60,
        forall|k: int|
            0 <= k < 60 ==> {
                &&& (#[trigger] report.series@[k]).t == unix - 59 + k
                &&& reports_second(report.series@[k], all_noted(run), now - 59 + k)
            },
{
    let history = all_noted(run);
    let ring = window::ring_after(history);
    lemma_served(run);
    lemma_noted_in_order(run, now as int);
    lemma_windows_report(history, now);
    history_laws::lemma_ring_after_wf(history);
    let minute = window::last_minute(ring, now as int);
    assert forall|k: int| 0 <= k < 60 implies {
        &&& (#[trigger] report.series@[k]).t == unix - 59 + k
        &&& reports_second(report.series@[k], history, now - 59 + k)
    } by {
        lemma_seconds_are_counted(history, now, now - 59 + k);
        lemma_reports_second(minute[k], unix - 59 + k, history, now - 59 + k);
    }
}

proof fn lemma_noted_in_order(run: Seq<Request>, now: int)
    requires
        finished_in_order(run, now),
    ensures
        history_laws::in_order(all_noted(run)),
        history_laws::ended_by(all_noted(run), now),
{
    let history = all_noted(run);
    assert forall|i: int, j: int|
        #![trigger history[i], history[j]]
        0 <= i < j < history.len() implies history[i].tick <= history[j].tick by {
        assert(run[i].finished_at <= run[j].finished_at);
    }
}

/// A finished request is noted, with all its nanoseconds and the hundreds of its
/// status, among all requests and on its own route, and on no other.
pub proof fn law_request_is_noted_on_its_route(state: HttpState, id: u64, r: Request, i: int, j: int)
    requires
        endpoints::table_wf(state.table),
        endpoints::is_row_id(state.table.rows, i, id),
        0 <= j < state.table.rows.len(),
    ensures
        ({
            let after = stats::completed(state, id, r.elapsed, status_of(r), r.finished_at);
            let o = noted(r);
            &&& after.ring == window::observed(state.ring, o.tick, o.ns, o.status_class)
            &&& after.requests == state.requests
            &&& after.in_flight == state.in_flight
            &&& after.table.rows.len() == state.table.rows.len()
            &&& after.table.rows[i].history == state.table.rows[i].history.push(noted(r))
            &&& j != i ==> after.table.rows[j] == state.table.rows[j]
            &&& after.table.rows[j].id == state.table.rows[j].id
            &&& after.table.rows[j].method == state.table.rows[j].method
            &&& after.table.rows[j].path == state.table.rows[j].path
            &&& after.table.rows[j].in_flight == state.table.rows[j].in_flight
        }),
{
    let k = choose|k: int| endpoints::is_row_id(state.table.rows, k, id);
    assert(state.table.rows[k].id == state.table.rows[i].id);
    assert(k == i);
}

/// The report on a service lists every route with exactly the requests that were
/// noted on it and are in flight on it.
pub proof fn law_route_report_tells_of_its_requests(
    state: HttpState,
    report: HttpStats,
    now: u64,
    unix: i64,
    k: int,
) -> (i: int)
    requires
        endpoints::table_wf(state.table),
        report.reports(state, now as int, unix),
        0 <= k < state.table.rows.len(),
        history_laws::in_order(state.table.rows[k].history),
        history_laws::ended_by(state.table.rows[k].history, now as int),
        state.table.rows[k].history.len() <= u64::MAX,
    ensures
        0 <= i < report.endpoints@.len(),
        report.endpoints@[i].method@ == state.table.rows[k].method,
        report.endpoints@[i].path@ == state.table.rows[k].path,
        report.endpoints@[i].in_flight == state.table.rows[k].in_flight,
        reports_requests(
            report.endpoints@[i].windows.secs_60,
            state.table.rows[k].history,
            now as int,
            60,
        ),
        reports_requests(
            report.endpoints@[i].windows.secs_30,
            state.table.rows[k].history,
            now as int,
            30,
        ),
{
    let row = state.table.rows[k];
    assert(endpoints::row_recorded(row));
    lemma_windows_report(row.history, now);
    assert(http_stats::is_reported(report.endpoints@, row, now as int));
    choose|i: int|
        0 <= i < report.endpoints@.len() && (#[trigger] report.endpoints@[i]).reports(
            row,
            now as int,
        )
}

/// Whether a reported latency is that of a request which took `elapsed`
/// nanoseconds: no shorter, and longer by at most an eighth.
pub open spec fn is_latency_of(latency: Option<u64>, elapsed: int) -> bool {
    latency matches Some(ns) && elapsed <= ns && 8 * (ns - elapsed) <= elapsed
}

proof fn lemma_lone_share(
    latency: Option<u64>,
    history: Seq<Observation>,
    some: spec_fn(Observation) -> bool,
    permille: int,
    i: int,
)
    requires
        has_share(latency, history, some, permille),
        0 < permille < 1000,
        0 <= i < history.len(),
        some(history[i]),
        forall|j: int| 0 <= j < history.len() && some(#[trigger] history[j]) ==> j == i,
        1 <= history[i].ns <= 60_000_000_000,
    ensures
        is_latency_of(latency, history[i].ns as int),
{
    lemma_lone_count(history, some, i);
    assert(latency is Some);
    let ns = latency->0;
    if !at_most(some, ns)(history[i]) {
        assert forall|j: int| 0 <= j < history.len() implies (at_most(some, ns)(
            #[trigger] history[j],
        ) ==> false) by {
            if some(history[j]) {
                assert(j == i);
            }
        }
        sums::lemma_how_many_weaker(history, at_most(some, ns), |o: Observation| false);
        lemma_none(history);
    }
    if well_below(some, ns)(history[i]) {
        assert forall|j: int| 0 <= j < history.len() implies (some(#[trigger] history[j])
            ==> well_below(some, ns)(history[j])) by {
            if some(history[j]) {
                assert(j == i);
            }
        }
        sums::lemma_how_many_weaker(history, some, well_below(some, ns));
    }
}

proof fn lemma_lone_count(history: Seq<Observation>, some: spec_fn(Observation) -> bool, i: int)
    requires
        0 <= i < history.len(),
        some(history[i]),
        forall|j: int| 0 <= j < history.len() && some(#[trigger] history[j]) ==> j == i,
    ensures
        sums::how_many(history, some) == 1,
    decreases history.len(),
{
    let less = history.drop_last();
    if i == history.len() - 1 {
        assert forall|j: int| 0 <= j < less.len() implies (some(#[trigger] less[j]) ==> false) by {
            if some(history[j]) {
                assert(j == i);
            }
        }
        sums::lemma_how_many_weaker(less, some, |o: Observation| false);
        lemma_none(less);
    } else {
        assert forall|j: int| 0 <= j < less.len() && some(#[trigger] less[j]) implies j == i by {
            assert(less[j] == history[j]);
        }
        assert(less[i] == history[i]);
        lemma_lone_count(less, some, i);
        if some(history[history.len() - 1]) {
            assert(history.len() - 1 == i);
        }
    }
}

/// A request that took from a nanosecond to a minute and is the only one of the
/// last sixty seconds is what every percentile of the report tells.
pub proof fn law_lone_request_is_told(
    run: Seq<Request>,
    report: HttpStats,
    now: u64,
    unix: i64,
    i: int,
)
    requires
        run.len() < u64::MAX,
        finished_in_order(run, now as int),
        report.reports(served(run), now as int, unix),
        unix - 59 >= i64::MIN,
        0 <= i < run.len(),
        now - run[i].finished_at < 60,
        forall|j: int|
            0 <= j < run.len() && now - (#[trigger] run[j]).finished_at < 60 ==> j == i,
        1 <= run[i].elapsed <= 60_000_000_000,
    ensures
        report.windows.secs_60.requests == 1,
        is_latency_of(report.latency.p50_ns, run[i].elapsed as int),
        is_latency_of(report.latency.p95_ns, run[i].elapsed as int),
        is_latency_of(report.latency.p99_ns, run[i].elapsed as int),
        is_latency_of(report.latency.p999_ns, run[i].elapsed as int),
{
    let history = all_noted(run);
    let some = lately(now as int, 60);
    law_report_tells_of_what_was_served(run, report, now, unix);
    assert(run[i].finished_at <= now) by {
        assert(run[i].finished_at <= run[run.len() - 1].finished_at);
    }
    assert forall|j: int| 0 <= j < history.len() && some(#[trigger] history[j]) implies j == i by {
        assert(run[j].finished_at == history[j].tick);
    }
    assert(some(history[i]));
    lemma_lone_count(history, some, i);
    lemma_lone_share(report.latency.p50_ns, history, some, 500, i);
    lemma_lone_share(report.latency.p95_ns, history, some, 950, i);
    lemma_lone_share(report.latency.p99_ns, history, some, 990, i);
    lemma_lone_share(report.latency.p999_ns, history, some, 999, i);
}

/// Whether all requests of a run have the same names of method and path.
pub open spec fn on_one_route(run: Seq<Request>) -> bool {
    forall|i: int, j: int|
        #![trigger run[i], run[j]]
        0 <= i < run.len() && 0 <= j < run.len() ==> route::method_name(run[i].method)
            == route::method_name(run[j].method) && route::path_name(run[i].path)
            == route::path_name(run[j].path)
}

proof fn lemma_one_row(run: Seq<Request>)
    requires
        run.len() < u64::MAX,
        run.len() > 0,
        on_one_route(run),
    ensures
        ({
            let rows = served(run).table.rows;
            &&& rows.len() == 1
            &&& rows[0].method == route::method_name(run[0].method)
            &&& rows[0].path == route::path_name(run[0].path)
            &&& rows[0].in_flight == 0
            &&& rows[0].history == all_noted(run)
        }),
    decreases run.len(),
{
    let less = run.drop_last();
    let r = run.last();
    let state = served(less);
    let name = route::method_name(r.method);
    let place = route::path_name(r.path);
    lemma_served(less);
    lemma_served(run);
    if less.len() == 0 {
        assert(all_noted(less) =~= Seq::<Observation>::empty());
        assert(!endpoints::has_row(state.table.rows, name, place));
    } else {
        assert forall|i: int, j: int|
            #![trigger less[i], less[j]]
            0 <= i < less.len() && 0 <= j < less.len() implies route::method_name(less[i].method)
            == route::method_name(less[j].method) && route::path_name(less[i].path)
            == route::path_name(less[j].path) by {
            assert(less[i] == run[i] && less[j] == run[j]);
        }
        lemma_one_row(less);
        assert(less[0] == run[0]);
        assert(run[run.len() - 1] == r);
        assert(endpoints::is_row(state.table.rows, 0, name, place));
        assert(endpoints::has_row(state.table.rows, name, place));
        assert(endpoints::row_of(state.table.rows, name, place) == 0);
    }
    let begun = stats::started(state, r.method, r.path, r.begun_at);
    assert(begun.table.rows.len() == 1);
    assert(stats::started_at(state, r.method, r.path, r.begun_at) == 0);
    let id = begun.table.rows[0].id;
    assert(endpoints::is_row_id(begun.table.rows, 0, id));
    stats_laws::law_starting_keeps_account(state, r.method, r.path, r.begun_at);
    law_request_is_noted_on_its_route(begun, id, r, 0, 0);
    let middle = stats::completed(begun, id, r.elapsed, status_of(r), r.finished_at);
    assert(endpoints::is_row_id(middle.table.rows, 0, id));
    let k = choose|k: int| endpoints::is_row_id(middle.table.rows, k, id);
    assert(k == 0);
    assert(all_noted(run) =~= all_noted(less).push(noted(r)));
}

/// A service whose requests all go to one route lists that route alone, and tells
/// the same of it as of all its traffic.
pub proof fn law_one_route_is_all_the_traffic(
    run: Seq<Request>,
    report: HttpStats,
    now: u64,
    unix: i64,
)
    requires
        run.len() < u64::MAX,
        run.len() > 0,
        on_one_route(run),
        finished_in_order(run, now as int),
        report.reports(served(run), now as int, unix),
    ensures
        report.endpoints@.len() == 1,
        report.endpoints@[0].method@ == route::method_name(run[0].method),
        report.endpoints@[0].path@ == route::path_name(run[0].path),
        report.endpoints@[0].in_flight == 0,
        report.endpoints@[0].windows == report.windows,
{
    lemma_served(run);
    lemma_one_row(run);
    let row = served(run).table.rows[0];
    assert(endpoints::row_recorded(row));
    assert(http_stats::is_reported(report.endpoints@, row, now as int));
}

/// Listed routes are in order: those with more requests in flight first, then
/// those with more requests in the last minute, then by method and by path, in
/// the order of the first character in which they differ.
pub proof fn law_listing_is_in_order(
    report: HttpStats,
    state: HttpState,
    tick: int,
    unix: i64,
    i: int,
    j: int,
)
    requires
        report.reports(state, tick, unix),
        0 <= i < j < report.endpoints@.len(),
    ensures
        ({
            let a = report.endpoints@[i];
            let b = report.endpoints@[j];
            ||| a.in_flight > b.in_flight
            ||| a.in_flight == b.in_flight && {
                ||| a.windows.secs_60.requests > b.windows.secs_60.requests
                ||| a.windows.secs_60.requests == b.windows.secs_60.requests && {
                    ||| is_before(a.method@, b.method@)
                    ||| a.method@ == b.method@ && is_before(a.path@, b.path@)
                }
            }
        }),
{
    let a = report.endpoints@[i];
    let b = report.endpoints@[j];
    assert(a.precedes(b));
    if text::comes_before(a.method@, b.method@) {
        lemma_is_before(a.method@, b.method@);
    }
    if text::comes_before(a.path@, b.path@) {
        lemma_is_before(a.path@, b.path@);
    }
}

/// Whether two texts agree up to a place where the first one ends or has the
/// smaller character.
pub open spec fn is_before(a: Seq<char>, b: Seq<char>) -> bool {
    exists|n: int| #[trigger] parts_at(a, b, n)
}

pub open spec fn parts_at(a: Seq<char>, b: Seq<char>, n: int) -> bool {
    &&& 0 <= n <= a.len()
    &&& n < b.len()
    &&& a.take(n) == b.take(n)
    &&& n == a.len() || a[n] < b[n]
}

proof fn lemma_is_before(a: Seq<char>, b: Seq<char>)
    requires
        text::comes_before(a, b),
    ensures
        is_before(a, b),
    decreases a.len(),
{
    if a.len() == 0 || a[0] != b[0] {
        assert(a.take(0) =~= b.take(0));
        assert(parts_at(a, b, 0));
    } else {
        lemma_is_before(a.skip(1), b.skip(1));
        let n = choose|n: int| parts_at(a.skip(1), b.skip(1), n);
        assert forall|k: int| 0 <= k < n + 1 implies a[k] == b[k] by {
            if k > 0 {
                assert(a.skip(1).take(n)[k - 1] == b.skip(1).take(n)[k - 1]);
            }
        }
        assert(a.take(n + 1) =~= b.take(n + 1));
        assert(parts_at(a, b, n + 1));
    }
}

/// A request that begins is one more in all and in flight, and one more in flight
/// on its route. It counts in no window yet.
pub proof fn law_begun_request_is_in_flight(
    state: HttpState,
    method: Seq<char>,
    path: Seq<char>,
    tick: u64,
)
    requires
        stats_laws::accounts(state),
        state.requests < u64::MAX,
    ensures
        ({
            let after = stats::started(state, method, path, tick);
            let i = stats::started_at(state, method, path, tick);
            let rows = endpoints::assigned(
                state.table,
                route::method_name(method),
                route::path_name(path),
                tick as int,
            ).rows;
            &&& after.requests == state.requests + 1
            &&& after.in_flight == state.in_flight + 1
            &&& after.status == state.status
            &&& after.ring == state.ring
            &&& after.table.rows.len() == rows.len()
            &&& 0 <= i < rows.len()
            &&& after.table.rows[i].in_flight == rows[i].in_flight + 1
            &&& after.table.rows[i].history == rows[i].history
            &&& forall|j: int|
                0 <= j < rows.len() && j != i ==> #[trigger] after.table.rows[j] == rows[j]
        }),
{
    let name = route::method_name(method);
    let place = route::path_name(path);
    endpoint_laws::law_table_stays_bounded(state.table, name, place, tick as int);
    stats_laws::lemma_assigned_rows(state.table, name, place, tick as int, state.requests);
    let rows = endpoints::assigned(state.table, name, place, tick as int).rows;
    let i = stats::started_at(state, method, path, tick);
    assert(stats_laws::row_accounts(rows[i], state.requests));
}

/// A request that is released is one less in flight, in all and on its route, and
/// changes nothing else.
pub proof fn law_released_request_is_not_in_flight(state: HttpState, id: u64, i: int)
    requires
        endpoints::table_wf(state.table),
        endpoints::is_row_id(state.table.rows, i, id),
        state.in_flight > 0,
        state.table.rows[i].in_flight > 0,
    ensures
        ({
            let after = stats::released(state, id);
            &&& after.requests == state.requests
            &&& after.in_flight == state.in_flight - 1
            &&& after.status == state.status
            &&& after.ring == state.ring
            &&& after.table.rows.len() == state.table.rows.len()
            &&& after.table.rows[i].in_flight == state.table.rows[i].in_flight - 1
            &&& after.table.rows[i].history == state.table.rows[i].history
            &&& forall|j: int|
                0 <= j < state.table.rows.len() && j != i ==> #[trigger] after.table.rows[j]
                    == state.table.rows[j]
        }),
{
    let k = choose|k: int| endpoints::is_row_id(state.table.rows, k, id);
    assert(state.table.rows[k].id == state.table.rows[i].id);
    assert(k == i);
}

/// A request that is counted after its slot has gone on to a later second counts
/// in that second: once, in its status class, and without a trace of what was
/// counted before being lost.
pub proof fn law_late_requests_count_later(ring: Seq<SlotState>, tick: u64, ns: u64, class: u8)
    requires
        window::ring_wf(ring),
        tick < ring[tick as int % 60].tick < u64::MAX,
        ring[tick as int % 60].requests < u64::MAX,
        1 <= class <= 5,
        ring[tick as int % 60].status[class - 1] < u64::MAX,
    ensures
        ({
            let before = ring[tick as int % 60];
            let after = window::observed(ring, tick, ns, class)[tick as int % 60];
            &&& after.tick == before.tick
            &&& after.requests == before.requests + 1
            &&& after.status[class - 1] == before.status[class - 1] + 1
            &&& forall|c: int|
                0 <= c < 5 && c != class - 1 ==> #[trigger] after.status[c] == before.status[c]
        }),
{
}

/// A request on a route whose row is gone changes nothing in the table.
pub proof fn law_gone_routes_count_nothing(
    table: endpoints::TableState,
    id: u64,
    tick: u64,
    ns: u64,
    class: u8,
)
    requires
        forall|i: int| 0 <= i < table.rows.len() ==> (#[trigger] table.rows[i]).id != id,
    ensures
        endpoints::counted_in(table, id, tick, ns, class) == table,
        endpoints::ended(table, id) == table,
{
    assert forall|i: int| !endpoints::is_row_id(table.rows, i, id) by {}
}

} // verus!

//! What a ring of seconds tells of all requests that were ever counted in it.

use vstd::prelude::*;

use crate::histogram;
use crate::histogram::{BUCKETS, MAX_LATENCY_NS, WINDOW_30_SECS, WINDOW_SECS};
use crate::ratio::Ratio;
use crate::ring_laws;
use crate::sums;
use crate::window;
use crate::window::{Observation, SecondSample, SlidingWindow, SlotState, TrafficSnapshot, WindowAgg};

verus! {

/// Whether no request of a run ended before one that was counted earlier.
pub open spec fn in_order(history: Seq<Observation>) -> bool {
    forall|i: int, j: int|
        #![trigger history[i], history[j]]
        0 <= i < j < history.len() ==> history[i].tick <= history[j].tick
}

/// Whether no request of a run ended after second `now`.
pub open spec fn ended_by(history: Seq<Observation>, now: int) -> bool {
    history.len() > 0 ==> history.last().tick <= now
}

/// Whether a request ended in the last `span` seconds up to second `now`.
pub open spec fn is_within(request: Observation, now: int, span: int) -> bool {
    request.tick <= now && now - request.tick < span
}

/// Requests of a run that ended in the last `span` seconds up to second `now`.
pub open spec fn counted_within(history: Seq<Observation>, now: int, span: int) -> nat
    decreases history.len(),
{
    if history.len() == 0 {
        0
    } else {
        counted_within(history.drop_last(), now, span) + (if is_within(
            history.last(),
            now,
            span,
        ) {
            1nat
        } else {
            0
        })
    }
}

/// Those of them with a status of one class, counted from class 1xx.
pub open spec fn status_within(
    history: Seq<Observation>,
    now: int,
    span: int,
    class: int,
) -> nat
    decreases history.len(),
{
    if history.len() == 0 {
        0
    } else {
        status_within(history.drop_last(), now, span, class) + (if is_within(
            history.last(),
            now,
            span,
        ) && class == history.last().status_class - 1 {
            1nat
        } else {
            0
        })
    }
}

/// Those of them with a latency of one bucket.
pub open spec fn bucket_within(
    history: Seq<Observation>,
    now: int,
    span: int,
    bucket: int,
) -> nat
    decreases history.len(),
{
    if history.len() == 0 {
        0
    } else {
        bucket_within(history.drop_last(), now, span, bucket) + (if is_within(
            history.last(),
            now,
            span,
        ) && bucket == histogram::bucket_index(history.last().ns as int) {
            1nat
        } else {
            0
        })
    }
}

/// Whether the sums over some seconds are the counts of a run over the last
/// `span` seconds up to second `now`.
pub open spec fn sums_are_counts(
    secs: Seq<Option<SlotState>>,
    history: Seq<Observation>,
    now: int,
    span: int,
) -> bool {
    &&& window::requests_total(secs) == counted_within(history, now, span)
    &&& forall|class: int|
        0 <= class < 5 ==> #[trigger] window::status_total(secs, class) == status_within(
            history,
            now,
            span,
            class,
        )
    &&& forall|i: int|
        0 <= i < BUCKETS ==> #[trigger] window::bucket_totals(secs)[i] == bucket_within(
            history,
            now,
            span,
            i,
        )
}

/// A ring in which fewer than 2^64 requests were counted accounts for each of
/// its requests, in whatever order they came.
pub proof fn law_history_is_accounted_for(history: Seq<Observation>)
    requires
        history.len() <= u64::MAX,
    ensures
        ring_laws::exact(window::ring_after(history)),
        ring_laws::ring_total(window::ring_after(history)) <= history.len(),
    decreases history.len(),
{
    let ring = window::ring_after(history);
    if history.len() == 0 {
        ring_laws::law_new_ring_is_exact(ring);
    } else {
        let last = history.last();
        law_history_is_accounted_for(history.drop_last());
        ring_laws::law_counting_stays_exact(
            window::ring_after(history.drop_last()),
            last.tick,
            last.ns,
            last.status_class,
        );
    }
}

pub proof fn lemma_ring_after_wf(history: Seq<Observation>)
    ensures
        window::ring_wf(window::ring_after(history)),
    decreases history.len(),
{
    if history.len() > 0 {
        let last = history.last();
        lemma_ring_after_wf(history.drop_last());
        ring_laws::lemma_observed_wf(
            window::ring_after(history.drop_last()),
            last.tick,
            last.ns,
            last.status_class,
        );
    }
}

pub proof fn lemma_shorter_in_order(history: Seq<Observation>)
    requires
        in_order(history),
        history.len() > 0,
    ensures
        in_order(history.drop_last()),
        ended_by(history.drop_last(), history.last().tick as int),
{
    let less = history.drop_last();
    assert forall|i: int, j: int|
        #![trigger less[i], less[j]]
        0 <= i < j < less.len() implies less[i].tick <= less[j].tick by {
        assert(history[i].tick <= history[j].tick);
    }
    if less.len() > 0 {
        assert(history[less.len() - 1].tick <= history[less.len() as int].tick);
    }
}

/// Whether a slot holds nothing later than second `last`.
pub open spec fn holds_by(slot: SlotState, last: int) -> bool {
    slot.tick <= last || slot == window::fresh_slot(u64::MAX)
}

pub proof fn lemma_slots_hold_by(history: Seq<Observation>, last: int)
    requires
        in_order(history),
        ended_by(history, last),
    ensures
        forall|i: int|
            0 <= i < WINDOW_SECS ==> holds_by(#[trigger] window::ring_after(history)[i], last),
    decreases history.len(),
{
    let ring = window::ring_after(history);
    lemma_ring_after_wf(history);
    if history.len() > 0 {
        let less = history.drop_last();
        let tick = history.last().tick;
        lemma_shorter_in_order(history);
        lemma_slots_hold_by(less, tick as int);
        let before = window::ring_after(less);
        lemma_ring_after_wf(less);
        assert forall|i: int| 0 <= i < WINDOW_SECS implies holds_by(#[trigger] ring[i], last) by {
            assert(holds_by(before[i], tick as int));
        }
    }
}

/// Whether two runs of seconds have the same sums.
spec fn same_sums(a: Seq<Option<SlotState>>, b: Seq<Option<SlotState>>) -> bool {
    &&& window::requests_total(a) == window::requests_total(b)
    &&& forall|class: int|
        0 <= class < 5 ==> #[trigger] window::status_total(a, class) == window::status_total(
            b,
            class,
        )
    &&& forall|i: int|
        0 <= i < BUCKETS ==> #[trigger] window::bucket_totals(a)[i] == window::bucket_totals(b)[i]
}

proof fn lemma_silent_second(
    after: Seq<Option<SlotState>>,
    before: Seq<Option<SlotState>>,
    k: int,
)
    requires
        after.len() == before.len(),
        0 <= k < before.len(),
        window::secs_wf(before),
        window::secs_wf(after),
        forall|j: int| 0 <= j < before.len() && j != k ==> #[trigger] before[j] == after[j],
        after[k] is None,
        before[k] == Some(window::fresh_slot(u64::MAX)),
    ensures
        same_sums(after, before),
{
    ring_laws::lemma_totals_replace(before, after, k);
    assert forall|class: int| 0 <= class < 5 implies #[trigger] window::status_total(after, class)
        == window::status_total(before, class) by {
        assert(window::status_in(before[k], class) == 0);
    }
    assert forall|i: int| 0 <= i < BUCKETS implies #[trigger] window::bucket_totals(after)[i]
        == window::bucket_totals(before)[i] by {
        assert(window::buckets_in(before[k])[i] == 0);
    }
}

pub proof fn lemma_half_wf(secs: Seq<Option<SlotState>>)
    requires
        secs.len() == WINDOW_SECS,
        window::secs_wf(secs),
    ensures
        window::secs_wf(secs.skip(30)),
{
    let half = secs.skip(30);
    assert forall|j: int| 0 <= j < half.len() implies ((#[trigger] half[j]) matches Some(slot)
        ==> slot.buckets.len() == BUCKETS && slot.status.len() == 5) by {
        assert(half[j] == secs[j + 30]);
    }
}

/// A request that ended a minute ago or earlier changes no sum.
proof fn lemma_old_request(ring: Seq<SlotState>, o: Observation, now: u64)
    requires
        window::ring_wf(ring),
        forall|i: int| 0 <= i < WINDOW_SECS ==> holds_by(#[trigger] ring[i], o.tick as int),
        now >= o.tick + WINDOW_SECS,
    ensures
        ({
            let before = window::last_minute(ring, now as int);
            let after = window::last_minute(
                window::observed(ring, o.tick, o.ns, o.status_class),
                now as int,
            );
            same_sums(after, before) && same_sums(after.skip(30), before.skip(30))
        }),
{
    let p = window::place(o.tick as int);
    let after_ring = window::observed(ring, o.tick, o.ns, o.status_class);
    let before = window::last_minute(ring, now as int);
    let after = window::last_minute(after_ring, now as int);
    assert(holds_by(ring[p], o.tick as int));
    ring_laws::lemma_observed_wf(ring, o.tick, o.ns, o.status_class);
    ring_laws::lemma_minute_wf(ring, now as int);
    ring_laws::lemma_minute_wf(after_ring, now as int);
    lemma_half_wf(before);
    lemma_half_wf(after);
    assert(after_ring[p].tick == o.tick);
    assert forall|j: int| 0 <= j < WINDOW_SECS - 1 implies #[trigger] before[j] == after[j] by {
        let t = now - (WINDOW_SECS - 1) + j;
        assert(o.tick < t < u64::MAX);
    }
    let half_before = before.skip(30);
    let half_after = after.skip(30);
    assert forall|j: int| 0 <= j < 29 implies #[trigger] half_before[j] == half_after[j] by {
        assert(before[j + 30] == after[j + 30]);
    }
    if before[59] == after[59] {
        assert(after =~= before);
    } else {
        assert(window::place(now as int) == p);
        assert(after[59] is None);
        assert(before[59] == Some(ring[p]));
        lemma_silent_second(after, before, 59);
        assert(half_before[29] == before[59]);
        assert(half_after[29] == after[59]);
        lemma_silent_second(half_after, half_before, 29);
    }
}

proof fn lemma_no_history(now: u64)
    ensures
        ({
            let minute = window::last_minute(window::ring_after(Seq::empty()), now as int);
            &&& sums_are_counts(minute, Seq::empty(), now as int, 60)
            &&& sums_are_counts(minute.skip(30), Seq::empty(), now as int, 30)
        }),
{
    let none = Seq::<Observation>::empty();
    let ring = window::ring_after(none);
    let minute = window::last_minute(ring, now as int);
    law_history_is_accounted_for(none);
    assert forall|k: int| 0 <= k < minute.len() implies window::requests_in(#[trigger] minute[k])
        == 0 && window::buckets_in(minute[k]) == Seq::new(BUCKETS as nat, |i: int| 0nat)
        && forall|class: int|
        0 <= class < 5 ==> #[trigger] window::status_in(minute[k], class) == 0 by {
        assert(window::buckets_in(minute[k]) =~= Seq::new(BUCKETS as nat, |i: int| 0nat));
    }
    lemma_quiet_sums(minute);
    let half = minute.skip(30);
    assert forall|k: int| 0 <= k < half.len() implies window::requests_in(#[trigger] half[k]) == 0
        && window::buckets_in(half[k]) == Seq::new(BUCKETS as nat, |i: int| 0nat)
        && forall|class: int|
        0 <= class < 5 ==> #[trigger] window::status_in(half[k], class) == 0 by {
        assert(half[k] == minute[k + 30]);
    }
    lemma_quiet_sums(half);
}

proof fn lemma_quiet_sums(secs: Seq<Option<SlotState>>)
    requires
        forall|k: int|
            0 <= k < secs.len() ==> window::requests_in(#[trigger] secs[k]) == 0
                && window::buckets_in(secs[k]) == Seq::new(BUCKETS as nat, |i: int| 0nat)
                && forall|class: int|
                0 <= class < 5 ==> #[trigger] window::status_in(secs[k], class) == 0,
    ensures
        window::requests_total(secs) == 0,
        forall|class: int| 0 <= class < 5 ==> #[trigger] window::status_total(secs, class) == 0,
        forall|i: int| 0 <= i < BUCKETS ==> #[trigger] window::bucket_totals(secs)[i] == 0,
    decreases secs.len(),
{
    if secs.len() > 0 {
        let rest = secs.drop_last();
        let last = secs[secs.len() - 1];
        assert forall|k: int| 0 <= k < rest.len() implies window::requests_in(#[trigger] rest[k])
            == 0 && window::buckets_in(rest[k]) == Seq::new(BUCKETS as nat, |i: int| 0nat)
            && forall|class: int|
            0 <= class < 5 ==> #[trigger] window::status_in(rest[k], class) == 0 by {
            assert(rest[k] == secs[k]);
        }
        lemma_quiet_sums(rest);
        window::lemma_bucket_totals_len(rest);
        assert(window::requests_in(last) == 0);
        assert forall|class: int| 0 <= class < 5 implies #[trigger] window::status_total(
            secs,
            class,
        ) == 0 by {
            assert(window::status_total(rest, class) == 0);
            assert(window::status_in(secs[secs.len() - 1], class) == 0);
        }
    }
}

/// The sums over the last minute, and over its second half, are the counts of
/// all requests that were counted and ended in that time. The requests were
/// counted in the order of the seconds they ended in.
pub proof fn law_ring_counts_its_history(history: Seq<Observation>, now: u64)
    requires
        in_order(history),
        ended_by(history, now as int),
        history.len() <= u64::MAX,
    ensures
        ({
            let minute = window::last_minute(window::ring_after(history), now as int);
            &&& sums_are_counts(minute, history, now as int, 60)
            &&& sums_are_counts(minute.skip(30), history, now as int, 30)
        }),
    decreases history.len(),
{
    if history.len() == 0 {
        assert(history =~= Seq::<Observation>::empty());
        lemma_no_history(now);
    } else {
        let less = history.drop_last();
        let o = history.last();
        let ring = window::ring_after(less);
        lemma_shorter_in_order(history);
        law_ring_counts_its_history(less, now);
        law_history_is_accounted_for(less);
        lemma_slots_hold_by(less, o.tick as int);
        lemma_ring_after_wf(less);
        assert(holds_by(ring[window::place(o.tick as int)], o.tick as int));
        let before = window::last_minute(ring, now as int);
        let after = window::last_minute(window::ring_after(history), now as int);
        if now < o.tick + WINDOW_SECS {
            ring_laws::lemma_room(ring, o.tick, o.ns, o.status_class);
            ring_laws::law_counted_for_a_minute(ring, o.tick, o.ns, o.status_class, now);
            lemma_counts_step(after, before, history, now as int, 60);
            lemma_counts_step(after.skip(30), before.skip(30), history, now as int, 30);
        } else {
            lemma_old_request(ring, o, now);
            lemma_counts_step(after, before, history, now as int, 60);
            lemma_counts_step(after.skip(30), before.skip(30), history, now as int, 30);
        }
    }
}

proof fn lemma_counts_step(
    after: Seq<Option<SlotState>>,
    before: Seq<Option<SlotState>>,
    history: Seq<Observation>,
    now: int,
    span: int,
)
    requires
        history.len() > 0,
        sums_are_counts(before, history.drop_last(), now, span),
        is_within(history.last(), now, span) ==> ring_laws::has_one_more(
            after,
            before,
            history.last().ns,
            history.last().status_class,
        ),
        !is_within(history.last(), now, span) ==> same_sums(after, before),
    ensures
        sums_are_counts(after, history, now, span),
{
    assert forall|class: int| 0 <= class < 5 implies #[trigger] window::status_total(after, class)
        == status_within(history, now, span, class) by {
        assert(window::status_total(before, class) == status_within(
            history.drop_last(),
            now,
            span,
            class,
        ));
    }
    assert forall|i: int| 0 <= i < BUCKETS implies #[trigger] window::bucket_totals(after)[i]
        == bucket_within(history, now, span, i) by {
        assert(window::bucket_totals(before)[i] == bucket_within(
            history.drop_last(),
            now,
            span,
            i,
        ));
    }
}

/// A window that was observed in the order of the seconds counts exactly the
/// requests of the last sixty seconds: what [`SlidingWindow::recent_requests`]
/// returns and what the 60-second view shows. A request made in second `u` still
/// counts in second `u + 59` and no longer in second `u + 60`.
pub proof fn law_recent_requests_are_those_observed(window: SlidingWindow, now: u64)
    requires
        window.wf(),
        in_order(window.history()),
        ended_by(window.history(), now as int),
        window.history().len() <= u64::MAX,
    ensures
        window.readable(now as int),
        window::requests_total(window::last_minute(window@, now as int)) == counted_within(
            window.history(),
            now as int,
            60,
        ),
        sums_are_counts(
            window::last_minute(window@, now as int),
            window.history(),
            now as int,
            60,
        ),
        sums_are_counts(
            window::last_minute(window@, now as int).skip(30),
            window.history(),
            now as int,
            30,
        ),
        forall|i: int|
            0 <= i < window.history().len() ==> {
                let u = (#[trigger] window.history()[i]).tick as int;
                is_within(window.history()[i], u + 59, 60) && !is_within(
                    window.history()[i],
                    u + 60,
                    60,
                )
            },
{
    window::lemma_ring_wf(window);
    law_ring_counts_its_history(window.history(), now);
    law_history_is_accounted_for(window.history());
    ring_laws::law_exact_ring_is_readable(window@, now as int);
}

/// Requests of one status class by second of a series.
pub open spec fn series_status(series: Seq<SecondSample>, class: int) -> Seq<nat> {
    Seq::new(series.len(), |k: int| series[k].status@[class] as nat)
}

/// Whether an aggregate adds up a series and has rates and latencies to match.
pub open spec fn adds_up(agg: WindowAgg, series: Seq<SecondSample>, span: int, tick: int) -> bool {
    &&& agg.seconds == span
    &&& agg.covered_seconds == window::covered(span, tick)
    &&& agg.requests == sums::total(ring_laws::series_counts(series))
    &&& forall|class: int|
        0 <= class < 5 ==> #[trigger] agg.status@[class] == sums::total(
            series_status(series, class),
        )
    &&& agg.rps == (Ratio {
        numerator: agg.requests,
        denominator: agg.covered_seconds as u64,
    })
    &&& agg.covered_seconds > 0
    &&& agg.p50_ns is None <==> agg.requests == 0
    &&& agg.p95_ns is None <==> agg.requests == 0
    &&& agg.p99_ns is None <==> agg.requests == 0
    &&& agg.p999_ns is None <==> agg.requests == 0
    &&& agg.requests > 0 ==> agg.p50_ns->0 <= agg.p95_ns->0 <= agg.p99_ns->0 <= agg.p999_ns->0
        <= MAX_LATENCY_NS
}

proof fn lemma_series_sums(secs: Seq<Option<SlotState>>, series: Seq<SecondSample>)
    requires
        secs.len() == series.len(),
        forall|k: int| 0 <= k < secs.len() ==> (#[trigger] series[k]).shows(secs[k]),
    ensures
        window::requests_total(secs) == sums::total(ring_laws::series_counts(series)),
        forall|class: int|
            0 <= class < 5 ==> #[trigger] window::status_total(secs, class) == sums::total(
                series_status(series, class),
            ),
    decreases secs.len(),
{
    if secs.len() > 0 {
        let n = secs.len() - 1;
        let rest = series.drop_last();
        assert forall|k: int| 0 <= k < rest.len() implies (#[trigger] rest[k]).shows(
            secs.drop_last()[k],
        ) by {
            assert(series[k].shows(secs[k]));
        }
        lemma_series_sums(secs.drop_last(), rest);
        assert(series[n].shows(secs[n]));
        assert(ring_laws::series_counts(series).drop_last() =~= ring_laws::series_counts(rest));
        assert forall|class: int| 0 <= class < 5 implies #[trigger] window::status_total(
            secs,
            class,
        ) == sums::total(series_status(series, class)) by {
            assert(series_status(series, class).drop_last() =~= series_status(rest, class));
            assert(window::status_total(secs.drop_last(), class) == sums::total(
                series_status(rest, class),
            ));
            assert(series[n].status@[class] == window::status_in(secs[n], class));
        }
    }
}

proof fn lemma_adds_up(
    agg: WindowAgg,
    secs: Seq<Option<SlotState>>,
    series: Seq<SecondSample>,
    span: int,
    tick: int,
)
    requires
        0 < span <= 60,
        tick >= 0,
        agg.sums_up(secs, span, tick),
        secs.len() == series.len(),
        forall|k: int| 0 <= k < secs.len() ==> (#[trigger] series[k]).shows(secs[k]),
        window::sums_fit(secs),
        sums::total(window::bucket_totals(secs)) == window::requests_total(secs),
    ensures
        adds_up(agg, series, span, tick),
{
    lemma_series_sums(secs, series);
    assert forall|class: int| 0 <= class < 5 implies #[trigger] agg.status@[class] == sums::total(
        series_status(series, class),
    ) by {
        assert(window::status_total(secs, class) == sums::total(series_status(series, class)));
    }
    if agg.requests > 0 {
        ring_laws::law_window_percentiles_ascend(agg, secs, span, tick);
    }
}

/// What a window in which fewer than 2^64 requests were counted tells: a point
/// for each second of the minute, oldest first and a second apart; in the
/// 60-second view the sums over all of them, in the 30-second view those over
/// the last thirty; request rates over the seconds that have passed; and
/// latencies exactly where there are requests, ascending from the median. The
/// Unix time is one whose minute before does not begin before all time.
pub proof fn law_window_tells_its_minute(
    window: SlidingWindow,
    traffic: TrafficSnapshot,
    tick: u64,
    unix: i64,
)
    requires
        window.wf(),
        window.history().len() <= u64::MAX,
        traffic.tells(window@, tick as int, unix),
        unix - 59 >= i64::MIN,
    ensures
        traffic.series@.len() == 60,
        traffic.series@[59].unix_secs == unix,
        forall|k: int|
            0 <= k < 59 ==> (#[trigger] traffic.series@[k]).unix_secs + 1
                == traffic.series@[k + 1].unix_secs,
        adds_up(traffic.window_60, traffic.series@, 60, tick as int),
        adds_up(traffic.window_30, traffic.series@.skip(30), 30, tick as int),
{
    window::lemma_ring_wf(window);
    law_history_is_accounted_for(window.history());
    ring_laws::law_exact_ring_is_readable(window@, tick as int);
    ring_laws::lemma_exact_windows(window@, tick as int);
    let minute = window::last_minute(window@, tick as int);
    let half = minute.skip(30);
    window::lemma_totals_split(minute, 30);
    assert(window::sums_fit(half)) by {
        assert forall|c: int| 0 <= c < 5 implies #[trigger] window::status_total(half, c)
            <= u64::MAX by {
            assert(window::status_total(minute, c) == window::status_total(minute.take(30), c)
                + window::status_total(half, c));
        }
    }
    lemma_adds_up(traffic.window_60, minute, traffic.series@, 60, tick as int);
    let late = traffic.series@.skip(30);
    assert forall|k: int| 0 <= k < half.len() implies (#[trigger] late[k]).shows(half[k]) by {
        assert(traffic.series@[k + 30].shows(minute[k + 30]));
    }
    lemma_adds_up(traffic.window_30, half, late, 30, tick as int);
    assert forall|k: int| 0 <= k < 59 implies (#[trigger] traffic.series@[k]).unix_secs + 1
        == traffic.series@[k + 1].unix_secs by {
        assert(traffic.series@[k + 1].unix_secs == window::seconds_before(unix, 59 - (k + 1)));
    }
    assert(WINDOW_30_SECS == 30);
}

} // verus!

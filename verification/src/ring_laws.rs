//! What holds of a ring of seconds whatever was counted in it.

use vstd::prelude::*;

use crate::histogram;
use crate::histogram::{BUCKETS, WINDOW_30_SECS, WINDOW_SECS};
use crate::sums;
use crate::window;
use crate::window::{SecondSample, SlotState, TrafficSnapshot, WindowAgg};

verus! {

/// Whether the slot for second `tick` holds no later second.
pub open spec fn not_ahead(ring: Seq<SlotState>, tick: u64) -> bool {
    let slot = ring[window::place(tick as int)];
    slot.tick <= tick || slot.tick == u64::MAX
}

/// Whether the counters that one more request in second `tick` raises are below
/// their limit.
pub open spec fn has_room(ring: Seq<SlotState>, tick: u64, ns: u64, status_class: u8) -> bool {
    let slot = window::opened(ring[window::place(tick as int)], tick);
    &&& slot.requests < u64::MAX
    &&& slot.buckets[histogram::bucket_index(ns as int)] < u64::MAX
    &&& 1 <= status_class <= 5 ==> slot.status[status_class - 1] < u64::MAX
}

proof fn lemma_bucket_index(ns: u64)
    ensures
        0 <= histogram::bucket_index(ns as int) < BUCKETS,
{
    histogram::lemma_bucket_exists(ns as int);
}

/// Two runs of seconds that differ in one second differ by it in their sums.
pub proof fn lemma_totals_replace(
    a: Seq<Option<SlotState>>,
    b: Seq<Option<SlotState>>,
    k: int,
)
    requires
        a.len() == b.len(),
        0 <= k < a.len(),
        window::secs_wf(a),
        window::secs_wf(b),
        forall|j: int| 0 <= j < a.len() && j != k ==> #[trigger] a[j] == b[j],
    ensures
        window::requests_total(b) - window::requests_in(b[k]) == window::requests_total(a)
            - window::requests_in(a[k]),
        forall|class: int|
            #[trigger] window::status_total(b, class) - window::status_in(b[k], class)
                == window::status_total(a, class) - window::status_in(a[k], class),
        forall|i: int|
            0 <= i < BUCKETS ==> #[trigger] window::bucket_totals(b)[i] - window::buckets_in(
                b[k],
            )[i] == window::bucket_totals(a)[i] - window::buckets_in(a[k])[i],
    decreases a.len(),
{
    let n = a.len() - 1;
    window::lemma_bucket_totals_len(a.drop_last());
    window::lemma_bucket_totals_len(b.drop_last());
    if k == n {
        assert(a.drop_last() =~= b.drop_last());
    } else {
        assert(a[n] == b[n]);
        lemma_totals_replace(a.drop_last(), b.drop_last(), k);
        assert forall|class: int|
            #[trigger] window::status_total(b, class) - window::status_in(b[k], class)
                == window::status_total(a, class) - window::status_in(a[k], class) by {
            assert(window::status_total(b.drop_last(), class) - window::status_in(
                b.drop_last()[k],
                class,
            ) == window::status_total(a.drop_last(), class) - window::status_in(
                a.drop_last()[k],
                class,
            ));
        }
        assert forall|i: int| 0 <= i < BUCKETS implies #[trigger] window::bucket_totals(b)[i]
            - window::buckets_in(b[k])[i] == window::bucket_totals(a)[i] - window::buckets_in(
            a[k],
        )[i] by {
            assert(window::bucket_totals(b.drop_last())[i] - window::buckets_in(
                b.drop_last()[k],
            )[i] == window::bucket_totals(a.drop_last())[i] - window::buckets_in(
                a.drop_last()[k],
            )[i]);
        }
    }
}

pub proof fn lemma_minute_wf(ring: Seq<SlotState>, tick: int)
    requires
        window::ring_wf(ring),
    ensures
        window::secs_wf(window::last_minute(ring, tick)),
{
    let minute = window::last_minute(ring, tick);
    assert forall|k: int| 0 <= k < minute.len() implies ((#[trigger] minute[k]) matches Some(
        slot,
    ) ==> slot.buckets.len() == BUCKETS && slot.status.len() == 5) by {
        let at = window::place(tick - (WINDOW_SECS - 1) + k);
        assert(ring[at].buckets.len() == BUCKETS);
    }
}

pub proof fn lemma_observed_wf(ring: Seq<SlotState>, tick: u64, ns: u64, status_class: u8)
    requires
        window::ring_wf(ring),
    ensures
        window::ring_wf(window::observed(ring, tick, ns, status_class)),
{
    let after = window::observed(ring, tick, ns, status_class);
    lemma_bucket_index(ns);
    assert forall|i: int| 0 <= i < after.len() implies (#[trigger] after[i]).buckets.len()
        == BUCKETS && after[i].status.len() == 5 by {
        assert(ring[i].buckets.len() == BUCKETS);
    }
}

/// Whether a run of seconds has one more request than another, in one status
/// class and one latency bucket.
pub open spec fn has_one_more(
    after: Seq<Option<SlotState>>,
    before: Seq<Option<SlotState>>,
    ns: u64,
    status_class: u8,
) -> bool {
    &&& window::requests_total(after) == window::requests_total(before) + 1
    &&& forall|class: int|
        0 <= class < 5 ==> #[trigger] window::status_total(after, class) == window::status_total(
            before,
            class,
        ) + (if class == status_class - 1 {
            1nat
        } else {
            0
        })
    &&& forall|i: int|
        0 <= i < BUCKETS ==> #[trigger] window::bucket_totals(after)[i] == window::bucket_totals(
            before,
        )[i] + (if i == histogram::bucket_index(ns as int) {
            1nat
        } else {
            0
        })
}

proof fn lemma_one_more(
    ring: Seq<SlotState>,
    tick: u64,
    ns: u64,
    status_class: u8,
    before: Seq<Option<SlotState>>,
    after: Seq<Option<SlotState>>,
    k: int,
)
    requires
        window::ring_wf(ring),
        not_ahead(ring, tick),
        has_room(ring, tick, ns, status_class),
        before.len() == after.len(),
        0 <= k < before.len(),
        window::secs_wf(before),
        window::secs_wf(after),
        forall|j: int| 0 <= j < before.len() && j != k ==> #[trigger] before[j] == after[j],
        before[k] == window::second(ring, tick as int),
        after[k] == window::second(
            window::observed(ring, tick, ns, status_class),
            tick as int,
        ),
    ensures
        has_one_more(after, before, ns, status_class),
{
    let after_ring = window::observed(ring, tick, ns, status_class);
    let p = window::place(tick as int);
    lemma_bucket_index(ns);
    lemma_totals_replace(before, after, k);
    assert(after[k] == Some(after_ring[p]));
    let slot = window::opened(ring[p], tick);
    assert(ring[p].buckets.len() == BUCKETS);
    assert(window::requests_in(before[k]) == slot.requests);
    assert forall|class: int| 0 <= class < 5 implies #[trigger] window::status_total(after, class)
        == window::status_total(before, class) + (if class == status_class - 1 {
        1nat
    } else {
        0
    }) by {
        assert(window::status_in(before[k], class) == slot.status[class]);
    }
    assert forall|i: int| 0 <= i < BUCKETS implies #[trigger] window::bucket_totals(after)[i]
        == window::bucket_totals(before)[i] + (if i == histogram::bucket_index(ns as int) {
        1nat
    } else {
        0
    }) by {
        assert(window::buckets_in(before[k])[i] == slot.buckets[i]);
    }
}

/// A request counted in second `tick` is in every reading of the minute that
/// follows, once, in its status class and in its latency bucket, and for half a
/// minute in the 30-second view.
pub proof fn law_counted_for_a_minute(
    ring: Seq<SlotState>,
    tick: u64,
    ns: u64,
    status_class: u8,
    now: u64,
)
    requires
        window::ring_wf(ring),
        not_ahead(ring, tick),
        has_room(ring, tick, ns, status_class),
        tick <= now < tick + WINDOW_SECS,
    ensures
        ({
            let before = window::last_minute(ring, now as int);
            let after = window::last_minute(
                window::observed(ring, tick, ns, status_class),
                now as int,
            );
            let old_part = WINDOW_SECS - WINDOW_30_SECS;
            &&& has_one_more(after, before, ns, status_class)
            &&& now < tick + WINDOW_30_SECS ==> has_one_more(
                after.skip(old_part),
                before.skip(old_part),
                ns,
                status_class,
            )
            &&& now >= tick + WINDOW_30_SECS ==> after.skip(old_part) == before.skip(old_part)
        }),
{
    let after_ring = window::observed(ring, tick, ns, status_class);
    let before = window::last_minute(ring, now as int);
    let after = window::last_minute(after_ring, now as int);
    let k = WINDOW_SECS - 1 - (now - tick);
    let p = window::place(tick as int);
    lemma_observed_wf(ring, tick, ns, status_class);
    lemma_minute_wf(ring, now as int);
    lemma_minute_wf(after_ring, now as int);
    lemma_bucket_index(ns);
    assert forall|j: int| 0 <= j < before.len() && j != k implies #[trigger] before[j]
        == after[j] by {
        let t = now - (WINDOW_SECS - 1) + j;
        if window::place(t) == p {
            assert((t - tick) % WINDOW_SECS as int == 0) by {
                vstd::arithmetic::div_mod::lemma_mod_equivalence(
                    t,
                    tick as int,
                    WINDOW_SECS as int,
                );
            }
            assert(-(WINDOW_SECS as int) < t - tick < WINDOW_SECS);
            assert(false);
        }
    }
    assert(now - (WINDOW_SECS - 1) + k == tick);
    lemma_one_more(ring, tick, ns, status_class, before, after, k);
    let old_part = WINDOW_SECS - WINDOW_30_SECS;
    let half_before = before.skip(old_part);
    let half_after = after.skip(old_part);
    if now < tick + WINDOW_30_SECS {
        assert forall|j: int| 0 <= j < half_before.len() implies ((#[trigger] half_before[j])
            matches Some(slot) ==> slot.buckets.len() == BUCKETS && slot.status.len() == 5) by {
            assert(half_before[j] == before[j + old_part]);
        }
        assert forall|j: int| 0 <= j < half_after.len() implies ((#[trigger] half_after[j])
            matches Some(slot) ==> slot.buckets.len() == BUCKETS && slot.status.len() == 5) by {
            assert(half_after[j] == after[j + old_part]);
        }
        assert forall|j: int| 0 <= j < half_before.len() && j != k - old_part implies
            #[trigger] half_before[j] == half_after[j] by {
            assert(before[j + old_part] == after[j + old_part]);
        }
        lemma_one_more(
            ring,
            tick,
            ns,
            status_class,
            half_before,
            half_after,
            k - old_part,
        );
    } else {
        assert forall|j: int| 0 <= j < half_before.len() implies half_before[j]
            == half_after[j] by {
            assert(before[j + old_part] == after[j + old_part]);
        }
        assert(half_after =~= half_before);
    }
}

/// A minute after it was counted a request is in no reading any more.
pub proof fn law_forgotten_after_a_minute(
    ring: Seq<SlotState>,
    tick: u64,
    ns: u64,
    status_class: u8,
    now: u64,
)
    requires
        window::ring_wf(ring),
        not_ahead(ring, tick),
        now >= tick + WINDOW_SECS,
        now < u64::MAX,
    ensures
        window::last_minute(window::observed(ring, tick, ns, status_class), now as int)
            == window::last_minute(ring, now as int),
{
    let after_ring = window::observed(ring, tick, ns, status_class);
    assert(window::last_minute(after_ring, now as int) =~= window::last_minute(ring, now as int));
}

/// A ring that was last written in second `last` tells nothing from a minute
/// later on: no request, and no latency.
pub proof fn law_expires_after_a_minute(ring: Seq<SlotState>, last: u64, now: u64)
    requires
        window::ring_wf(ring),
        forall|i: int|
            0 <= i < ring.len() ==> (#[trigger] ring[i]).tick <= last || ring[i].tick == u64::MAX,
        now >= last + WINDOW_SECS,
        now < u64::MAX,
    ensures
        forall|k: int|
            0 <= k < WINDOW_SECS ==> #[trigger] window::last_minute(ring, now as int)[k] is None,
        window::requests_total(window::last_minute(ring, now as int)) == 0,
        histogram::percentile_of(
            window::bucket_totals(window::last_minute(ring, now as int)),
            500,
        ) is None,
{
    let minute = window::last_minute(ring, now as int);
    assert forall|k: int| 0 <= k < WINDOW_SECS implies #[trigger] minute[k] is None by {
        let t = now - (WINDOW_SECS - 1) + k;
        assert(ring[window::place(t)].tick <= last || ring[window::place(t)].tick == u64::MAX);
    }
    lemma_silence(minute);
}

proof fn lemma_silence(secs: Seq<Option<SlotState>>)
    requires
        forall|k: int| 0 <= k < secs.len() ==> #[trigger] secs[k] is None,
    ensures
        window::requests_total(secs) == 0,
        sums::total(window::bucket_totals(secs)) == 0,
    decreases secs.len(),
{
    window::lemma_bucket_totals_len(secs);
    if secs.len() == 0 {
        sums::lemma_total_zeros(window::bucket_totals(secs));
    } else {
        lemma_silence(secs.drop_last());
        window::lemma_bucket_totals_len(secs.drop_last());
        assert(secs.last() is None);
        sums::lemma_total_zeros(window::buckets_in(secs.last()));
        sums::lemma_total_plus(
            window::bucket_totals(secs.drop_last()),
            window::buckets_in(secs.last()),
        );
    }
}

/// The 30-second view is part of the 60-second one.
pub proof fn law_half_is_within_whole(traffic: TrafficSnapshot, ring: Seq<SlotState>, tick: u64, unix: i64)
    requires
        traffic.tells(ring, tick as int, unix),
    ensures
        traffic.window_30.requests <= traffic.window_60.requests,
        forall|class: int|
            0 <= class < 5 ==> #[trigger] traffic.window_30.status@[class]
                <= traffic.window_60.status@[class],
        traffic.window_30.covered_seconds <= traffic.window_60.covered_seconds <= WINDOW_SECS,
        1 <= traffic.window_30.covered_seconds,
{
    let minute = window::last_minute(ring, tick as int);
    window::lemma_totals_split(minute, WINDOW_SECS - WINDOW_30_SECS);
    assert forall|class: int| 0 <= class < 5 implies #[trigger] traffic.window_30.status@[class]
        <= traffic.window_60.status@[class] by {
        assert(window::status_total(minute, class) == window::status_total(
            minute.take(WINDOW_SECS - WINDOW_30_SECS),
            class,
        ) + window::status_total(minute.skip(WINDOW_SECS - WINDOW_30_SECS), class));
        assert(traffic.window_60.status@[class] == window::status_total(minute, class));
    }
}

/// Requests by second of a series.
pub open spec fn series_counts(series: Seq<SecondSample>) -> Seq<nat> {
    Seq::new(series.len(), |k: int| series[k].requests as nat)
}

/// The series has a point for every second of the minute, and they add up to
/// the 60-second view.
pub proof fn law_series_adds_up(
    traffic: TrafficSnapshot,
    ring: Seq<SlotState>,
    tick: u64,
    unix: i64,
)
    requires
        traffic.tells(ring, tick as int, unix),
    ensures
        traffic.series@.len() == WINDOW_SECS,
        sums::total(series_counts(traffic.series@)) == traffic.window_60.requests,
{
    let minute = window::last_minute(ring, tick as int);
    let counts = series_counts(traffic.series@);
    assert forall|k: int| 0 <= k < minute.len() implies #[trigger] counts[k]
        == window::requests_in(minute[k]) by {
        assert(traffic.series@[k].shows(minute[k]));
    }
    lemma_requests_as_sum(minute, counts);
}

proof fn lemma_requests_as_sum(secs: Seq<Option<SlotState>>, counts: Seq<nat>)
    requires
        secs.len() == counts.len(),
        forall|k: int|
            0 <= k < secs.len() ==> #[trigger] counts[k] == window::requests_in(secs[k]),
    ensures
        window::requests_total(secs) == sums::total(counts),
    decreases secs.len(),
{
    if secs.len() > 0 {
        lemma_requests_as_sum(secs.drop_last(), counts.drop_last());
    }
}

/// Whether a slot counts every request in one latency bucket and in at most one
/// status class.
pub open spec fn exact_slot(slot: SlotState) -> bool {
    &&& sums::total(sums::nats(slot.buckets)) == slot.requests
    &&& forall|class: int| 0 <= class < 5 ==> #[trigger] slot.status[class] <= slot.requests
}

/// Whether all slots of a ring are exact.
pub open spec fn exact(ring: Seq<SlotState>) -> bool {
    &&& window::ring_wf(ring)
    &&& forall|i: int| 0 <= i < ring.len() ==> exact_slot(#[trigger] ring[i])
}

/// Requests by slot.
pub open spec fn slot_requests(ring: Seq<SlotState>) -> Seq<nat> {
    Seq::new(ring.len(), |i: int| ring[i].requests as nat)
}

/// Requests in all slots.
pub open spec fn ring_total(ring: Seq<SlotState>) -> nat {
    sums::total(slot_requests(ring))
}

proof fn lemma_fresh_slot_is_exact(tick: u64)
    ensures
        exact_slot(window::fresh_slot(tick)),
{
    sums::lemma_total_zeros(sums::nats(window::fresh_slot(tick).buckets));
}

/// A new ring is exact and holds no request.
pub proof fn law_new_ring_is_exact(ring: Seq<SlotState>)
    requires
        ring == Seq::new(WINDOW_SECS as nat, |i: int| window::fresh_slot(u64::MAX)),
    ensures
        exact(ring),
        ring_total(ring) == 0,
{
    lemma_fresh_slot_is_exact(u64::MAX);
    sums::lemma_total_zeros(slot_requests(ring));
}

proof fn lemma_counted_is_exact(slot: SlotState, ns: u64, status_class: u8)
    requires
        slot.buckets.len() == BUCKETS,
        slot.status.len() == 5,
        exact_slot(slot),
        slot.requests < u64::MAX,
    ensures
        exact_slot(window::counted(slot, ns, status_class)),
        window::counted(slot, ns, status_class).requests == slot.requests + 1,
{
    lemma_bucket_index(ns);
    let bucket = histogram::bucket_index(ns as int);
    let counts = sums::nats(slot.buckets);
    let after = window::counted(slot, ns, status_class);
    sums::lemma_total_bounds_entry(counts, bucket);
    sums::lemma_total_update(counts, bucket, counts[bucket] + 1);
    assert(sums::nats(after.buckets) =~= counts.update(bucket, counts[bucket] + 1));
    assert forall|class: int| 0 <= class < 5 implies #[trigger] after.status[class]
        <= after.requests by {
        assert(slot.status[class] <= slot.requests);
    }
}

/// A ring of fewer than 2^64 requests has room for one more.
pub proof fn lemma_room(ring: Seq<SlotState>, tick: u64, ns: u64, status_class: u8)
    requires
        exact(ring),
        ring_total(ring) < u64::MAX,
    ensures
        has_room(ring, tick, ns, status_class),
{
    let p = window::place(tick as int);
    let bucket = histogram::bucket_index(ns as int);
    histogram::lemma_bucket_exists(ns as int);
    assert(exact_slot(ring[p]));
    sums::lemma_total_bounds_entry(slot_requests(ring), p);
    sums::lemma_total_bounds_entry(sums::nats(ring[p].buckets), bucket);
    if 1 <= status_class <= 5 {
        assert(ring[p].status[status_class - 1] <= ring[p].requests);
    }
}

/// Counting keeps a ring exact, and adds at most one request to what it holds,
/// as long as it holds fewer than the largest count.
pub proof fn law_counting_stays_exact(ring: Seq<SlotState>, tick: u64, ns: u64, status_class: u8)
    requires
        exact(ring),
        ring_total(ring) < u64::MAX,
    ensures
        exact(window::observed(ring, tick, ns, status_class)),
        ring_total(window::observed(ring, tick, ns, status_class)) <= ring_total(ring) + 1,
{
    let p = window::place(tick as int);
    let after = window::observed(ring, tick, ns, status_class);
    let slot = window::opened(ring[p], tick);
    let counts = slot_requests(ring);
    lemma_observed_wf(ring, tick, ns, status_class);
    lemma_fresh_slot_is_exact(tick);
    assert(exact_slot(ring[p]));
    sums::lemma_total_bounds_entry(counts, p);
    lemma_counted_is_exact(slot, ns, status_class);
    sums::lemma_total_update(counts, p, after[p].requests as nat);
    assert(slot_requests(after) =~= counts.update(p, after[p].requests as nat));
    assert forall|i: int| 0 <= i < after.len() implies exact_slot(#[trigger] after[i]) by {
        assert(exact_slot(ring[i]));
    }
}

proof fn lemma_exact_sums(secs: Seq<Option<SlotState>>)
    requires
        window::secs_wf(secs),
        forall|k: int|
            0 <= k < secs.len() ==> ((#[trigger] secs[k]) matches Some(slot) ==> exact_slot(slot)),
    ensures
        sums::total(window::bucket_totals(secs)) == window::requests_total(secs),
        forall|class: int|
            0 <= class < 5 ==> #[trigger] window::status_total(secs, class)
                <= window::requests_total(secs),
    decreases secs.len(),
{
    if secs.len() == 0 {
        sums::lemma_total_zeros(window::bucket_totals(secs));
    } else {
        let rest = secs.drop_last();
        assert forall|k: int| 0 <= k < rest.len() implies ((#[trigger] rest[k]) matches Some(
            slot,
        ) ==> exact_slot(slot) && slot.buckets.len() == BUCKETS && slot.status.len() == 5) by {
            assert(rest[k] == secs[k]);
        }
        lemma_exact_sums(rest);
        window::lemma_bucket_totals_len(rest);
        let last = secs[secs.len() - 1];
        sums::lemma_total_plus(window::bucket_totals(rest), window::buckets_in(last));
        if last is None {
            sums::lemma_total_zeros(window::buckets_in(last));
        }
        assert forall|class: int| 0 <= class < 5 implies #[trigger] window::status_total(
            secs,
            class,
        ) <= window::requests_total(secs) by {
            assert(window::status_total(rest, class) <= window::requests_total(rest));
            assert(window::status_in(last, class) <= window::requests_in(last));
        }
    }
}

proof fn lemma_exact_minute(ring: Seq<SlotState>, now: int)
    requires
        exact(ring),
    ensures
        window::secs_wf(window::last_minute(ring, now)),
        forall|k: int|
            0 <= k < WINDOW_SECS ==> ((#[trigger] window::last_minute(ring, now)[k]) matches Some(
                slot,
            ) ==> exact_slot(slot)),
{
    lemma_minute_wf(ring, now);
    let minute = window::last_minute(ring, now);
    assert forall|k: int| 0 <= k < WINDOW_SECS implies ((#[trigger] minute[k]) matches Some(
        slot,
    ) ==> exact_slot(slot)) by {
        assert(exact_slot(ring[window::place(now - (WINDOW_SECS - 1) + k)]));
    }
}

proof fn lemma_requests_at_most(secs: Seq<Option<SlotState>>, counts: Seq<nat>)
    requires
        secs.len() == counts.len(),
        forall|k: int|
            0 <= k < secs.len() ==> window::requests_in(secs[k]) <= #[trigger] counts[k],
    ensures
        window::requests_total(secs) <= sums::total(counts),
    decreases secs.len(),
{
    if secs.len() > 0 {
        assert(window::requests_in(secs[secs.len() - 1]) <= counts[secs.len() - 1]);
        lemma_requests_at_most(secs.drop_last(), counts.drop_last());
    }
}

/// A reading never shows more requests than the ring holds.
pub proof fn law_reading_within_ring(ring: Seq<SlotState>, now: int)
    requires
        window::ring_wf(ring),
    ensures
        window::requests_total(window::last_minute(ring, now)) <= ring_total(ring),
{
    let minute = window::last_minute(ring, now);
    let counts = slot_requests(ring);
    let first = now - (WINDOW_SECS - 1);
    let c = window::place(first);
    let turned = counts.skip(c) + counts.take(c);
    assert forall|k: int| 0 <= k < minute.len() implies window::requests_in(minute[k])
        <= #[trigger] turned[k] by {
        let at = window::place(first + k);
        if k < WINDOW_SECS - c {
            assert(at == c + k);
        } else {
            assert(at == c + k - WINDOW_SECS);
        }
        assert(turned[k] == counts[at]);
    }
    lemma_requests_at_most(minute, turned);
    sums::lemma_total_concat(counts.skip(c), counts.take(c));
    sums::lemma_total_concat(counts.take(c), counts.skip(c));
    assert(counts =~= counts.take(c) + counts.skip(c));
}

/// An exact ring of fewer than 2^64 requests can be read at any time.
pub proof fn law_exact_ring_is_readable(ring: Seq<SlotState>, now: int)
    requires
        exact(ring),
        ring_total(ring) <= u64::MAX,
    ensures
        window::sums_fit(window::last_minute(ring, now)),
{
    law_reading_within_ring(ring, now);
    lemma_exact_minute(ring, now);
    lemma_exact_sums(window::last_minute(ring, now));
}

/// The two windows of an exact ring have as many latencies as requests.
pub proof fn lemma_exact_windows(ring: Seq<SlotState>, now: int)
    requires
        exact(ring),
    ensures
        ({
            let minute = window::last_minute(ring, now);
            let half = minute.skip(WINDOW_SECS - WINDOW_30_SECS);
            &&& sums::total(window::bucket_totals(minute)) == window::requests_total(minute)
            &&& sums::total(window::bucket_totals(half)) == window::requests_total(half)
        }),
{
    let minute = window::last_minute(ring, now);
    let half = minute.skip(WINDOW_SECS - WINDOW_30_SECS);
    lemma_exact_minute(ring, now);
    lemma_exact_sums(minute);
    assert forall|k: int| 0 <= k < half.len() implies ((#[trigger] half[k]) matches Some(slot)
        ==> exact_slot(slot) && slot.buckets.len() == BUCKETS && slot.status.len() == 5) by {
        assert(half[k] == minute[k + WINDOW_SECS - WINDOW_30_SECS]);
    }
    lemma_exact_sums(half);
}

/// The latencies of a window are absent exactly where it has no requests.
pub proof fn law_latency_where_there_is_traffic(
    traffic: TrafficSnapshot,
    ring: Seq<SlotState>,
    tick: u64,
    unix: i64,
)
    requires
        exact(ring),
        traffic.tells(ring, tick as int, unix),
    ensures
        traffic.window_60.p50_ns is None <==> traffic.window_60.requests == 0,
        traffic.window_60.p95_ns is None <==> traffic.window_60.requests == 0,
        traffic.window_60.p99_ns is None <==> traffic.window_60.requests == 0,
        traffic.window_60.p999_ns is None <==> traffic.window_60.requests == 0,
        traffic.window_30.p50_ns is None <==> traffic.window_30.requests == 0,
        traffic.window_30.p95_ns is None <==> traffic.window_30.requests == 0,
        traffic.window_30.p99_ns is None <==> traffic.window_30.requests == 0,
        traffic.window_30.p999_ns is None <==> traffic.window_30.requests == 0,
{
    lemma_exact_windows(ring, tick as int);
}

/// In every window with traffic the percentiles ascend from the median on.
pub proof fn law_window_percentiles_ascend(
    agg: WindowAgg,
    secs: Seq<Option<SlotState>>,
    window: int,
    tick: int,
)
    requires
        agg.sums_up(secs, window, tick),
        window::sums_fit(secs),
        agg.p50_ns is Some,
    ensures
        agg.p50_ns->0 <= agg.p95_ns->0,
        agg.p95_ns->0 <= agg.p99_ns->0,
        agg.p99_ns->0 <= agg.p999_ns->0,
        agg.p999_ns->0 <= histogram::MAX_LATENCY_NS,
{
    let buckets = window::bucket_totals(secs);
    window::lemma_bucket_totals_len(secs);
    histogram::law_percentiles_ascend(buckets, 500, 950);
    histogram::law_percentiles_ascend(buckets, 950, 990);
    histogram::law_percentiles_ascend(buckets, 990, 999);
}

} // verus!

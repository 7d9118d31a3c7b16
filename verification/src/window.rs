//! A ring of one-second slots that keeps the last minute of HTTP traffic.

use vstd::prelude::*;

use crate::histogram;
use crate::histogram::{bucket_of, LatencyHist, BUCKETS, WINDOW_30_SECS, WINDOW_SECS};
use crate::ratio::Ratio;
use crate::sums;

verus! {

/// What one slot holds: the second it was last written in (`u64::MAX` before
/// the first time) and what was counted in that second.
#[verifier::ext_equal]
pub struct SlotState {
    pub tick: u64,
    pub requests: u64,
    pub status: Seq<u64>,
    pub buckets: Seq<u64>,
}

/// A slot in which second `tick` has begun.
pub open spec fn fresh_slot(tick: u64) -> SlotState {
    SlotState {
        tick,
        requests: 0,
        status: Seq::new(5, |i: int| 0u64),
        buckets: Seq::new(BUCKETS as nat, |i: int| 0u64),
    }
}

/// The slot as a request of second `tick` finds it: begun anew where it held an
/// older second or none, left alone where it holds a later one.
pub open spec fn opened(slot: SlotState, tick: u64) -> SlotState {
    if slot.tick != tick && (slot.tick < tick || slot.tick == u64::MAX) {
        fresh_slot(tick)
    } else {
        slot
    }
}

/// A counter after one more event; the largest count is followed by zero.
pub open spec fn bumped(count: u64) -> u64 {
    if count == u64::MAX {
        0
    } else {
        (count + 1) as u64
    }
}

/// The slot with one more request.
pub open spec fn counted(slot: SlotState, ns: u64, status_class: u8) -> SlotState {
    let bucket = histogram::bucket_index(ns as int);
    SlotState {
        tick: slot.tick,
        requests: bumped(slot.requests),
        status: if 1 <= status_class <= 5 {
            slot.status.update(status_class - 1, bumped(slot.status[status_class - 1]))
        } else {
            slot.status
        },
        buckets: slot.buckets.update(bucket, bumped(slot.buckets[bucket])),
    }
}

/// Where the ring keeps second `tick`.
pub open spec fn place(tick: int) -> int {
    tick % WINDOW_SECS as int
}

/// The ring after a request that took `ns` nanoseconds and ended in second
/// `tick`.
pub open spec fn observed(
    ring: Seq<SlotState>,
    tick: u64,
    ns: u64,
    status_class: u8,
) -> Seq<SlotState> {
    ring.update(
        place(tick as int),
        counted(opened(ring[place(tick as int)], tick), ns, status_class),
    )
}

/// A request that ended: in which second, after how many nanoseconds, and with a
/// status of which class.
pub struct Observation {
    pub tick: u64,
    pub ns: u64,
    pub status_class: u8,
}

/// The ring in which a run of requests was counted, one after the other.
pub open spec fn ring_after(history: Seq<Observation>) -> Seq<SlotState>
    decreases history.len(),
{
    if history.len() == 0 {
        Seq::new(WINDOW_SECS as nat, |i: int| fresh_slot(u64::MAX))
    } else {
        let last = history.last();
        observed(ring_after(history.drop_last()), last.tick, last.ns, last.status_class)
    }
}

/// What the ring knows of second `tick`.
pub open spec fn second(ring: Seq<SlotState>, tick: int) -> Option<SlotState> {
    if 0 <= tick && ring[place(tick)].tick == tick {
        Some(ring[place(tick)])
    } else {
        None
    }
}

/// The last minute up to and with second `tick`, oldest second first.
pub open spec fn last_minute(ring: Seq<SlotState>, tick: int) -> Seq<Option<SlotState>> {
    Seq::new(WINDOW_SECS as nat, |k: int| second(ring, tick - (WINDOW_SECS - 1) + k))
}

pub open spec fn requests_in(sec: Option<SlotState>) -> nat {
    match sec {
        Some(slot) => slot.requests as nat,
        None => 0,
    }
}

pub open spec fn status_in(sec: Option<SlotState>, class: int) -> nat {
    match sec {
        Some(slot) => slot.status[class] as nat,
        None => 0,
    }
}

pub open spec fn buckets_in(sec: Option<SlotState>) -> Seq<nat> {
    match sec {
        Some(slot) => sums::nats(slot.buckets),
        None => Seq::new(BUCKETS as nat, |i: int| 0nat),
    }
}

/// Requests in a run of seconds.
pub open spec fn requests_total(secs: Seq<Option<SlotState>>) -> nat
    decreases secs.len(),
{
    if secs.len() == 0 {
        0
    } else {
        requests_total(secs.drop_last()) + requests_in(secs.last())
    }
}

/// Requests of one status class in a run of seconds, counted from class 1xx.
pub open spec fn status_total(secs: Seq<Option<SlotState>>, class: int) -> nat
    decreases secs.len(),
{
    if secs.len() == 0 {
        0
    } else {
        status_total(secs.drop_last(), class) + status_in(secs.last(), class)
    }
}

/// Requests by latency bucket in a run of seconds.
pub open spec fn bucket_totals(secs: Seq<Option<SlotState>>) -> Seq<nat>
    decreases secs.len(),
{
    if secs.len() == 0 {
        Seq::new(BUCKETS as nat, |i: int| 0nat)
    } else {
        sums::plus(bucket_totals(secs.drop_last()), buckets_in(secs.last()))
    }
}

/// Whether all sums over a run of seconds are 64-bit counts.
pub open spec fn sums_fit(secs: Seq<Option<SlotState>>) -> bool {
    &&& requests_total(secs) <= u64::MAX
    &&& forall|class: int| 0 <= class < 5 ==> #[trigger] status_total(secs, class) <= u64::MAX
    &&& sums::total(bucket_totals(secs)) <= u64::MAX
}

/// Whether every slot has its five status counters and its latency buckets.
pub open spec fn secs_wf(secs: Seq<Option<SlotState>>) -> bool {
    forall|k: int|
        0 <= k < secs.len() ==> ((#[trigger] secs[k]) matches Some(slot) ==> slot.buckets.len()
            == BUCKETS && slot.status.len() == 5)
}

pub proof fn lemma_bucket_totals_len(secs: Seq<Option<SlotState>>)
    ensures
        bucket_totals(secs).len() == BUCKETS,
    decreases secs.len(),
{
    if secs.len() > 0 {
        lemma_bucket_totals_len(secs.drop_last());
    }
}

pub proof fn lemma_totals_concat(a: Seq<Option<SlotState>>, b: Seq<Option<SlotState>>)
    ensures
        requests_total(a + b) == requests_total(a) + requests_total(b),
        forall|class: int|
            #[trigger] status_total(a + b, class) == status_total(a, class) + status_total(
                b,
                class,
            ),
        bucket_totals(a + b) == sums::plus(bucket_totals(a), bucket_totals(b)),
    decreases b.len(),
{
    lemma_bucket_totals_len(a);
    lemma_bucket_totals_len(b);
    if b.len() == 0 {
        assert(a + b =~= a);
        assert(bucket_totals(a) =~= sums::plus(bucket_totals(a), bucket_totals(b)));
    } else {
        lemma_totals_concat(a, b.drop_last());
        lemma_bucket_totals_len(b.drop_last());
        assert((a + b).drop_last() =~= a + b.drop_last());
        assert((a + b).last() == b.last());
        assert(bucket_totals(a + b) =~= sums::plus(bucket_totals(a), bucket_totals(b)));
        assert forall|class: int|
            #[trigger] status_total(a + b, class) == status_total(a, class) + status_total(
                b,
                class,
            ) by {
            assert(status_total((a + b).drop_last(), class) == status_total(a + b.drop_last(), class));
        }
    }
}

/// The sums over the two halves of a run of seconds make up the sums over it.
pub proof fn lemma_totals_split(secs: Seq<Option<SlotState>>, at: int)
    requires
        0 <= at <= secs.len(),
    ensures
        requests_total(secs) == requests_total(secs.take(at)) + requests_total(secs.skip(at)),
        forall|class: int|
            #[trigger] status_total(secs, class) == status_total(secs.take(at), class)
                + status_total(secs.skip(at), class),
        sums::total(bucket_totals(secs)) == sums::total(bucket_totals(secs.take(at)))
            + sums::total(bucket_totals(secs.skip(at))),
{
    assert(secs =~= secs.take(at) + secs.skip(at));
    lemma_totals_concat(secs.take(at), secs.skip(at));
    lemma_bucket_totals_len(secs.take(at));
    lemma_bucket_totals_len(secs.skip(at));
    sums::lemma_total_plus(bucket_totals(secs.take(at)), bucket_totals(secs.skip(at)));
}

pub proof fn lemma_totals_step(secs: Seq<Option<SlotState>>, k: int)
    requires
        0 <= k < secs.len(),
        secs_wf(secs),
    ensures
        requests_total(secs.take(k + 1)) == requests_total(secs.take(k)) + requests_in(secs[k]),
        forall|class: int|
            #[trigger] status_total(secs.take(k + 1), class) == status_total(secs.take(k), class)
                + status_in(secs[k], class),
        bucket_totals(secs.take(k + 1)) == sums::plus(
            bucket_totals(secs.take(k)),
            buckets_in(secs[k]),
        ),
        sums::total(bucket_totals(secs.take(k + 1))) == sums::total(bucket_totals(secs.take(k)))
            + sums::total(buckets_in(secs[k])),
        requests_total(secs.take(k + 1)) <= requests_total(secs),
        forall|class: int|
            #[trigger] status_total(secs.take(k + 1), class) <= status_total(secs, class),
        sums::total(bucket_totals(secs.take(k + 1))) <= sums::total(bucket_totals(secs)),
{
    assert(secs.take(k + 1).drop_last() =~= secs.take(k));
    assert(secs.take(k + 1).last() == secs[k]);
    lemma_bucket_totals_len(secs.take(k));
    assert(buckets_in(secs[k]).len() == BUCKETS);
    sums::lemma_total_plus(bucket_totals(secs.take(k)), buckets_in(secs[k]));
    lemma_totals_split(secs, k + 1);
    assert forall|class: int|
        #[trigger] status_total(secs.take(k + 1), class) <= status_total(secs, class) by {
        assert(status_total(secs, class) == status_total(secs.take(k + 1), class) + status_total(
            secs.skip(k + 1),
            class,
        ));
    }
}

struct Slot {
    tick: u64,
    requests: u64,
    status: [u64; 5],
    buckets: Vec<u64>,
}

struct SlotView {
    requests: u64,
    status: [u64; 5],
    hist: LatencyHist,
}

impl SlotView {
    spec fn shows(&self, slot: SlotState) -> bool {
        &&& self.hist.wf()
        &&& self.requests == slot.requests
        &&& self.status@ == slot.status
        &&& self.hist@ == sums::nats(slot.buckets)
    }
}

spec fn loaded_shows(loaded: Option<SlotView>, sec: Option<SlotState>) -> bool {
    match (loaded, sec) {
        (Some(view), Some(slot)) => view.shows(slot),
        (None, None) => true,
        _ => false,
    }
}

fn zeros() -> (buckets: Vec<u64>)
    ensures
        buckets@ == Seq::new(BUCKETS as nat, |i: int| 0u64),
{
    let mut buckets: Vec<u64> = Vec::with_capacity(BUCKETS);
    while buckets.len() < BUCKETS
        invariant
            buckets@ == Seq::new(buckets@.len(), |i: int| 0u64),
            buckets@.len() <= BUCKETS,
        decreases BUCKETS - buckets@.len(),
    {
        buckets.push(0);
    }
    buckets
}

impl Slot {
    spec fn view(&self) -> SlotState {
        SlotState {
            tick: self.tick,
            requests: self.requests,
            status: self.status@,
            buckets: self.buckets@,
        }
    }

    spec fn wf(&self) -> bool {
        self.buckets@.len() == BUCKETS
    }

    fn new() -> (slot: Self)
        ensures
            slot.wf(),
            slot@ == fresh_slot(u64::MAX),
    {
        let slot = Slot { tick: u64::MAX, requests: 0, status: [0, 0, 0, 0, 0], buckets: zeros() };
        assert(slot.status@ =~= Seq::new(5, |i: int| 0u64));
        slot
    }

    fn clear(&mut self)
        requires
            old(self).wf(),
        ensures
            final(self).wf(),
            final(self)@ == fresh_slot(old(self).tick),
    {
        self.requests = 0;
        self.status = [0, 0, 0, 0, 0];
        self.buckets = zeros();
        assert(self.status@ =~= Seq::new(5, |i: int| 0u64));
    }

    fn load_if_tick(&self, tick: u64) -> (view: Option<SlotView>)
        requires
            self.wf(),
            self.tick == tick ==> sums::total(sums::nats(self.buckets@)) <= u64::MAX,
        ensures
            view is Some <==> self.tick == tick,
            view matches Some(v) ==> v.shows(self@),
    {
        if self.tick != tick {
            return None;
        }
        let ghost all = sums::nats(self.buckets@);
        let mut hist = LatencyHist::new();
        let mut index: usize = 0;
        assert(all.take(0) =~= Seq::<nat>::empty());
        while index < BUCKETS
            invariant
                self.wf(),
                hist.wf(),
                index <= BUCKETS,
                all == sums::nats(self.buckets@),
                sums::total(all) <= u64::MAX,
                sums::total(hist@) == sums::total(all.take(index as int)),
                hist@ == Seq::new(
                    BUCKETS as nat,
                    |i: int|
                        if i < index {
                            all[i]
                        } else {
                            0
                        },
                ),
            decreases BUCKETS - index,
        {
            proof {
                sums::lemma_total_prefix_step(all, index as int);
                sums::lemma_total_prefix_monotone(all, index + 1, BUCKETS as int);
                assert(all.take(BUCKETS as int) =~= all);
            }
            hist.add_bucket(index, self.buckets[index]);
            index = index + 1;
            assert(hist@ =~= Seq::new(
                BUCKETS as nat,
                |i: int|
                    if i < index {
                        all[i]
                    } else {
                        0
                    },
            ));
        }
        assert(hist@ =~= all);
        Some(SlotView { requests: self.requests, status: self.status, hist })
    }
}

/// Traffic of one window that ends now.
#[derive(Clone, Copy, Debug)]
pub struct WindowAgg {
    pub seconds: u32,
    pub covered_seconds: u32,
    pub requests: u64,
    pub rps: Ratio,
    pub status: [u64; 5],
    pub p50_ns: Option<u64>,
    pub p95_ns: Option<u64>,
    pub p99_ns: Option<u64>,
    pub p999_ns: Option<u64>,
}

/// Traffic of one second.
#[derive(Clone, Copy, Debug)]
pub struct SecondSample {
    pub unix_secs: i64,
    pub requests: u64,
    pub status: [u64; 5],
    pub p50_ns: Option<u64>,
    pub p95_ns: Option<u64>,
    pub p99_ns: Option<u64>,
    pub p999_ns: Option<u64>,
}

/// Everything that a ring tells at one moment.
#[derive(Clone, Debug)]
pub struct TrafficSnapshot {
    pub window_30: WindowAgg,
    pub window_60: WindowAgg,
    pub series: Vec<SecondSample>,
}

/// Seconds of a window of `window` seconds that have passed by second `tick`,
/// the running one included; at least one.
pub open spec fn covered(window: int, tick: int) -> int {
    if window < 1 {
        1
    } else if tick + 1 < window {
        tick + 1
    } else {
        window
    }
}

/// The last `window` of some seconds, or all where there are fewer.
pub open spec fn last_of(secs: Seq<Option<SlotState>>, window: int) -> Seq<Option<SlotState>> {
    if window < secs.len() {
        secs.skip(secs.len() - window)
    } else {
        secs
    }
}

impl WindowAgg {
    /// Whether this is the aggregate of the seconds `secs`, the last `window`
    /// ones up to second `tick`.
    pub open spec fn sums_up(
        &self,
        secs: Seq<Option<SlotState>>,
        window: int,
        tick: int,
    ) -> bool {
        &&& self.seconds == window as u32
        &&& self.covered_seconds == covered(window, tick) as u32
        &&& self.requests == requests_total(secs)
        &&& self.rps == (Ratio {
            numerator: self.requests,
            denominator: covered(window, tick) as u64,
        })
        &&& forall|class: int|
            0 <= class < 5 ==> #[trigger] self.status@[class] == status_total(secs, class)
        &&& self.p50_ns == histogram::percentile_of(bucket_totals(secs), 500)
        &&& self.p95_ns == histogram::percentile_of(bucket_totals(secs), 950)
        &&& self.p99_ns == histogram::percentile_of(bucket_totals(secs), 990)
        &&& self.p999_ns == histogram::percentile_of(bucket_totals(secs), 999)
    }
}

impl SecondSample {
    /// Whether this is the sample of the second `sec`.
    pub open spec fn shows(&self, sec: Option<SlotState>) -> bool {
        &&& self.requests == requests_in(sec)
        &&& forall|class: int|
            0 <= class < 5 ==> #[trigger] self.status@[class] == status_in(sec, class)
        &&& self.p50_ns == histogram::percentile_of(buckets_in(sec), 500)
        &&& self.p95_ns == histogram::percentile_of(buckets_in(sec), 950)
        &&& self.p99_ns == histogram::percentile_of(buckets_in(sec), 990)
        &&& self.p999_ns == histogram::percentile_of(buckets_in(sec), 999)
    }
}

/// Unix time `age` seconds before `unix`, not below the smallest number.
pub open spec fn seconds_before(unix: i64, age: int) -> int {
    if unix - age < i64::MIN {
        i64::MIN as int
    } else {
        unix - age
    }
}

impl TrafficSnapshot {
    /// Whether this is what `ring` tells in second `tick`, at Unix time `unix`.
    pub open spec fn tells(&self, ring: Seq<SlotState>, tick: int, unix: i64) -> bool {
        let minute = last_minute(ring, tick);
        &&& self.window_60.sums_up(minute, WINDOW_SECS as int, tick)
        &&& self.window_30.sums_up(
            minute.skip(WINDOW_SECS - WINDOW_30_SECS),
            WINDOW_30_SECS as int,
            tick,
        )
        &&& self.series@.len() == WINDOW_SECS
        &&& forall|k: int|
            0 <= k < WINDOW_SECS ==> {
                &&& (#[trigger] self.series@[k]).shows(minute[k])
                &&& self.series@[k].unix_secs == seconds_before(unix, WINDOW_SECS - 1 - k)
            }
    }
}

/// HTTP traffic of the last minute, one slot for each second.
pub struct SlidingWindow {
    slots: Vec<Slot>,
    history: Ghost<Seq<Observation>>,
}

impl SlidingWindow {
    /// The slots of the ring.
    pub closed spec fn view(&self) -> Seq<SlotState> {
        Seq::new(self.slots@.len(), |i: int| self.slots@[i]@)
    }

    /// Every request that was ever counted, in the order of the calls.
    pub closed spec fn history(&self) -> Seq<Observation> {
        self.history@
    }

    /// A slot for every second of a minute, each with all its counters, and in
    /// them what was counted.
    pub closed spec fn wf(&self) -> bool {
        &&& self.slots_wf()
        &&& self@ == ring_after(self.history())
    }

    spec fn slots_wf(&self) -> bool {
        &&& self.slots@.len() == WINDOW_SECS
        &&& forall|i: int| 0 <= i < self.slots@.len() ==> (#[trigger] self.slots@[i]).wf()
    }

    /// A ring without traffic.
    pub fn new() -> (window: Self)
        ensures
            window.wf(),
            window@ == Seq::new(WINDOW_SECS as nat, |i: int| fresh_slot(u64::MAX)),
            window.history() == Seq::<Observation>::empty(),
    {
        let mut slots: Vec<Slot> = Vec::with_capacity(WINDOW_SECS as usize);
        while slots.len() < WINDOW_SECS as usize
            invariant
                slots@.len() <= WINDOW_SECS,
                forall|i: int|
                    0 <= i < slots@.len() ==> (#[trigger] slots@[i]).wf() && slots@[i]@
                        == fresh_slot(u64::MAX),
            decreases WINDOW_SECS - slots@.len(),
        {
            slots.push(Slot::new());
        }
        let window = SlidingWindow { slots, history: Ghost(Seq::empty()) };
        assert(window@ =~= Seq::new(WINDOW_SECS as nat, |i: int| fresh_slot(u64::MAX)));
        window
    }

    /// Finds the slot for second `tick`, beginning that second where the slot
    /// holds an older one.
    fn slot_for(&mut self, tick: u64) -> (at: usize)
        requires
            old(self).slots_wf(),
        ensures
            final(self).slots_wf(),
            final(self).history == old(self).history,
            at == place(tick as int),
            final(self)@ == old(self)@.update(at as int, opened(old(self)@[at as int], tick)),
    {
        let at: usize = (tick % WINDOW_SECS) as usize;
        let current: u64 = self.slots[at].tick;
        if current != tick && (current < tick || current == u64::MAX) {
            self.slots[at].tick = tick;
            self.slots[at].clear();
        }
        assert(self@ =~= old(self)@.update(at as int, opened(old(self)@[at as int], tick)));
        at
    }

    /// Counts a request that took `ns` nanoseconds and ended in second `tick`
    /// with a status of class `status_class`.
    pub fn observe(&mut self, tick: u64, ns: u64, status_class: u8)
        requires
            old(self).wf(),
        ensures
            final(self).wf(),
            final(self)@ == observed(old(self)@, tick, ns, status_class),
            final(self).history() == old(self).history().push(
                Observation { tick, ns, status_class },
            ),
    {
        let at = self.slot_for(tick);
        let ghost before = self@;
        let requests: u64 = self.slots[at].requests.wrapping_add(1);
        self.slots[at].requests = requests;
        if 1 <= status_class && status_class <= 5 {
            let class: usize = (status_class - 1) as usize;
            let count: u64 = self.slots[at].status[class].wrapping_add(1);
            self.slots[at].status[class] = count;
        }
        let index = bucket_of(ns);
        let count: u64 = self.slots[at].buckets[index].wrapping_add(1);
        self.slots[at].buckets.set(index, count);
        proof {
            assert(self@[at as int] =~= counted(before[at as int], ns, status_class));
            assert(self@ =~= before.update(
                at as int,
                counted(before[at as int], ns, status_class),
            ));
            assert(before[at as int] == opened(old(self)@[at as int], tick));
            assert(self@ =~= observed(old(self)@, tick, ns, status_class));
        }
        self.history = Ghost(old(self).history@.push(Observation { tick, ns, status_class }));
        proof {
            let after = self@;
            assert(after =~= observed(old(self)@, tick, ns, status_class));
            assert(self.history().drop_last() =~= old(self).history());
        }
    }
}

fn empty_sample(unix_secs: i64) -> (sample: SecondSample)
    ensures
        sample.unix_secs == unix_secs,
        sample.shows(None),
{
    proof {
        sums::lemma_total_zeros(buckets_in(None));
    }
    SecondSample {
        unix_secs,
        requests: 0,
        status: [0, 0, 0, 0, 0],
        p50_ns: None,
        p95_ns: None,
        p99_ns: None,
        p999_ns: None,
    }
}

fn sample_from(unix_secs: i64, slot: &Option<SlotView>, Ghost(sec): Ghost<Option<SlotState>>) -> (sample:
    SecondSample)
    requires
        loaded_shows(*slot, sec),
    ensures
        sample.unix_secs == unix_secs,
        sample.shows(sec),
{
    match slot {
        None => empty_sample(unix_secs),
        Some(slot) => SecondSample {
            unix_secs,
            requests: slot.requests,
            status: slot.status,
            p50_ns: slot.hist.percentile(500),
            p95_ns: slot.hist.percentile(950),
            p99_ns: slot.hist.percentile(990),
            p999_ns: slot.hist.percentile(999),
        },
    }
}

/// Adds up the last `window` of the loaded seconds, or all where there are fewer.
fn aggregate_loaded(
    loaded: &Vec<Option<SlotView>>,
    window: u64,
    tick: u64,
    Ghost(secs): Ghost<Seq<Option<SlotState>>>,
) -> (agg: WindowAgg)
    requires
        loaded@.len() == secs.len(),
        secs_wf(secs),
        sums_fit(secs),
        forall|k: int| 0 <= k < secs.len() ==> loaded_shows(#[trigger] loaded@[k], secs[k]),
    ensures
        agg.sums_up(last_of(secs, window as int), window as int, tick as int),
{
    let covered_seconds: u64 = if window == 0 {
        1
    } else if tick < window - 1 {
        tick + 1
    } else {
        window
    };
    let start: usize = if window < loaded.len() as u64 {
        loaded.len() - window as usize
    } else {
        0
    };
    let ghost part = secs.skip(start as int);
    proof {
        assert(part =~= last_of(secs, window as int));
        lemma_totals_split(secs, start as int);
        assert(part.take(0) =~= Seq::<Option<SlotState>>::empty());
        assert(sums_fit(part)) by {
            assert forall|class: int| 0 <= class < 5 implies #[trigger] status_total(part, class)
                <= u64::MAX by {
                assert(status_total(secs, class) == status_total(secs.take(start as int), class)
                    + status_total(part, class));
            }
        }
        assert(secs_wf(part)) by {
            assert forall|k: int| 0 <= k < part.len() implies ((#[trigger] part[k]) matches Some(
                slot,
            ) ==> slot.buckets.len() == BUCKETS && slot.status.len() == 5) by {
                assert(part[k] == secs[k + start]);
            }
        }
    }
    let mut requests: u64 = 0;
    let mut status: [u64; 5] = [0, 0, 0, 0, 0];
    let mut hist = LatencyHist::new();
    let mut k: usize = start;
    while k < loaded.len()
        invariant
            loaded@.len() == secs.len(),
            start <= k <= loaded@.len(),
            part == secs.skip(start as int),
            secs_wf(part),
            sums_fit(part),
            forall|j: int| 0 <= j < secs.len() ==> loaded_shows(#[trigger] loaded@[j], secs[j]),
            requests == requests_total(part.take(k - start)),
            forall|class: int|
                0 <= class < 5 ==> #[trigger] status@[class] == status_total(
                    part.take(k - start),
                    class,
                ),
            hist.wf(),
            hist@ == bucket_totals(part.take(k - start)),
        decreases loaded@.len() - k,
    {
        let ghost done = k - start;
        proof {
            lemma_totals_step(part, done);
            assert(part[done] == secs[k as int]);
            assert(loaded_shows(loaded@[k as int], secs[k as int]));
        }
        match &loaded[k] {
            None => {
                proof {
                    lemma_bucket_totals_len(part.take(done));
                    assert(bucket_totals(part.take(done + 1)) =~= bucket_totals(part.take(done)));
                }
            },
            Some(slot) => {
                requests = requests + slot.requests;
                let mut class: usize = 0;
                while class < 5
                    invariant
                        class <= 5,
                        0 <= done < part.len(),
                        sums_fit(part),
                        slot.status@ == part[done]->0.status,
                        part[done] is Some,
                        forall|c: int|
                            0 <= c < class ==> #[trigger] status@[c] == status_total(
                                part.take(done + 1),
                                c,
                            ),
                        forall|c: int|
                            class <= c < 5 ==> #[trigger] status@[c] == status_total(
                                part.take(done),
                                c,
                            ),
                        forall|c: int|
                            #[trigger] status_total(part.take(done + 1), c) == status_total(
                                part.take(done),
                                c,
                            ) + status_in(part[done], c),
                        forall|c: int|
                            #[trigger] status_total(part.take(done + 1), c) <= status_total(
                                part,
                                c,
                            ),
                    decreases 5 - class,
                {
                    proof {
                        assert(status@[class as int] == status_total(
                            part.take(done),
                            class as int,
                        ));
                        assert(status_total(part.take(done + 1), class as int) <= status_total(
                            part,
                            class as int,
                        ));
                    }
                    let sum: u64 = status[class] + slot.status[class];
                    status[class] = sum;
                    class = class + 1;
                }
                hist.merge(&slot.hist);
            },
        }
        k = k + 1;
    }
    proof {
        assert(part.take(part.len() as int) =~= part);
    }
    WindowAgg {
        seconds: #[verifier::truncate]
        (window as u32),
        covered_seconds: #[verifier::truncate]
        (covered_seconds as u32),
        requests,
        rps: Ratio { numerator: requests, denominator: covered_seconds },
        status,
        p50_ns: hist.percentile(500),
        p95_ns: hist.percentile(950),
        p99_ns: hist.percentile(990),
        p999_ns: hist.percentile(999),
    }
}

/// Whether a ring has a slot for every second of a minute, each with all its
/// counters.
pub open spec fn ring_wf(ring: Seq<SlotState>) -> bool {
    &&& ring.len() == WINDOW_SECS
    &&& forall|i: int|
        0 <= i < ring.len() ==> (#[trigger] ring[i]).buckets.len() == BUCKETS
            && ring[i].status.len() == 5
}

pub proof fn lemma_ring_wf(window: SlidingWindow)
    requires
        window.wf(),
    ensures
        ring_wf(window@),
        window@ == ring_after(window.history()),
{
    assert forall|i: int| 0 <= i < window@.len() implies (#[trigger] window@[i]).buckets.len()
        == BUCKETS && window@[i].status.len() == 5 by {
        assert(window.slots@[i].wf());
    }
}

proof fn lemma_minute_wf(window: SlidingWindow, tick: int)
    requires
        window.wf(),
    ensures
        secs_wf(last_minute(window@, tick)),
{
    let minute = last_minute(window@, tick);
    assert forall|k: int| 0 <= k < minute.len() implies ((#[trigger] minute[k]) matches Some(
        slot,
    ) ==> slot.buckets.len() == BUCKETS && slot.status.len() == 5) by {
        let at = tick - (WINDOW_SECS - 1) + k;
        if second(window@, at) is Some {
            assert(window.slots@[place(at)].wf());
        }
    }
}

impl SlidingWindow {
    /// Whether every sum over the last minute before second `tick` is a 64-bit
    /// count, so that the ring can be read in that second.
    pub open spec fn readable(&self, tick: int) -> bool {
        sums_fit(last_minute(self@, tick))
    }

    /// Tests whether the ring can be read in second `tick`: fewer than 2^64
    /// requests are counted in the minute that ends there.
    pub fn is_readable(&self, tick: u64) -> (fits: bool)
        requires
            self.wf(),
        ensures
            fits == self.readable(tick as int),
    {
        let ghost minute = last_minute(self@, tick as int);
        let mut requests: u128 = 0;
        let mut samples: u128 = 0;
        let mut status: [u128; 5] = [0, 0, 0, 0, 0];
        let mut k: u64 = 0;
        proof {
            lemma_minute_wf(*self, tick as int);
            assert(minute.take(0) =~= Seq::<Option<SlotState>>::empty());
            sums::lemma_total_zeros(bucket_totals(minute.take(0)));
        }
        while k < WINDOW_SECS
            invariant
                self.wf(),
                k <= WINDOW_SECS,
                minute == last_minute(self@, tick as int),
                secs_wf(minute),
                requests == requests_total(minute.take(k as int)),
                requests <= k * u64::MAX,
                forall|c: int|
                    0 <= c < 5 ==> #[trigger] status@[c] == status_total(minute.take(k as int), c),
                forall|c: int| 0 <= c < 5 ==> #[trigger] status@[c] <= k * u64::MAX,
                samples == sums::total(bucket_totals(minute.take(k as int))),
                samples <= k * 0x110_0000_0000_0000_0000,
            decreases WINDOW_SECS - k,
        {
            let age: u64 = WINDOW_SECS - 1 - k;
            proof {
                lemma_totals_step(minute, k as int);
            }
            let at: usize = if tick < age {
                0
            } else {
                ((tick - age) % WINDOW_SECS) as usize
            };
            if tick >= age && self.slots[at].tick == tick - age {
                let slot = &self.slots[at];
                assert(minute[k as int] == Some(slot@));
                assert(slot.wf());
                requests = requests + slot.requests as u128;
                let mut class: usize = 0;
                while class < 5
                    invariant
                        class <= 5,
                        0 <= k < WINDOW_SECS,
                        minute.len() == WINDOW_SECS,
                        minute[k as int] == Some(slot@),
                        forall|c: int|
                            0 <= c < class ==> #[trigger] status@[c] == status_total(
                                minute.take(k + 1),
                                c,
                            ) && status@[c] <= (k + 1) * u64::MAX,
                        forall|c: int|
                            class <= c < 5 ==> #[trigger] status@[c] == status_total(
                                minute.take(k as int),
                                c,
                            ) && status@[c] <= k * u64::MAX,
                        forall|c: int|
                            #[trigger] status_total(minute.take(k + 1), c) == status_total(
                                minute.take(k as int),
                                c,
                            ) + status_in(minute[k as int], c),
                    decreases 5 - class,
                {
                    proof {
                        assert(status@[class as int] == status_total(
                            minute.take(k as int),
                            class as int,
                        ));
                    }
                    let sum: u128 = status[class] + slot.status[class] as u128;
                    status[class] = sum;
                    class = class + 1;
                }
                let ghost before = samples as nat;
                let ghost row = sums::nats(slot.buckets@);
                let mut index: usize = 0;
                assert(row.take(0) =~= Seq::<nat>::empty());
                while index < BUCKETS
                    invariant
                        index <= BUCKETS,
                        k < WINDOW_SECS,
                        slot.wf(),
                        row == sums::nats(slot.buckets@),
                        samples == before + sums::total(row.take(index as int)),
                        before <= k * 0x110_0000_0000_0000_0000,
                        samples <= before + index * 0x1_0000_0000_0000_0000,
                    decreases BUCKETS - index,
                {
                    proof {
                        sums::lemma_total_prefix_step(row, index as int);
                    }
                    samples = samples + slot.buckets[index] as u128;
                    index = index + 1;
                }
                assert(row.take(BUCKETS as int) =~= row);
            } else {
                proof {
                    assert(minute[k as int] is None);
                    sums::lemma_total_zeros(buckets_in(minute[k as int]));
                    assert forall|c: int| 0 <= c < 5 implies #[trigger] status@[c] == status_total(
                        minute.take(k + 1),
                        c,
                    ) by {
                        assert(status_total(minute.take(k + 1), c) == status_total(
                            minute.take(k as int),
                            c,
                        ) + status_in(minute[k as int], c));
                    }
                }
            }
            k = k + 1;
        }
        proof {
            assert(minute.take(WINDOW_SECS as int) =~= minute);
            assert forall|c: int| 0 <= c < 5 implies #[trigger] status_total(minute, c)
                == status@[c] by {}
        }
        let limit: u128 = u64::MAX as u128;
        requests <= limit && samples <= limit && status[0] <= limit && status[1] <= limit
            && status[2] <= limit && status[3] <= limit && status[4] <= limit
    }

    /// What the ring tells in second `tick`, at Unix time `unix`.
    pub fn snapshot(&self, tick: u64, unix: i64) -> (traffic: TrafficSnapshot)
        requires
            self.wf(),
            self.readable(tick as int),
        ensures
            traffic.tells(self@, tick as int, unix),
    {
        let ghost minute = last_minute(self@, tick as int);
        let mut loaded: Vec<Option<SlotView>> = Vec::with_capacity(WINDOW_SECS as usize);
        let mut series: Vec<SecondSample> = Vec::with_capacity(WINDOW_SECS as usize);
        let mut k: u64 = 0;
        proof {
            lemma_minute_wf(*self, tick as int);
        }
        while k < WINDOW_SECS
            invariant
                self.wf(),
                k <= WINDOW_SECS,
                minute == last_minute(self@, tick as int),
                secs_wf(minute),
                sums_fit(minute),
                loaded@.len() == k,
                series@.len() == k,
                forall|j: int| 0 <= j < k ==> loaded_shows(#[trigger] loaded@[j], minute[j]),
                forall|j: int|
                    0 <= j < k ==> {
                        &&& (#[trigger] series@[j]).shows(minute[j])
                        &&& series@[j].unix_secs == seconds_before(unix, WINDOW_SECS - 1 - j)
                    },
            decreases WINDOW_SECS - k,
        {
            let age: u64 = WINDOW_SECS - 1 - k;
            let unix_secs: i64 = if unix < i64::MIN + age as i64 {
                i64::MIN
            } else {
                unix - age as i64
            };
            proof {
                lemma_totals_step(minute, k as int);
            }
            let slot: Option<SlotView> = if tick < age {
                None
            } else {
                let at: usize = ((tick - age) % WINDOW_SECS) as usize;
                assert(self.slots@[at as int].wf());
                self.slots[at].load_if_tick(tick - age)
            };
            assert(loaded_shows(slot, minute[k as int]));
            series.push(sample_from(unix_secs, &slot, Ghost(minute[k as int])));
            loaded.push(slot);
            k = k + 1;
        }
        let window_30 = aggregate_loaded(&loaded, WINDOW_30_SECS, tick, Ghost(minute));
        let window_60 = aggregate_loaded(&loaded, WINDOW_SECS, tick, Ghost(minute));
        assert(minute.skip(0) =~= minute);
        TrafficSnapshot { window_30, window_60, series }
    }

    /// Requests counted in the minute that ends with second `tick`.
    pub fn recent_requests(&self, tick: u64) -> (requests: u64)
        requires
            self.wf(),
            requests_total(last_minute(self@, tick as int)) <= u64::MAX,
        ensures
            requests == requests_total(last_minute(self@, tick as int)),
    {
        let ghost minute = last_minute(self@, tick as int);
        let mut requests: u64 = 0;
        let mut k: u64 = 0;
        proof {
            lemma_minute_wf(*self, tick as int);
            assert(minute.take(0) =~= Seq::<Option<SlotState>>::empty());
        }
        while k < WINDOW_SECS
            invariant
                self.wf(),
                k <= WINDOW_SECS,
                minute == last_minute(self@, tick as int),
                secs_wf(minute),
                requests_total(minute) <= u64::MAX,
                requests == requests_total(minute.take(k as int)),
            decreases WINDOW_SECS - k,
        {
            let age: u64 = WINDOW_SECS - 1 - k;
            proof {
                lemma_totals_step(minute, k as int);
            }
            if tick >= age {
                let at: usize = ((tick - age) % WINDOW_SECS) as usize;
                if self.slots[at].tick == tick - age {
                    assert(minute[k as int] == Some(self.slots@[at as int]@));
                    requests = requests + self.slots[at].requests;
                }
            }
            k = k + 1;
        }
        assert(minute.take(WINDOW_SECS as int) =~= minute);
        requests
    }
}

} // verus!

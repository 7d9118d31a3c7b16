//! Latency buckets.

use vstd::arithmetic::power2::pow2;
use vstd::prelude::*;

use crate::sums;

verus! {

/// Seconds of HTTP traffic that a ring retains.
pub const WINDOW_SECS: u64 = 60;

/// Length of the shorter of the two views on a ring.
pub const WINDOW_30_SECS: u64 = 30;

/// Linear steps within one power of two.
pub const SUB: u64 = 8;

/// Longest latency that is told apart from longer ones: one minute.
pub const MAX_LATENCY_NS: u64 = 60_000_000_000;

/// Number of latency buckets.
pub const BUCKETS: usize = 272;

/// The latency that stands for `ns`: at least one nanosecond, at most
/// [`MAX_LATENCY_NS`].
pub open spec fn clamped(ns: int) -> int {
    if ns < 1 {
        1
    } else if ns > MAX_LATENCY_NS {
        MAX_LATENCY_NS as int
    } else {
        ns
    }
}

/// Smallest latency of bucket `index`: the first buckets hold one value each,
/// then every power of two is cut into [`SUB`] equal steps.
pub open spec fn bucket_low(index: int) -> int {
    if index < SUB {
        index
    } else {
        ((index - SUB) % SUB as int + SUB) * pow2(((index - SUB) / SUB as int) as nat)
    }
}

/// Largest latency of bucket `index`.
pub open spec fn bucket_high(index: int) -> int {
    if index < SUB {
        index
    } else {
        ((index - SUB) % SUB as int + SUB + 1) * pow2(((index - SUB) / SUB as int) as nat) - 1
    }
}

/// The latency reported for bucket `index`: its largest one, capped.
pub open spec fn bucket_top(index: int) -> int {
    if bucket_high(index) > MAX_LATENCY_NS {
        MAX_LATENCY_NS as int
    } else {
        bucket_high(index)
    }
}

proof fn lemma_pow2_33()
    ensures
        pow2(33) == 8_589_934_592,
        pow2(32) == 4_294_967_296,
{
    vstd::arithmetic::power2::lemma2_to64();
    vstd::arithmetic::power2::lemma2_to64_rest();
}

proof fn lemma_pow2_monotone(a: nat, b: nat)
    requires
        a <= b,
    ensures
        0 < pow2(a) <= pow2(b),
{
    vstd::arithmetic::power2::lemma_pow2_pos(a);
    if a < b {
        vstd::arithmetic::power2::lemma_pow2_strictly_increases(a, b);
    }
}

/// Whether bucket `index` holds the latency `ns`.
pub open spec fn holds_latency(index: int, ns: int) -> bool {
    &&& 0 <= index < BUCKETS
    &&& bucket_low(index) <= clamped(ns) <= bucket_high(index)
}

/// The one bucket that holds the latency `ns`.
pub open spec fn bucket_index(ns: int) -> int {
    choose|index: int| holds_latency(index, ns)
}

/// Index of the bucket that holds the latency `ns`.
pub fn bucket_of(ns: u64) -> (index: usize)
    ensures
        holds_latency(index as int, ns as int),
        index == bucket_index(ns as int),
{
    let value: u64 = if ns < 1 {
        1
    } else if ns > MAX_LATENCY_NS {
        MAX_LATENCY_NS
    } else {
        ns
    };
    if value < SUB {
        proof {
            assert(holds_latency(value as int, ns as int));
            law_bucket_is_unique(value as int, value as int, bucket_index(ns as int));
        }
        return value as usize;
    }
    let mut significant: u64 = value;
    let mut shift: usize = 0;
    proof {
        vstd::arithmetic::power2::lemma2_to64();
    }
    while significant >= 2 * SUB
        invariant
            value <= MAX_LATENCY_NS,
            significant >= SUB,
            shift <= 64,
            significant * pow2(shift as nat) <= value < (significant + 1) * pow2(shift as nat),
        decreases significant,
    {
        proof {
            lemma_pow2_33();
            if shift >= 33 {
                lemma_pow2_monotone(33, shift as nat);
                assert(significant * pow2(shift as nat) >= 8 * 8_589_934_592) by (nonlinear_arith)
                    requires
                        significant >= 8,
                        pow2(shift as nat) >= 8_589_934_592,
                ;
            }
            vstd::arithmetic::power2::lemma_pow2_unfold((shift + 1) as nat);
            let p = pow2(shift as nat) as int;
            let s = significant as int;
            let h = significant as int / 2;
            assert(2 * h <= s <= 2 * h + 1);
            assert(h * (2 * p) <= s * p && (s + 1) * p <= (h + 1) * (2 * p)) by (nonlinear_arith)
                requires
                    2 * h <= s <= 2 * h + 1,
                    p > 0,
            ;
        }
        significant = significant / 2;
        shift = shift + 1;
    }
    proof {
        lemma_pow2_33();
        if shift >= 33 {
            lemma_pow2_monotone(33, shift as nat);
            assert(significant * pow2(shift as nat) >= 8 * 8_589_934_592) by (nonlinear_arith)
                requires
                    significant >= 8,
                    pow2(shift as nat) >= 8_589_934_592,
            ;
        }
    }
    let index: usize = SUB as usize + shift * SUB as usize + (significant - SUB) as usize;
    proof {
        assert((index - SUB) / SUB as int == shift);
        assert((index - SUB) % SUB as int == significant - SUB);
        assert(holds_latency(index as int, ns as int));
        law_bucket_is_unique(value as int, index as int, bucket_index(ns as int));
    }
    index
}

/// Largest latency that bucket `index` stands for, at most [`MAX_LATENCY_NS`].
/// Behind the last bucket it is always that.
pub fn bucket_upper_ns(index: usize) -> (ns: u64)
    ensures
        ns == bucket_top(index as int),
        index >= BUCKETS ==> ns == MAX_LATENCY_NS,
{
    if index < SUB as usize {
        return index as u64;
    }
    if index >= BUCKETS {
        proof {
            lemma_pow2_33();
            assert(bucket_high(BUCKETS - 1) == 16 * pow2(32) - 1);
            lemma_buckets_ascend(BUCKETS - 1, index as int);
        }
        return MAX_LATENCY_NS;
    }
    let shifted: usize = index - SUB as usize;
    let shift: u64 = (shifted / SUB as usize) as u64;
    let significant: u64 = (shifted % SUB as usize) as u64 + SUB;
    proof {
        lemma_pow2_33();
        lemma_pow2_monotone(shift as nat, 32);
        assert((significant + 1) * pow2(shift as nat) <= 16 * 4_294_967_296) by (nonlinear_arith)
            requires
                0 <= significant + 1 <= 16,
                0 < pow2(shift as nat) <= 4_294_967_296,
        ;
        assert((significant + 1) * pow2(shift as nat) >= 1) by (nonlinear_arith)
            requires
                1 <= significant + 1,
                0 < pow2(shift as nat),
        ;
        vstd::bits::lemma_u64_shl_is_mul((significant + 1) as u64, shift);
    }
    let high: u64 = ((significant + 1) << shift) - 1;
    if high > MAX_LATENCY_NS {
        MAX_LATENCY_NS
    } else {
        high
    }
}

/// Rank of the sample that a percentile names, counted from one, among
/// `count` samples in ascending order.
pub open spec fn rank_of(count: nat, permille: nat) -> nat {
    let rank = (((count * permille + 999) / 1000) as u64) as nat;
    if rank < 1 {
        1
    } else {
        rank
    }
}

/// Whether the sample of rank `rank` lies in bucket `index`.
pub open spec fn holds_rank(buckets: Seq<nat>, index: int, rank: nat) -> bool {
    &&& 0 <= index < buckets.len()
    &&& sums::total(buckets.take(index)) < rank <= sums::total(buckets.take(index + 1))
}

/// Latency reported for the sample of rank `rank`, [`MAX_LATENCY_NS`] where
/// there are fewer samples.
pub open spec fn latency_of_rank(buckets: Seq<nat>, rank: nat) -> int {
    if exists|index: int| holds_rank(buckets, index, rank) {
        bucket_top(choose|index: int| holds_rank(buckets, index, rank))
    } else {
        MAX_LATENCY_NS as int
    }
}

/// The percentile of a histogram in thousandths: none without samples or for
/// zero thousandths.
pub open spec fn percentile_of(buckets: Seq<nat>, permille: nat) -> Option<u64> {
    if sums::total(buckets) == 0 || permille == 0 {
        None
    } else {
        Some(latency_of_rank(buckets, rank_of(sums::total(buckets), permille)) as u64)
    }
}

pub proof fn lemma_rank_in_one_bucket(buckets: Seq<nat>, i: int, j: int, rank: nat)
    requires
        holds_rank(buckets, i, rank),
        holds_rank(buckets, j, rank),
    ensures
        i == j,
{
    if i < j {
        sums::lemma_total_prefix_monotone(buckets, i + 1, j);
    } else if j < i {
        sums::lemma_total_prefix_monotone(buckets, j + 1, i);
    }
}

/// Samples counted by latency bucket.
pub struct LatencyHist {
    buckets: Vec<u64>,
    count: u64,
}

impl LatencyHist {
    /// Number of samples in each bucket.
    pub closed spec fn view(&self) -> Seq<nat> {
        sums::nats(self.buckets@)
    }

    /// One counter for each bucket, and their sum.
    pub closed spec fn wf(&self) -> bool {
        &&& self.buckets@.len() == BUCKETS
        &&& self.count == sums::total(self@)
    }

    /// A histogram without samples.
    pub fn new() -> (hist: Self)
        ensures
            hist.wf(),
            hist@ == Seq::new(BUCKETS as nat, |i: int| 0nat),
            sums::total(hist@) == 0,
    {
        let mut buckets: Vec<u64> = Vec::with_capacity(BUCKETS);
        while buckets.len() < BUCKETS
            invariant
                buckets@.len() <= BUCKETS,
                forall|i: int| 0 <= i < buckets@.len() ==> buckets@[i] == 0,
            decreases BUCKETS - buckets@.len(),
        {
            buckets.push(0);
        }
        let hist = LatencyHist { buckets, count: 0 };
        proof {
            sums::lemma_total_zeros(hist@);
            assert(hist@ =~= Seq::new(BUCKETS as nat, |i: int| 0nat));
        }
        hist
    }

    /// Adds `count` samples to bucket `index`; an index past the last bucket
    /// adds nothing.
    pub fn add_bucket(&mut self, index: usize, count: u64)
        requires
            old(self).wf(),
            index < BUCKETS ==> sums::total(old(self)@) + count <= u64::MAX,
        ensures
            final(self).wf(),
            final(self)@ == (if index < BUCKETS {
                old(self)@.update(index as int, old(self)@[index as int] + count as nat)
            } else {
                old(self)@
            }),
            sums::total(final(self)@) == sums::total(old(self)@) + (if index < BUCKETS {
                count as nat
            } else {
                0
            }),
    {
        if count == 0 || index >= BUCKETS {
            proof {
                if index < BUCKETS {
                    assert(self@ =~= self@.update(index as int, self@[index as int]));
                }
            }
            return;
        }
        proof {
            sums::lemma_total_bounds_entry(self@, index as int);
            sums::lemma_total_update(self@, index as int, self@[index as int] + count as nat);
        }
        let sum: u64 = self.buckets[index] + count;
        self.buckets.set(index, sum);
        self.count = self.count + count;
        proof {
            assert(self@ =~= old(self)@.update(
                index as int,
                old(self)@[index as int] + count as nat,
            ));
        }
    }

    /// Adds the samples of another histogram.
    pub fn merge(&mut self, other: &LatencyHist)
        requires
            old(self).wf(),
            other.wf(),
            sums::total(old(self)@) + sums::total(other@) <= u64::MAX,
        ensures
            final(self).wf(),
            final(self)@ == sums::plus(old(self)@, other@),
    {
        let ghost before = self@;
        let ghost added = other@;
        let mut index: usize = 0;
        while index < BUCKETS
            invariant
                index <= BUCKETS,
                other.wf(),
                added == other@,
                before.len() == BUCKETS,
                self.buckets@.len() == BUCKETS,
                self.count == sums::total(before),
                sums::total(before) + sums::total(added) <= u64::MAX,
                forall|i: int| 0 <= i < index ==> #[trigger] self.buckets@[i] == before[i] + added[i],
                forall|i: int| index <= i < BUCKETS ==> #[trigger] self.buckets@[i] == before[i],
            decreases BUCKETS - index,
        {
            proof {
                sums::lemma_total_bounds_entry(before, index as int);
                sums::lemma_total_bounds_entry(added, index as int);
            }
            let sum: u64 = self.buckets[index] + other.buckets[index];
            self.buckets.set(index, sum);
            index = index + 1;
        }
        self.count = self.count + other.count;
        proof {
            assert(self@ =~= sums::plus(before, added));
            sums::lemma_total_plus(before, added);
        }
    }

    /// The latency below or at which `permille` thousandths of the samples lie,
    /// up to the width of a bucket.
    pub fn percentile(&self, permille: u32) -> (latency: Option<u64>)
        requires
            self.wf(),
        ensures
            latency == percentile_of(self@, permille as nat),
    {
        if self.count == 0 || permille == 0 {
            return None;
        }
        proof {
            assert(self.count * permille + 999 <= u64::MAX * u32::MAX + 999) by (nonlinear_arith)
                requires
                    0 <= self.count <= u64::MAX,
                    0 <= permille <= u32::MAX,
            ;
        }
        let scaled: u128 = (self.count as u128) * (permille as u128);
        let exact: u128 = (scaled + 999) / 1000;
        let truncated: u64 = #[verifier::truncate]
        (exact as u64);
        let rank: u64 = if truncated < 1 {
            1
        } else {
            truncated
        };
        let ghost buckets = self@;
        assert(rank == rank_of(sums::total(buckets), permille as nat));
        let mut cumulative: u64 = 0;
        let mut index: usize = 0;
        while index < BUCKETS
            invariant
                self.wf(),
                buckets == self@,
                index <= BUCKETS,
                cumulative == sums::total(buckets.take(index as int)),
                cumulative < rank,
                rank == rank_of(sums::total(buckets), permille as nat),
                sums::total(buckets) > 0,
                permille > 0,
            decreases BUCKETS - index,
        {
            proof {
                sums::lemma_total_prefix_step(buckets, index as int);
                sums::lemma_total_prefix_monotone(buckets, index + 1, BUCKETS as int);
                assert(buckets.take(BUCKETS as int) =~= buckets);
            }
            cumulative = cumulative + self.buckets[index];
            if cumulative >= rank {
                proof {
                    assert(holds_rank(buckets, index as int, rank as nat));
                    lemma_rank_in_one_bucket(
                        buckets,
                        index as int,
                        choose|i: int| holds_rank(buckets, i, rank as nat),
                        rank as nat,
                    );
                }
                return Some(bucket_upper_ns(index));
            }
            index = index + 1;
        }
        proof {
            assert forall|i: int| !holds_rank(buckets, i, rank as nat) by {
                if 0 <= i < buckets.len() {
                    sums::lemma_total_prefix_monotone(buckets, i + 1, BUCKETS as int);
                }
            }
        }
        Some(MAX_LATENCY_NS)
    }
}

/// What every histogram is: a count for each bucket, and 64 bits for their sum.
pub proof fn lemma_hist_wf(hist: LatencyHist)
    requires
        hist.wf(),
    ensures
        hist@.len() == BUCKETS,
        sums::total(hist@) <= u64::MAX,
{
}

/// Buckets leave no gap and do not overlap: each begins right after the one
/// before it.
pub proof fn law_buckets_tile(index: int)
    requires
        0 <= index,
    ensures
        bucket_low(index) <= bucket_high(index),
        bucket_low(index + 1) == bucket_high(index) + 1,
{
    let step = SUB as int;
    if index < step {
        if index == step - 1 {
            vstd::arithmetic::power2::lemma2_to64();
            assert(bucket_low(step) == step * pow2(0));
        }
    } else {
        let shift = (index - step) / step;
        let rest = (index - step) % step;
        vstd::arithmetic::power2::lemma_pow2_pos(shift as nat);
        let width = pow2(shift as nat) as int;
        assert((rest + step + 1) * width == (rest + step) * width + width) by (nonlinear_arith);
        if rest == step - 1 {
            vstd::arithmetic::power2::lemma_pow2_unfold((shift + 1) as nat);
            assert((index + 1 - step) / step == shift + 1);
            assert((index + 1 - step) % step == 0);
            assert(pow2((shift + 1) as nat) == 2 * width);
            assert(bucket_low(index + 1) == (0 + step) * pow2((shift + 1) as nat));
            assert((0 + step) * (2 * width) == (rest + step + 1) * width) by (nonlinear_arith)
                requires
                    rest == step - 1,
            ;
            assert(bucket_high(index) == (rest + step + 1) * width - 1);
        } else {
            assert((index + 1 - step) / step == shift);
            assert((index + 1 - step) % step == rest + 1);
            assert(rest + 1 + step == rest + step + 1);
            assert(bucket_low(index + 1) == (rest + step + 1) * width);
        }
    }
}

proof fn lemma_buckets_ascend(i: int, j: int)
    requires
        0 <= i < j,
    ensures
        bucket_high(i) < bucket_low(j),
        bucket_high(i) < bucket_high(j),
    decreases j - i,
{
    law_buckets_tile(j - 1);
    law_buckets_tile(j);
    if i < j - 1 {
        lemma_buckets_ascend(i, j - 1);
    }
}

/// A latency lies in one bucket only.
pub proof fn law_bucket_is_unique(value: int, i: int, j: int)
    requires
        0 <= i,
        0 <= j,
        bucket_low(i) <= value <= bucket_high(i),
        bucket_low(j) <= value <= bucket_high(j),
    ensures
        i == j,
{
    if i < j {
        lemma_buckets_ascend(i, j);
    } else if j < i {
        lemma_buckets_ascend(j, i);
    }
}

/// Every latency lies in some bucket.
pub proof fn lemma_bucket_exists(ns: int)
    ensures
        holds_latency(bucket_index(ns), ns),
{
    let value = clamped(ns);
    lemma_pow2_33();
    assert(bucket_high(BUCKETS - 1) == 16 * pow2(32) - 1);
    let index = lemma_bucket_below(value, BUCKETS - 1);
    assert(holds_latency(index, ns));
}

proof fn lemma_bucket_below(value: int, last: int) -> (index: int)
    requires
        0 <= last,
        0 <= value <= bucket_high(last),
    ensures
        0 <= index <= last,
        bucket_low(index) <= value <= bucket_high(index),
    decreases last,
{
    if bucket_low(last) <= value {
        last
    } else {
        law_buckets_tile(last - 1);
        lemma_bucket_below(value, last - 1)
    }
}

/// The latency reported for a bucket is no smaller than any latency it holds,
/// and exceeds it by at most an eighth.
pub proof fn law_reported_latency_is_close(ns: int, index: int)
    requires
        holds_latency(index, ns),
    ensures
        clamped(ns) <= bucket_top(index),
        8 * (bucket_top(index) - clamped(ns)) <= clamped(ns),
{
    let step = SUB as int;
    if index >= step {
        let shift = (index - step) / step;
        let rest = (index - step) % step;
        vstd::arithmetic::power2::lemma_pow2_pos(shift as nat);
        let width = pow2(shift as nat) as int;
        assert((rest + step + 1) * width == (rest + step) * width + width) by (nonlinear_arith);
        assert((rest + step) * width >= 8 * width) by (nonlinear_arith)
            requires
                rest >= 0,
                step == 8,
                width > 0,
        ;
    }
}

/// A longer latency is never counted in an earlier bucket.
pub proof fn law_buckets_keep_order(a: int, b: int, i: int, j: int)
    requires
        a <= b,
        holds_latency(i, a),
        holds_latency(j, b),
    ensures
        i <= j,
        bucket_top(i) <= bucket_top(j),
{
    if j < i {
        lemma_buckets_ascend(j, i);
    } else if i < j {
        lemma_buckets_ascend(i, j);
    }
}

proof fn lemma_some_bucket_holds_rank(buckets: Seq<nat>, rank: nat, n: int) -> (index: int)
    requires
        0 <= n <= buckets.len(),
        0 < rank <= total_of(buckets, n),
    ensures
        holds_rank(buckets, index, rank),
        index < n,
    decreases n,
{
    if n == 0 {
        assert(buckets.take(0) =~= Seq::<nat>::empty());
        0
    } else if sums::total(buckets.take(n - 1)) < rank {
        n - 1
    } else {
        lemma_some_bucket_holds_rank(buckets, rank, n - 1)
    }
}

/// Samples in the first `n` buckets.
pub open spec fn total_of(buckets: Seq<nat>, n: int) -> nat {
    sums::total(buckets.take(n))
}

/// With samples, a percentile of one to a thousand thousandths is the latency
/// of the first bucket up to which at least that share of the samples lies.
pub proof fn law_percentile_covers_its_share(buckets: Seq<nat>, permille: nat) -> (index: int)
    requires
        buckets.len() == BUCKETS,
        0 < sums::total(buckets) <= u64::MAX,
        0 < permille <= 1000,
    ensures
        0 <= index < BUCKETS,
        percentile_of(buckets, permille) == Some(bucket_top(index) as u64),
        1000 * total_of(buckets, index + 1) >= permille * sums::total(buckets),
        1000 * total_of(buckets, index) < permille * sums::total(buckets),
{
    let count = sums::total(buckets);
    assert(count * permille <= count * 1000) by (nonlinear_arith)
        requires
            permille <= 1000,
    ;
    assert(count * permille >= 1) by (nonlinear_arith)
        requires
            permille >= 1,
            count >= 1,
    ;
    assert(count * permille == permille * count) by (nonlinear_arith);
    let rank = rank_of(count, permille);
    assert(rank == (count * permille + 999) / 1000);
    assert(buckets.take(BUCKETS as int) =~= buckets);
    let index = lemma_some_bucket_holds_rank(buckets, rank, BUCKETS as int);
    lemma_rank_in_one_bucket(
        buckets,
        index,
        choose|i: int| holds_rank(buckets, i, rank),
        rank,
    );
    index
}

/// A higher percentile of the same samples is never a lower latency.
pub proof fn law_percentiles_ascend(buckets: Seq<nat>, low: nat, high: nat)
    requires
        buckets.len() == BUCKETS,
        0 < sums::total(buckets) <= u64::MAX,
        0 < low <= high <= 1000,
    ensures
        percentile_of(buckets, low)->0 <= percentile_of(buckets, high)->0,
        percentile_of(buckets, low) is Some,
        percentile_of(buckets, high) is Some,
        percentile_of(buckets, high)->0 <= MAX_LATENCY_NS,
{
    let i = law_percentile_covers_its_share(buckets, low);
    let j = law_percentile_covers_its_share(buckets, high);
    let count = sums::total(buckets);
    assert(low * count <= high * count) by (nonlinear_arith)
        requires
            low <= high,
    ;
    if j < i {
        sums::lemma_total_prefix_monotone(buckets, j + 1, i);
    } else if i < j {
        lemma_buckets_ascend(i, j);
    }
    lemma_tops_are_latencies(i);
    lemma_tops_are_latencies(j);
}

proof fn lemma_tops_are_latencies(index: int)
    requires
        0 <= index,
    ensures
        0 <= bucket_top(index) <= MAX_LATENCY_NS,
{
    if index > 0 {
        lemma_buckets_ascend(0, index);
    }
}

/// The latency reported for a bucket exceeds its smallest one by at most an
/// eighth.
pub proof fn lemma_top_near_low(index: int)
    requires
        0 <= index,
    ensures
        8 * bucket_top(index) <= 9 * bucket_low(index),
        0 <= bucket_low(index) <= bucket_high(index),
{
    let step = SUB as int;
    if index >= step {
        let shift = (index - step) / step;
        let rest = (index - step) % step;
        vstd::arithmetic::power2::lemma_pow2_pos(shift as nat);
        let width = pow2(shift as nat) as int;
        assert((rest + step + 1) * width == (rest + step) * width + width) by (nonlinear_arith);
        assert((rest + step) * width >= 8 * width) by (nonlinear_arith)
            requires
                rest >= 0,
                step == 8,
                width > 0,
        ;
    }
}

/// A latency in an earlier or the same bucket is no longer than that bucket
/// tells, one in the same or a later bucket no shorter than its smallest.
pub proof fn lemma_bucket_sides(ns: int, index: int)
    requires
        0 <= index,
    ensures
        holds_latency(bucket_index(ns), ns),
        bucket_index(ns) <= index ==> clamped(ns) <= bucket_top(index),
        bucket_index(ns) >= index ==> bucket_low(index) <= clamped(ns),
{
    lemma_bucket_exists(ns);
    let i = bucket_index(ns);
    if i < index {
        lemma_buckets_ascend(i, index);
    } else if index < i {
        lemma_buckets_ascend(index, i);
        law_buckets_tile(index);
    }
}

} // verus!

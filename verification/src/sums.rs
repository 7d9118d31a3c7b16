//! Finite sums of counters.

use vstd::prelude::*;

verus! {

/// Sum of all entries of `s`.
pub open spec fn total(s: Seq<nat>) -> nat
    decreases s.len(),
{
    if s.len() == 0 {
        0
    } else {
        total(s.drop_last()) + s.last()
    }
}

/// The entries of `s` as natural numbers.
pub open spec fn nats(s: Seq<u64>) -> Seq<nat> {
    Seq::new(s.len(), |i: int| s[i] as nat)
}

/// The entry-wise sum of two sequences of one length.
pub open spec fn plus(a: Seq<nat>, b: Seq<nat>) -> Seq<nat> {
    Seq::new(a.len(), |i: int| a[i] + b[i])
}

pub proof fn lemma_total_prefix_step(s: Seq<nat>, i: int)
    requires
        0 <= i < s.len(),
    ensures
        total(s.take(i + 1)) == total(s.take(i)) + s[i],
{
    assert(s.take(i + 1).drop_last() =~= s.take(i));
}

pub proof fn lemma_total_prefix_monotone(s: Seq<nat>, i: int, j: int)
    requires
        0 <= i <= j <= s.len(),
    ensures
        total(s.take(i)) <= total(s.take(j)),
    decreases j - i,
{
    if i < j {
        lemma_total_prefix_monotone(s, i, j - 1);
        lemma_total_prefix_step(s, j - 1);
    }
}

pub proof fn lemma_total_bounds_entry(s: Seq<nat>, i: int)
    requires
        0 <= i < s.len(),
    ensures
        s[i] <= total(s),
{
    lemma_total_prefix_step(s, i);
    lemma_total_prefix_monotone(s, i + 1, s.len() as int);
    assert(s.take(s.len() as int) =~= s);
}

pub proof fn lemma_total_update(s: Seq<nat>, i: int, v: nat)
    requires
        0 <= i < s.len(),
    ensures
        total(s.update(i, v)) == total(s) - s[i] + v,
        total(s) >= s[i],
    decreases s.len(),
{
    lemma_total_bounds_entry(s, i);
    if i == s.len() - 1 {
        assert(s.update(i, v).drop_last() =~= s.drop_last());
    } else {
        lemma_total_update(s.drop_last(), i, v);
        lemma_total_bounds_entry(s.drop_last(), i);
        assert(s.update(i, v).drop_last() =~= s.drop_last().update(i, v));
    }
}

pub proof fn lemma_total_zeros(s: Seq<nat>)
    requires
        forall|i: int| 0 <= i < s.len() ==> s[i] == 0,
    ensures
        total(s) == 0,
    decreases s.len(),
{
    if s.len() > 0 {
        lemma_total_zeros(s.drop_last());
    }
}

pub proof fn lemma_total_plus(a: Seq<nat>, b: Seq<nat>)
    requires
        a.len() == b.len(),
    ensures
        total(plus(a, b)) == total(a) + total(b),
    decreases a.len(),
{
    if a.len() > 0 {
        lemma_total_plus(a.drop_last(), b.drop_last());
        assert(plus(a, b).drop_last() =~= plus(a.drop_last(), b.drop_last()));
    }
}

pub proof fn lemma_total_concat(a: Seq<nat>, b: Seq<nat>)
    ensures
        total(a + b) == total(a) + total(b),
    decreases b.len(),
{
    if b.len() == 0 {
        assert(a + b =~= a);
    } else {
        lemma_total_concat(a, b.drop_last());
        assert((a + b).drop_last() =~= a + b.drop_last());
    }
}

/// How many entries of `s` have a property.
pub open spec fn how_many<T>(s: Seq<T>, p: spec_fn(T) -> bool) -> nat
    decreases s.len(),
{
    if s.len() == 0 {
        0
    } else {
        how_many(s.drop_last(), p) + (if p(s.last()) {
            1nat
        } else {
            0
        })
    }
}

pub proof fn lemma_how_many_bound<T>(s: Seq<T>, p: spec_fn(T) -> bool)
    ensures
        how_many(s, p) <= s.len(),
    decreases s.len(),
{
    if s.len() > 0 {
        lemma_how_many_bound(s.drop_last(), p);
    }
}

/// Entries that match by a property are as many.
pub proof fn lemma_how_many_matched<A, B>(
    a: Seq<A>,
    b: Seq<B>,
    p: spec_fn(A) -> bool,
    q: spec_fn(B) -> bool,
)
    requires
        a.len() == b.len(),
        forall|i: int| 0 <= i < a.len() ==> p(#[trigger] a[i]) == q(b[i]),
    ensures
        how_many(a, p) == how_many(b, q),
    decreases a.len(),
{
    if a.len() > 0 {
        assert(p(a[a.len() - 1]) == q(b[a.len() - 1]));
        assert forall|i: int| 0 <= i < a.len() - 1 implies p(#[trigger] a.drop_last()[i]) == q(
            b.drop_last()[i],
        ) by {
            assert(p(a[i]) == q(b[i]));
        }
        lemma_how_many_matched(a.drop_last(), b.drop_last(), p, q);
    }
}

/// A weaker property has no fewer entries.
pub proof fn lemma_how_many_weaker<T>(s: Seq<T>, p: spec_fn(T) -> bool, q: spec_fn(T) -> bool)
    requires
        forall|i: int| 0 <= i < s.len() ==> p(#[trigger] s[i]) ==> q(s[i]),
    ensures
        how_many(s, p) <= how_many(s, q),
    decreases s.len(),
{
    if s.len() > 0 {
        assert(p(s[s.len() - 1]) ==> q(s[s.len() - 1]));
        assert forall|i: int| 0 <= i < s.len() - 1 implies p(#[trigger] s.drop_last()[i]) ==> q(
            s.drop_last()[i],
        ) by {
            assert(p(s[i]) ==> q(s[i]));
        }
        lemma_how_many_weaker(s.drop_last(), p, q);
    }
}

/// A property that one of two others gives, never both, has the entries of both.
pub proof fn lemma_how_many_joined<T>(
    s: Seq<T>,
    p: spec_fn(T) -> bool,
    q: spec_fn(T) -> bool,
    both: spec_fn(T) -> bool,
)
    requires
        forall|i: int|
            0 <= i < s.len() ==> (both(#[trigger] s[i]) <==> p(s[i]) || q(s[i])) && !(p(s[i])
                && q(s[i])),
    ensures
        how_many(s, both) == how_many(s, p) + how_many(s, q),
    decreases s.len(),
{
    if s.len() > 0 {
        let n = s.len() - 1;
        assert((both(s[n]) <==> p(s[n]) || q(s[n])) && !(p(s[n]) && q(s[n])));
        assert forall|i: int| 0 <= i < n implies (both(#[trigger] s.drop_last()[i]) <==> p(
            s.drop_last()[i],
        ) || q(s.drop_last()[i])) && !(p(s.drop_last()[i]) && q(s.drop_last()[i])) by {
            assert((both(s[i]) <==> p(s[i]) || q(s[i])) && !(p(s[i]) && q(s[i])));
        }
        lemma_how_many_joined(s.drop_last(), p, q, both);
    }
}

} // verus!

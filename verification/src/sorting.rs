//! A deterministic, stable insertion sort, as a specification: the ranked
//! views of the report are pinned to exactly this ordering.

use vstd::prelude::*;
use vstd::relations::sorted_by;
use vstd::seq_lib::to_multiset_build;

verus! {

/// Inserts `x` into `s` behind every element `e` with `leq(e, x)` that it
/// meets scanning from the right; on a sorted sequence this places `x` after
/// all elements it does not strictly precede, which keeps the sort stable.
pub open spec fn spec_insert<T>(s: Seq<T>, x: T, leq: spec_fn(T, T) -> bool) -> Seq<T>
    decreases s.len(),
{
    if s.len() == 0 {
        seq![x]
    } else if leq(s.last(), x) {
        s.push(x)
    } else {
        spec_insert(s.drop_last(), x, leq).push(s.last())
    }
}

/// Insertion sort: each element of `s`, taken left to right, is inserted
/// into the sorted result built so far.
pub open spec fn spec_sort<T>(s: Seq<T>, leq: spec_fn(T, T) -> bool) -> Seq<T>
    decreases s.len(),
{
    if s.len() == 0 {
        Seq::empty()
    } else {
        spec_insert(spec_sort(s.drop_last(), leq), s.last(), leq)
    }
}

/// `leq` relates every pair of values, one way or the other.
pub open spec fn total<T>(leq: spec_fn(T, T) -> bool) -> bool {
    forall|a: T, b: T| #[trigger] leq(a, b) || #[trigger] leq(b, a)
}

/// Inserting adds exactly the new element: one longer, same contents plus `x`.
pub proof fn lemma_insert_multiset<T>(s: Seq<T>, x: T, leq: spec_fn(T, T) -> bool)
    ensures
        spec_insert(s, x, leq).len() == s.len() + 1,
        spec_insert(s, x, leq).to_multiset() == s.to_multiset().insert(x),
    decreases s.len(),
{
    broadcast use to_multiset_build;

    if s.len() == 0 {
        assert(s =~= Seq::<T>::empty());
        assert(seq![x] =~= s.push(x));
    } else if leq(s.last(), x) {
    } else {
        lemma_insert_multiset(s.drop_last(), x, leq);
        assert(s =~= s.drop_last().push(s.last()));
        assert(s.to_multiset() == s.drop_last().push(s.last()).to_multiset());
        assert(spec_insert(s, x, leq).to_multiset() == s.drop_last().to_multiset().insert(
            x,
        ).insert(s.last()));
        assert(s.drop_last().to_multiset().insert(x).insert(s.last())
            =~= s.drop_last().to_multiset().insert(s.last()).insert(x));
    }
}

/// Sorting permutes: the sorted sequence has the same length and the same
/// contents as the input.
pub proof fn lemma_sort_multiset<T>(s: Seq<T>, leq: spec_fn(T, T) -> bool)
    ensures
        spec_sort(s, leq).len() == s.len(),
        spec_sort(s, leq).to_multiset() == s.to_multiset(),
    decreases s.len(),
{
    broadcast use to_multiset_build;

    if s.len() == 0 {
        assert(s =~= Seq::<T>::empty());
    } else {
        lemma_sort_multiset(s.drop_last(), leq);
        lemma_insert_multiset(spec_sort(s.drop_last(), leq), s.last(), leq);
        assert(s =~= s.drop_last().push(s.last()));
        assert(s.to_multiset() == s.drop_last().push(s.last()).to_multiset());
    }
}

/// A property holding of every element of `s` and of `x` holds of every
/// element after inserting `x`.
pub proof fn lemma_insert_all<T>(s: Seq<T>, x: T, leq: spec_fn(T, T) -> bool, p: spec_fn(T) -> bool)
    requires
        forall|i: int| 0 <= i < s.len() ==> p(#[trigger] s[i]),
        p(x),
    ensures
        forall|i: int|
            0 <= i < spec_insert(s, x, leq).len() ==> p(#[trigger] spec_insert(s, x, leq)[i]),
    decreases s.len(),
{
    if s.len() == 0 {
    } else if leq(s.last(), x) {
    } else {
        assert(forall|i: int| 0 <= i < s.drop_last().len() ==> p(#[trigger] s.drop_last()[i]));
        lemma_insert_all(s.drop_last(), x, leq, p);
        let r = spec_insert(s, x, leq);
        let r0 = spec_insert(s.drop_last(), x, leq);
        assert(forall|i: int| 0 <= i < r.len() - 1 ==> r[i] == r0[i]);
        assert(r[r.len() - 1] == s.last());
    }
}

/// Everything a sequence contains is bounded by `x` if its multiset came
/// from a sequence with that property plus `x` itself bounded.
proof fn lemma_insert_elements_bounded<T>(
    s: Seq<T>,
    x: T,
    leq: spec_fn(T, T) -> bool,
    bound: T,
)
    requires
        forall|i: int| 0 <= i < s.len() ==> leq(#[trigger] s[i], bound),
        leq(x, bound),
    ensures
        forall|i: int|
            0 <= i < spec_insert(s, x, leq).len() ==> leq(#[trigger] spec_insert(s, x, leq)[i], bound),
    decreases s.len(),
{
    if s.len() == 0 {
    } else if leq(s.last(), x) {
    } else {
        assert(forall|i: int| 0 <= i < s.drop_last().len() ==> leq(#[trigger] s.drop_last()[i], bound));
        lemma_insert_elements_bounded(s.drop_last(), x, leq, bound);
        let r = spec_insert(s, x, leq);
        let r0 = spec_insert(s.drop_last(), x, leq);
        assert(forall|i: int| 0 <= i < r.len() - 1 ==> r[i] == r0[i]);
        assert(r[r.len() - 1] == s.last());
    }
}

/// Inserting into a sorted sequence keeps it sorted, provided `leq` is a
/// total preorder.
pub proof fn lemma_insert_sorted<T>(s: Seq<T>, x: T, leq: spec_fn(T, T) -> bool)
    requires
        total(leq),
        vstd::relations::transitive(leq),
        sorted_by(s, leq),
    ensures
        sorted_by(spec_insert(s, x, leq), leq),
    decreases s.len(),
{
    if s.len() == 0 {
    } else if leq(s.last(), x) {
        let r = s.push(x);
        assert forall|i: int, j: int| 0 <= i < j < r.len() implies leq(r[i], r[j]) by {
            if j < r.len() - 1 {
                assert(leq(s[i], s[j]));
            } else if i < s.len() - 1 {
                assert(leq(s[i], s[s.len() - 1]));
                assert(leq(s[s.len() - 1], x));
            }
        }
    } else {
        assert(leq(x, s.last()));
        assert(sorted_by(s.drop_last(), leq)) by {
            assert(forall|i: int, j: int|
                0 <= i < j < s.drop_last().len() ==> leq(
                    #[trigger] s.drop_last()[i],
                    #[trigger] s.drop_last()[j],
                ));
        }
        lemma_insert_sorted(s.drop_last(), x, leq);
        assert(forall|i: int|
            0 <= i < s.drop_last().len() ==> leq(#[trigger] s.drop_last()[i], s.last()));
        lemma_insert_elements_bounded(s.drop_last(), x, leq, s.last());
        let r0 = spec_insert(s.drop_last(), x, leq);
        let r = r0.push(s.last());
        assert forall|i: int, j: int| 0 <= i < j < r.len() implies leq(r[i], r[j]) by {
            if j < r.len() - 1 {
                assert(leq(r0[i], r0[j]));
            } else {
                assert(leq(r0[i], s.last()));
            }
        }
    }
}

/// The result of [`spec_sort`] is sorted, provided `leq` is a total
/// preorder.
pub proof fn lemma_sort_sorted<T>(s: Seq<T>, leq: spec_fn(T, T) -> bool)
    requires
        total(leq),
        vstd::relations::transitive(leq),
    ensures
        sorted_by(spec_sort(s, leq), leq),
    decreases s.len(),
{
    if s.len() == 0 {
    } else {
        lemma_sort_sorted(s.drop_last(), leq);
        lemma_insert_sorted(spec_sort(s.drop_last(), leq), s.last(), leq);
    }
}

/// Where the scan of the right-to-left insertion stops, the inserted
/// sequence is the input split around the new element.
pub proof fn lemma_insert_at<T>(s: Seq<T>, x: T, leq: spec_fn(T, T) -> bool, j: int)
    requires
        0 <= j <= s.len(),
        j > 0 ==> leq(s[j - 1], x),
        forall|l: int| j <= l < s.len() ==> !leq(#[trigger] s[l], x),
    ensures
        spec_insert(s, x, leq) == s.subrange(0, j) + seq![x] + s.subrange(j, s.len() as int),
    decreases s.len() - j,
{
    if j == s.len() {
        if s.len() == 0 {
            assert(spec_insert(s, x, leq) =~= s.subrange(0, j) + seq![x] + s.subrange(
                j,
                s.len() as int,
            ));
        } else {
            assert(leq(s.last(), x));
            assert(spec_insert(s, x, leq) =~= s.subrange(0, j) + seq![x] + s.subrange(
                j,
                s.len() as int,
            ));
        }
    } else {
        assert(!leq(s[s.len() - 1], x));
        assert(forall|l: int| j <= l < s.drop_last().len() ==> !leq(#[trigger] s.drop_last()[l], x));
        assert(j > 0 ==> s.drop_last()[j - 1] == s[j - 1]);
        lemma_insert_at(s.drop_last(), x, leq, j);
        assert(spec_insert(s, x, leq) =~= s.subrange(0, j) + seq![x] + s.subrange(
            j,
            s.len() as int,
        ));
    }
}

} // verus!

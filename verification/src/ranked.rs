//! Sorting by a total order on the values themselves: of two different
//! values one always comes before the other, so that the sorted run depends
//! on nothing but which values there are, and how often.

use vstd::multiset::group_multiset_axioms;
use vstd::prelude::*;
use vstd::relations::{sorted_by, total_ordering};
use vstd::seq_lib::{group_to_multiset_ensures, to_multiset_build, to_multiset_insert};
use crate::keyed::views;

verus! {

/// A value of a totally ordered kind.
pub trait Ranked: Sized {
    /// Whether this value comes strictly before `other`.
    spec fn before(self, other: Self) -> bool;

    /// No value comes before itself; what comes before a value comes
    /// before all that the value comes before; and of two different values
    /// one comes before the other.
    proof fn lemma_before(a: Self, b: Self, c: Self)
        ensures
            !a.before(a),
            a.before(b) && b.before(c) ==> a.before(c),
            a.before(b) || a == b || b.before(a),
    ;
}

/// An executable value whose view is of a totally ordered kind.
pub trait RankedExec: View + Sized where Self::V: Ranked {
    /// Whether this value comes strictly before `other`.
    fn precedes(&self, other: &Self) -> (r: bool)
        ensures
            r == self@.before(other@),
    ;
}

/// The order "equal or before".
pub open spec fn not_after<T: Ranked>() -> spec_fn(T, T) -> bool {
    |a: T, b: T| a == b || a.before(b)
}

/// No value of `s` stands behind one that it comes before.
pub open spec fn ranked<T: Ranked>(s: Seq<T>) -> bool {
    forall|i: int, j: int| 0 <= i < j < s.len() ==> s[i] == s[j] || s[i].before(s[j])
}

/// `out` holds the values of `inp`, each as often as `inp` holds it, in
/// their order.
pub open spec fn is_ranking<T: Ranked>(out: Seq<T>, inp: Seq<T>) -> bool {
    ranked(out) && out.to_multiset() == inp.to_multiset()
}

/// The values of `inp` in their order. It is the same for every run that
/// holds the same values equally often.
pub open spec fn ranking<T: Ranked>(inp: Seq<T>) -> Seq<T> {
    choose|out: Seq<T>| is_ranking(out, inp)
}

/// "Equal or before" is a total order.
pub proof fn lemma_not_after_total<T: Ranked>()
    ensures
        total_ordering(not_after::<T>()),
{
    let r = not_after::<T>();
    assert forall|x: T, y: T| #[trigger] r(x, y) && #[trigger] r(y, x) implies x == y by {
        T::lemma_before(x, y, x);
    }
    assert forall|x: T, y: T, z: T| #[trigger] r(x, y) && #[trigger] r(y, z) implies r(x, z) by {
        T::lemma_before(x, y, z);
    }
    assert forall|x: T, y: T| #[trigger] r(x, y) || #[trigger] r(y, x) by {
        T::lemma_before(x, y, x);
    }
}

/// Two runs in order that hold the same values equally often are the same.
pub proof fn lemma_ranking_unique<T: Ranked>(a: Seq<T>, b: Seq<T>)
    requires
        ranked(a),
        ranked(b),
        a.to_multiset() == b.to_multiset(),
    ensures
        a == b,
{
    lemma_not_after_total::<T>();
    assert(sorted_by(a, not_after::<T>()));
    assert(sorted_by(b, not_after::<T>()));
    vstd::seq_lib::lemma_sorted_unique(a, b, not_after::<T>());
}

/// Every run has a ranking.
pub proof fn lemma_ranking_exists<T: Ranked>(inp: Seq<T>)
    ensures
        is_ranking(ranking(inp), inp),
{
    lemma_not_after_total::<T>();
    let out = inp.sort_by(not_after::<T>());
    inp.lemma_sort_by_ensures(not_after::<T>());
    assert forall|i: int, j: int| 0 <= i < j < out.len() implies out[i] == out[j] || out[i].before(
        out[j],
    ) by {
        assert(not_after::<T>()(out[i], out[j]));
    }
    assert(is_ranking(out, inp));
}

/// What `is_ranking` describes is the ranking.
pub proof fn lemma_ranking_is<T: Ranked>(out: Seq<T>, inp: Seq<T>)
    requires
        is_ranking(out, inp),
    ensures
        ranking(inp) == out,
{
    lemma_ranking_unique(ranking(inp), out);
}

/// Runs that hold the same values equally often have the same ranking.
pub proof fn lemma_ranking_same<T: Ranked>(a: Seq<T>, b: Seq<T>)
    requires
        a.to_multiset() == b.to_multiset(),
    ensures
        ranking(a) == ranking(b),
{
    lemma_ranking_exists(a);
    lemma_ranking_exists(b);
    lemma_ranking_unique(ranking(a), ranking(b));
}

/// Puts `items` in their order.
pub fn rank_sort<T: RankedExec>(items: Vec<T>) -> (r: Vec<T>) where T::V: Ranked
    ensures
        views(r@) == ranking(views(items@)),
        is_ranking(views(r@), views(items@)),
{
    broadcast use {group_multiset_axioms, group_to_multiset_ensures};

    let ghost all = views(items@);
    let mut rest = items;
    let mut out: Vec<T> = Vec::new();
    assert(views(out@) =~= Seq::<T::V>::empty());
    assert(views(out@).to_multiset().len() == 0);
    assert(views(out@).to_multiset().add(views(rest@).to_multiset()) =~= all.to_multiset());
    while rest.len() > 0
        invariant
            ranked(views(out@)),
            views(out@).to_multiset().add(views(rest@).to_multiset()) == all.to_multiset(),
        decreases rest.len(),
    {
        let ghost done = views(out@);
        let ghost left = views(rest@);
        let item = rest.pop().unwrap();
        let ghost x = item@;
        proof {
            assert(left =~= views(rest@).push(x));
            to_multiset_build(views(rest@), x);
        }
        let mut pos: usize = 0;
        while pos < out.len() && out[pos].precedes(&item)
            invariant
                pos <= out.len(),
                done == views(out@),
                x == item@,
                forall|i: int| 0 <= i < pos ==> done[i].before(x),
            decreases out.len() - pos,
        {
            pos += 1;
        }
        out.insert(pos, item);
        proof {
            let now = views(out@);
            assert(now =~= done.insert(pos as int, x));
            to_multiset_insert(done, pos as int, x);
            assert(now.to_multiset().add(views(rest@).to_multiset()) =~= all.to_multiset());
            assert forall|i: int, j: int| 0 <= i < j < now.len() implies now[i] == now[j]
                || now[i].before(now[j]) by {
                let p = pos as int;
                if j < p {
                    assert(now[i] == done[i] && now[j] == done[j]);
                } else if j == p {
                    assert(now[i] == done[i]);
                } else if i == p {
                    assert(now[j] == done[j - 1]);
                    T::V::lemma_before(done[p], x, done[j - 1]);
                    T::V::lemma_before(x, done[p], done[j - 1]);
                } else if i < p {
                    assert(now[i] == done[i] && now[j] == done[j - 1]);
                } else {
                    assert(now[i] == done[i - 1] && now[j] == done[j - 1]);
                }
            }
        }
    }
    proof {
        assert(views(rest@) =~= Seq::<T::V>::empty());
        assert(views(rest@).to_multiset().len() == 0);
        assert(views(out@).to_multiset() =~= all.to_multiset());
        lemma_ranking_is(views(out@), all);
    }
    out
}

} // verus!

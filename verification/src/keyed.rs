//! Values that are found and ordered by a text they hold: a declaration by
//! its property name, a style by its selector.

use vstd::prelude::*;
use crate::text::{distinct, occurs};

verus! {

/// A value that is ordered by a text.
pub trait Keyed {
    /// The text by which the value is ordered.
    spec fn key(self) -> Seq<char>;
}

/// An executable value whose view is ordered by a text that the value holds.
pub trait SortKey: View + Sized where Self::V: Keyed {
    /// The text by which the value is ordered.
    fn sort_key(&self) -> (r: &String)
        ensures
            r@ == self@.key(),
    ;
}

/// The views of a run of values.
pub open spec fn views<T: View>(items: Seq<T>) -> Seq<T::V> {
    items.map_values(|x: T| x@)
}

/// The keys of a run of values, in order.
pub open spec fn keys_of<T: Keyed>(items: Seq<T>) -> Seq<Seq<char>> {
    items.map_values(|x: T| x.key())
}

/// Those values of `news` whose key no value of `olds` has, in order.
pub open spec fn unclaimed<T: Keyed>(news: Seq<T>, olds: Seq<T>) -> Seq<T>
    decreases news.len(),
{
    if news.len() == 0 {
        Seq::empty()
    } else if occurs(keys_of(olds), news.last().key()) {
        unclaimed(news.drop_last(), olds)
    } else {
        unclaimed(news.drop_last(), olds).push(news.last())
    }
}

/// A key occurs among the first `i + 1` values where it occurs among the
/// first `i` or is the key of the value at `i`.
pub proof fn lemma_occurs_extend<T: Keyed>(items: Seq<T>, i: int)
    requires
        0 <= i < items.len(),
    ensures
        forall|key: Seq<char>|
            occurs(keys_of(items.take(i + 1)), key) <==> (occurs(keys_of(items.take(i)), key)
                || key == items[i].key()),
{
    let shorter = keys_of(items.take(i));
    let longer = keys_of(items.take(i + 1));
    assert forall|key: Seq<char>|
        occurs(longer, key) <==> (occurs(shorter, key) || key == items[i].key()) by {
        if occurs(longer, key) {
            let j = choose|j: int| 0 <= j < longer.len() && longer[j] == key;
            if j < i {
                assert(shorter[j] == key);
            }
        }
        if occurs(shorter, key) {
            let j = choose|j: int| 0 <= j < shorter.len() && shorter[j] == key;
            assert(longer[j] == key);
        }
        if key == items[i].key() {
            assert(longer[i] == key);
        }
    }
}

/// The keys of the unclaimed values are the keys of `news` that `olds`
/// lacks.
pub proof fn lemma_unclaimed_keys<T: Keyed>(news: Seq<T>, olds: Seq<T>, key: Seq<char>)
    ensures
        occurs(keys_of(unclaimed(news, olds)), key) <==> (occurs(keys_of(news), key) && !occurs(
            keys_of(olds),
            key,
        )),
    decreases news.len(),
{
    let out = unclaimed(news, olds);
    if news.len() > 0 {
        let front = news.drop_last();
        let last = news.last();
        let prev = unclaimed(front, olds);
        lemma_unclaimed_keys(front, olds, key);
        lemma_occurs_extend(news, news.len() - 1);
        assert(news.take(news.len() as int) =~= news);
        if !occurs(keys_of(olds), last.key()) {
            lemma_occurs_extend(out, out.len() - 1);
            assert(out.take(out.len() - 1) =~= prev);
            assert(out.take(out.len() as int) =~= out);
        }
    }
}

/// The unclaimed values have distinct keys where those of `news` have.
pub proof fn lemma_unclaimed_distinct<T: Keyed>(news: Seq<T>, olds: Seq<T>)
    requires
        distinct(keys_of(news)),
    ensures
        distinct(keys_of(unclaimed(news, olds))),
    decreases news.len(),
{
    let out = unclaimed(news, olds);
    if news.len() > 0 {
        let front = news.drop_last();
        let last = news.last();
        let prev = unclaimed(front, olds);
        assert forall|i: int, j: int| 0 <= i < j < keys_of(front).len() implies keys_of(front)[i]
            != keys_of(front)[j] by {
            assert(keys_of(front)[i] == keys_of(news)[i]);
            assert(keys_of(front)[j] == keys_of(news)[j]);
        }
        lemma_unclaimed_distinct(front, olds);
        if !occurs(keys_of(olds), last.key()) {
            assert forall|i: int, j: int| 0 <= i < j < keys_of(out).len() implies keys_of(out)[i]
                != keys_of(out)[j] by {
                assert(keys_of(out)[i] == keys_of(prev)[i]);
                if j < prev.len() {
                    assert(keys_of(out)[j] == keys_of(prev)[j]);
                } else if keys_of(prev)[i] == last.key() {
                    lemma_unclaimed_keys(front, olds, last.key());
                    let m = choose|m: int|
                        0 <= m < keys_of(front).len() && keys_of(front)[m] == last.key();
                    assert(keys_of(news)[m] == keys_of(front)[m]);
                    assert(keys_of(news)[news.len() - 1] == last.key());
                }
            }
        }
    }
}

} // verus!

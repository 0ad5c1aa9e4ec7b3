//! The merge of stylesheets does not depend on the order in which the
//! stylesheets are given: it holds, for each selector, the declarations that
//! the stylesheets make for it, in an order of the declarations themselves.

use vstd::multiset::group_multiset_axioms;
use vstd::prelude::*;
use vstd::seq_lib::lemma_multiset_commutative;
use super::css_attribute::CssAttributeView;
use super::css_style::CssStyleView;
use super::{
    collected, css_text, declared, declared_in_record, is_merge, lemma_collected,
    lemma_merge_unique, merged, styled, CssMetaDataView,
};
use crate::keyed::keys_of;
use crate::ranked::{lemma_ranking_same, ranking};
use crate::sorting::{lemma_sort_distinct, lemma_stable_sort_exists, stable_sort};
use crate::text::{is_first_index, lemma_first_index, occurs};

verus! {

/// The buckets with the declarations of each in their order.
pub open spec fn sorted_buckets(buckets: Seq<CssStyleView>) -> Seq<CssStyleView> {
    Seq::new(
        buckets.len(),
        |i: int| CssStyleView { tag: buckets[i].tag, attributes: ranking(buckets[i].attributes) },
    )
}

/// Every list of records has a merge.
pub proof fn lemma_merge_exists(records: Seq<CssMetaDataView>)
    ensures
        is_merge(merged(records), records),
{
    let all = collected(records);
    let unsorted = sorted_buckets(all);
    lemma_stable_sort_exists(unsorted);
    let result = stable_sort(unsorted);
    lemma_collected(records, Seq::empty());
    assert(keys_of(unsorted) =~= keys_of(all));
    lemma_sort_distinct(result, unsorted);
    assert forall|tag: Seq<char>| occurs(keys_of(result), tag) <==> styled(records, tag) by {
        lemma_collected(records, tag);
        if occurs(keys_of(result), tag) {
            let a = choose|a: int| 0 <= a < keys_of(result).len() && keys_of(result)[a] == tag;
            assert(result.contains(result[a]));
            let b = choose|b: int| 0 <= b < unsorted.len() && unsorted[b] == result[a];
            assert(keys_of(all)[b] == tag);
        }
        if styled(records, tag) {
            let c = choose|c: int| 0 <= c < keys_of(all).len() && keys_of(all)[c] == tag;
            assert(unsorted.contains(unsorted[c]));
            let a = choose|a: int| 0 <= a < result.len() && result[a] == unsorted[c];
            assert(keys_of(result)[a] == tag);
        }
    }
    assert forall|a: int| 0 <= a < result.len() implies (#[trigger] result[a]).attributes
        == ranking(declared(records, result[a].tag)) by {
        let tag = result[a].tag;
        assert(result.contains(result[a]));
        let b = choose|b: int| 0 <= b < unsorted.len() && unsorted[b] == result[a];
        lemma_collected(records, tag);
        assert(keys_of(all)[b] == tag);
        assert(is_first_index(keys_of(all), tag, b)) by {
            assert forall|j: int| 0 <= j < b implies keys_of(all)[j] != tag by {
            }
        }
        lemma_first_index(keys_of(all), tag, b);
    }
    assert(is_merge(result, records));
}

/// Whether `order` holds the position `k`.
pub open spec fn holds_position(order: Seq<int>, k: int) -> bool {
    exists|i: int| 0 <= i < order.len() && order[i] == k
}

/// `order` is a permutation of the positions below `n`: it holds each of
/// them once.
pub open spec fn is_permutation(order: Seq<int>, n: nat) -> bool {
    &&& order.len() == n
    &&& forall|i: int| 0 <= i < n ==> 0 <= #[trigger] order[i] < n
    &&& forall|i: int, j: int| 0 <= i < j < n ==> order[i] != order[j]
    &&& forall|k: int| 0 <= k < n ==> #[trigger] holds_position(order, k)
}

/// `b` holds the records of `a` in the order `order`: at each position the
/// record that `a` has at the position that `order` gives.
pub open spec fn is_reordering(
    a: Seq<CssMetaDataView>,
    b: Seq<CssMetaDataView>,
    order: Seq<int>,
) -> bool {
    &&& is_permutation(order, a.len())
    &&& b.len() == a.len()
    &&& forall|i: int| 0 <= i < b.len() ==> #[trigger] b[i] == a[order[i]]
}

/// What the records make, one record after the other, where `of` gives
/// what one record makes.
pub open spec fn gathered<T>(
    records: Seq<CssMetaDataView>,
    of: spec_fn(CssMetaDataView) -> Seq<T>,
) -> Seq<T>
    decreases records.len(),
{
    if records.len() == 0 {
        Seq::empty()
    } else {
        gathered(records.drop_last(), of) + of(records.last())
    }
}

/// What the records make is, but for its order, what the records without
/// the one at `at` make, and what that one makes.
proof fn lemma_move_to_end<T>(
    records: Seq<CssMetaDataView>,
    at: int,
    of: spec_fn(CssMetaDataView) -> Seq<T>,
)
    requires
        0 <= at < records.len(),
    ensures
        gathered(records, of).to_multiset() == gathered(records.remove(at), of).to_multiset().add(
            of(records[at]).to_multiset(),
        ),
    decreases records.len(),
{
    broadcast use group_multiset_axioms;

    let front = records.drop_last();
    let tail = of(records.last());
    lemma_multiset_commutative(gathered(front, of), tail);
    if at == records.len() - 1 {
        assert(records.remove(at) =~= front);
    } else {
        let fewer = records.remove(at);
        lemma_move_to_end(front, at, of);
        assert(fewer.drop_last() =~= front.remove(at));
        lemma_multiset_commutative(gathered(front.remove(at), of), tail);
        let rest = gathered(front.remove(at), of).to_multiset();
        let mine = of(records[at]).to_multiset();
        assert(rest.add(mine).add(tail.to_multiset()) =~= rest.add(tail.to_multiset()).add(mine));
    }
}

/// Records in another order make the same things, each as often.
pub proof fn lemma_gathered_in_any_order<T>(
    a: Seq<CssMetaDataView>,
    b: Seq<CssMetaDataView>,
    order: Seq<int>,
    of: spec_fn(CssMetaDataView) -> Seq<T>,
)
    requires
        is_reordering(a, b, order),
    ensures
        gathered(a, of).to_multiset() == gathered(b, of).to_multiset(),
    decreases a.len(),
{
    if a.len() == 0 {
        assert(a =~= b);
    } else {
        let n = a.len() - 1;
        let front = a.drop_last();
        assert(holds_position(order, n));
        let at = choose|j: int| 0 <= j < order.len() && order[j] == n;
        let rest = b.remove(at);
        let fewer = order.remove(at);
        assert(b[at] == a[order[at]]);
        lemma_move_to_end(b, at, of);
        lemma_multiset_commutative(gathered(front, of), of(a.last()));
        assert forall|i: int| 0 <= i < n implies 0 <= #[trigger] fewer[i] < n by {
            if i < at {
                assert(fewer[i] == order[i]);
                assert(order[i] != order[at]);
            } else {
                assert(fewer[i] == order[i + 1]);
                assert(order[at] != order[i + 1]);
            }
        }
        assert forall|i: int, j: int| 0 <= i < j < n implies fewer[i] != fewer[j] by {
            let x = if i < at {
                i
            } else {
                i + 1
            };
            let y = if j < at {
                j
            } else {
                j + 1
            };
            assert(fewer[i] == order[x] && fewer[j] == order[y]);
            assert(order[x] != order[y]);
        }
        assert forall|k: int| 0 <= k < n implies #[trigger] holds_position(fewer, k) by {
            assert(holds_position(order, k));
            let i = choose|i: int| 0 <= i < order.len() && order[i] == k;
            if i < at {
                assert(fewer[i] == k);
            } else {
                assert(fewer[i - 1] == k);
            }
        }
        assert forall|i: int| 0 <= i < rest.len() implies #[trigger] rest[i] == front[fewer[i]] by {
            if i < at {
                assert(rest[i] == b[i] && fewer[i] == order[i]);
            } else {
                assert(rest[i] == b[i + 1] && fewer[i] == order[i + 1]);
            }
            assert(0 <= fewer[i] < n);
        }
        lemma_gathered_in_any_order(front, rest, fewer, of);
    }
}

/// What one record declares for the selector `tag`, as a function of the
/// record.
pub open spec fn declared_by(tag: Seq<char>) -> spec_fn(CssMetaDataView) -> Seq<CssAttributeView> {
    |record: CssMetaDataView| declared_in_record(record, tag)
}

/// The declarations for a selector are what the records declare for it,
/// one record after the other.
proof fn lemma_declared_gathered(records: Seq<CssMetaDataView>, tag: Seq<char>)
    ensures
        declared(records, tag) == gathered(records, declared_by(tag)),
    decreases records.len(),
{
    if records.len() > 0 {
        lemma_declared_gathered(records.drop_last(), tag);
    }
}

/// Records in another order make the same declarations for each selector,
/// each as often.
pub proof fn lemma_declared_in_any_order(
    a: Seq<CssMetaDataView>,
    b: Seq<CssMetaDataView>,
    order: Seq<int>,
    tag: Seq<char>,
)
    requires
        is_reordering(a, b, order),
    ensures
        declared(a, tag).to_multiset() == declared(b, tag).to_multiset(),
{
    lemma_declared_gathered(a, tag);
    lemma_declared_gathered(b, tag);
    lemma_gathered_in_any_order(a, b, order, declared_by(tag));
}

/// Records in another order style the same selectors.
proof fn lemma_styled_in_any_order(
    a: Seq<CssMetaDataView>,
    b: Seq<CssMetaDataView>,
    order: Seq<int>,
    tag: Seq<char>,
)
    requires
        is_reordering(a, b, order),
    ensures
        styled(a, tag) <==> styled(b, tag),
{
    if styled(a, tag) {
        let i = choose|i: int|
            0 <= i < a.len() && (#[trigger] a[i]).styles is Some && occurs(
                keys_of(a[i].styles->0),
                tag,
            );
        assert(holds_position(order, i));
        let j = choose|j: int| 0 <= j < order.len() && order[j] == i;
        assert(b[j] == a[i]);
    }
}

/// The merge of stylesheets, and its CSS text, are the same in whatever
/// order the stylesheets are given.
pub proof fn lemma_merge_order_independent(
    a: Seq<CssMetaDataView>,
    b: Seq<CssMetaDataView>,
    order: Seq<int>,
)
    requires
        is_reordering(a, b, order),
    ensures
        merged(a) == merged(b),
        css_text(merged(a)) == css_text(merged(b)),
{
    lemma_merge_exists(a);
    lemma_merge_exists(b);
    let x = merged(a);
    assert forall|tag: Seq<char>| occurs(keys_of(x), tag) <==> styled(b, tag) by {
        lemma_styled_in_any_order(a, b, order, tag);
    }
    assert forall|i: int| 0 <= i < x.len() implies (#[trigger] x[i]).attributes == ranking(
        declared(b, x[i].tag),
    ) by {
        lemma_declared_in_any_order(a, b, order, x[i].tag);
        lemma_ranking_same(declared(a, x[i].tag), declared(b, x[i].tag));
    }
    lemma_merge_unique(x, merged(b), b);
}

} // verus!

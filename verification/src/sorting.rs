//! Stable sorting by a text key.

use vstd::prelude::*;
use crate::keyed::{keys_of, views, Keyed, SortKey};
use crate::text::{
    distinct, first_index, lemma_first_index, lemma_first_index_exists, lemma_text_order, occurs,
    str_lt, text_le, text_lt,
};

verus! {

/// The keys never decrease along `s`.
pub open spec fn sorted_by_key<T: Keyed>(s: Seq<T>) -> bool {
    forall|i: int, j: int| 0 <= i < j < s.len() ==> text_le(s[i].key(), s[j].key())
}

/// The keys increase along `s`, so that no key stands twice.
pub open spec fn strictly_sorted_by_key<T: Keyed>(s: Seq<T>) -> bool {
    forall|i: int, j: int| 0 <= i < j < s.len() ==> text_lt(s[i].key(), s[j].key())
}

/// The values of `s` whose key is `k`, in order.
pub open spec fn with_key<T: Keyed>(s: Seq<T>, k: Seq<char>) -> Seq<T>
    decreases s.len(),
{
    if s.len() == 0 {
        Seq::empty()
    } else if s.last().key() == k {
        with_key(s.drop_last(), k).push(s.last())
    } else {
        with_key(s.drop_last(), k)
    }
}

/// `out` holds the values of `inp` sorted by key, those of equal key in the
/// order they have in `inp`.
pub open spec fn is_stable_sort<T: Keyed>(out: Seq<T>, inp: Seq<T>) -> bool {
    &&& sorted_by_key(out)
    &&& forall|k: Seq<char>| with_key(out, k) == with_key(inp, k)
}

/// The values of `inp` sorted by key, those of equal key in the order they
/// have in `inp`.
pub open spec fn stable_sort<T: Keyed>(inp: Seq<T>) -> Seq<T> {
    choose|out: Seq<T>| is_stable_sort(out, inp)
}

/// The values under a key in a run made of two are those of the first,
/// followed by those of the second.
pub proof fn lemma_with_key_add<T: Keyed>(a: Seq<T>, b: Seq<T>, k: Seq<char>)
    ensures
        with_key(a + b, k) == with_key(a, k) + with_key(b, k),
    decreases b.len(),
{
    if b.len() > 0 {
        lemma_with_key_add(a, b.drop_last(), k);
        assert((a + b).drop_last() =~= a + b.drop_last());
    }
}

/// A run of one value holds that value under its key, and nothing under
/// any other.
pub proof fn lemma_with_key_single<T: Keyed>(x: T, k: Seq<char>)
    ensures
        with_key(seq![x], k) == if x.key() == k {
            seq![x]
        } else {
            Seq::<T>::empty()
        },
{
    let s = seq![x];
    assert(with_key(s.drop_last(), k) =~= Seq::<T>::empty());
}

/// Every value of `with_key(s, k)` is a value of `s` with key `k`, and
/// `with_key(s, k)` is empty exactly where `s` holds no such value.
pub proof fn lemma_with_key_members<T: Keyed>(s: Seq<T>, k: Seq<char>)
    ensures
        with_key(s, k).len() <= s.len(),
        forall|i: int| 0 <= i < with_key(s, k).len() ==> (#[trigger] with_key(s, k)[i]).key() == k,
        (with_key(s, k).len() == 0) <==> (forall|i: int| 0 <= i < s.len() ==> s[i].key() != k),
        s.len() > 0 && s.last().key() == k ==> with_key(s, k).len() > 0 && with_key(s, k).last()
            == s.last(),
    decreases s.len(),
{
    if s.len() > 0 {
        lemma_with_key_members(s.drop_last(), k);
        if with_key(s, k).len() == 0 {
            assert forall|i: int| 0 <= i < s.len() implies s[i].key() != k by {
                if i < s.len() - 1 {
                    assert(s[i] == s.drop_last()[i]);
                }
            }
        }
        if forall|i: int| 0 <= i < s.len() ==> s[i].key() != k {
            assert forall|i: int| 0 <= i < s.drop_last().len() implies s.drop_last()[i].key()
                != k by {
            }
        }
    }
}

/// Two sorted runs that hold the same values under every key are the same.
pub proof fn lemma_sorted_unique<T: Keyed>(a: Seq<T>, b: Seq<T>)
    requires
        sorted_by_key(a),
        sorted_by_key(b),
        forall|k: Seq<char>| with_key(a, k) == with_key(b, k),
    ensures
        a == b,
    decreases a.len(),
{
    if a.len() == 0 {
        if b.len() > 0 {
            lemma_with_key_members(b, b.last().key());
            assert(with_key(a, b.last().key()) == with_key(b, b.last().key()));
        }
        assert(a =~= b);
    } else {
        let x = a.last();
        let k = x.key();
        lemma_with_key_members(a, k);
        lemma_with_key_members(b, k);
        assert(with_key(a, k) == with_key(b, k));
        assert(b.len() > 0);
        let y = b.last();
        lemma_with_key_members(a, y.key());
        lemma_with_key_members(b, y.key());
        assert(with_key(a, y.key()) == with_key(b, y.key()));
        // some value of `b` has key `k`, and some value of `a` has the key of `y`
        let i = choose|i: int| 0 <= i < b.len() && b[i].key() == k;
        let j = choose|j: int| 0 <= j < a.len() && a[j].key() == y.key();
        lemma_text_order(k, y.key(), k);
        lemma_text_order(y.key(), k, y.key());
        assert(text_le(b[i].key(), y.key()));
        assert(text_le(a[j].key(), k));
        assert(y.key() == k);
        assert(x == y);
        let a0 = a.drop_last();
        let b0 = b.drop_last();
        assert forall|k2: Seq<char>| with_key(a0, k2) == with_key(b0, k2) by {
            assert(with_key(a, k2) == with_key(b, k2));
            if k2 == k {
                assert(with_key(a0, k2) =~= with_key(a, k2).drop_last());
                assert(with_key(b0, k2) =~= with_key(b, k2).drop_last());
            }
        }
        assert(sorted_by_key(a0)) by {
            assert forall|i: int, j: int| 0 <= i < j < a0.len() implies text_le(
                a0[i].key(),
                a0[j].key(),
            ) by {
                assert(a0[i] == a[i] && a0[j] == a[j]);
            }
        }
        assert(sorted_by_key(b0)) by {
            assert forall|i: int, j: int| 0 <= i < j < b0.len() implies text_le(
                b0[i].key(),
                b0[j].key(),
            ) by {
                assert(b0[i] == b[i] && b0[j] == b[j]);
            }
        }
        lemma_sorted_unique(a0, b0);
        assert(a =~= a0.push(x));
        assert(b =~= b0.push(y));
    }
}

/// The position at which a value of the key `k` is put into the sorted run
/// `s`: behind all values whose key is not greater.
pub open spec fn place_of<T: Keyed>(s: Seq<T>, k: Seq<char>) -> int
    decreases s.len(),
{
    if s.len() == 0 {
        0
    } else if text_lt(k, s.last().key()) {
        place_of(s.drop_last(), k)
    } else {
        s.len() as int
    }
}

/// In a sorted run, the values before the place of `k` have keys that are
/// not greater than `k`, and those from the place on have greater keys.
pub proof fn lemma_place_of<T: Keyed>(s: Seq<T>, k: Seq<char>)
    requires
        sorted_by_key(s),
    ensures
        0 <= place_of(s, k) <= s.len(),
        forall|i: int| 0 <= i < place_of(s, k) ==> text_le(s[i].key(), k),
        forall|i: int| place_of(s, k) <= i < s.len() ==> text_lt(k, s[i].key()),
    decreases s.len(),
{
    if s.len() > 0 {
        let front = s.drop_last();
        assert forall|i: int, j: int| 0 <= i < j < front.len() implies text_le(
            front[i].key(),
            front[j].key(),
        ) by {
        }
        lemma_place_of(front, k);
        if text_lt(k, s.last().key()) {
            assert forall|i: int| 0 <= i < place_of(s, k) implies text_le(s[i].key(), k) by {
                assert(front[i] == s[i]);
            }
            assert forall|i: int| place_of(s, k) <= i < s.len() implies text_lt(k, s[i].key()) by {
                if i < front.len() {
                    assert(front[i] == s[i]);
                }
            }
        } else {
            lemma_text_order(s.last().key(), k, k);
            assert forall|i: int| 0 <= i < s.len() implies text_le(s[i].key(), k) by {
                lemma_text_order(s[i].key(), s.last().key(), k);
            }
        }
    }
}

/// Every run has a stable sort.
pub proof fn lemma_stable_sort_exists<T: Keyed>(s: Seq<T>)
    ensures
        is_stable_sort(stable_sort(s), s),
    decreases s.len(),
{
    if s.len() == 0 {
        assert(is_stable_sort(s, s));
    } else {
        let front = s.drop_last();
        let x = s.last();
        lemma_stable_sort_exists(front);
        let done = stable_sort(front);
        lemma_place_of(done, x.key());
        let p = place_of(done, x.key());
        let now = done.take(p) + seq![x] + done.skip(p);
        assert(done =~= done.take(p) + done.skip(p));
        assert forall|k: Seq<char>| with_key(now, k) == with_key(s, k) by {
            lemma_with_key_add(done.take(p) + seq![x], done.skip(p), k);
            lemma_with_key_add(done.take(p), seq![x], k);
            lemma_with_key_add(done.take(p), done.skip(p), k);
            lemma_with_key_add(front, seq![x], k);
            lemma_with_key_members(done.skip(p), k);
            lemma_with_key_single(x, k);
            if k == x.key() {
                lemma_text_order(k, k, k);
                assert forall|i: int| 0 <= i < done.skip(p).len() implies done.skip(p)[i].key()
                    != k by {
                }
            }
        }
        assert forall|i: int, j: int| 0 <= i < j < now.len() implies text_le(
            now[i].key(),
            now[j].key(),
        ) by {
            if i < p < j {
                lemma_text_order(done[i].key(), x.key(), done[j - 1].key());
            }
        }
        assert(is_stable_sort(now, s));
    }
}

/// What `is_stable_sort` describes is the stable sort.
pub proof fn lemma_stable_sort_is<T: Keyed>(out: Seq<T>, inp: Seq<T>)
    requires
        is_stable_sort(out, inp),
    ensures
        stable_sort(inp) == out,
{
    let chosen = stable_sort(inp);
    assert forall|k: Seq<char>| with_key(chosen, k) == with_key(out, k) by {
    }
    lemma_sorted_unique(chosen, out);
}

/// The values under a key are values of the run, and every value of the run
/// stands among the values under its key.
pub proof fn lemma_with_key_contains<T: Keyed>(s: Seq<T>, k: Seq<char>, x: T)
    ensures
        with_key(s, k).contains(x) <==> (s.contains(x) && x.key() == k),
    decreases s.len(),
{
    let w = with_key(s, k);
    if s.len() == 0 {
        assert(!w.contains(x) && !s.contains(x));
    } else {
        let front = s.drop_last();
        lemma_with_key_contains(front, k, x);
        let w0 = with_key(front, k);
        if w.contains(x) {
            let i = choose|i: int| 0 <= i < w.len() && w[i] == x;
            if i < w0.len() {
                assert(w0[i] == x);
                assert(w0.contains(x));
                let j = choose|j: int| 0 <= j < front.len() && front[j] == x;
                assert(s[j] == x);
            } else {
                assert(s[s.len() - 1] == x);
            }
        }
        if s.contains(x) && x.key() == k {
            let j = choose|j: int| 0 <= j < s.len() && s[j] == x;
            if j < front.len() {
                assert(front[j] == x);
                assert(front.contains(x));
                let i = choose|i: int| 0 <= i < w0.len() && w0[i] == x;
                assert(w[i] == x);
            } else {
                assert(w[w.len() - 1] == x);
            }
        }
    }
}

/// Where no key stands twice, at most one value stands under each key: the
/// first and only one that has it.
pub proof fn lemma_with_key_distinct<T: Keyed>(s: Seq<T>, k: Seq<char>)
    requires
        distinct(keys_of(s)),
    ensures
        with_key(s, k) == if occurs(keys_of(s), k) {
            seq![s[first_index(keys_of(s), k)]]
        } else {
            Seq::<T>::empty()
        },
    decreases s.len(),
{
    lemma_first_index_exists(keys_of(s), k);
    if s.len() > 0 {
        let front = s.drop_last();
        assert forall|i: int, j: int| 0 <= i < j < keys_of(front).len() implies keys_of(front)[i]
            != keys_of(front)[j] by {
            assert(keys_of(front)[i] == keys_of(s)[i]);
            assert(keys_of(front)[j] == keys_of(s)[j]);
        }
        lemma_with_key_distinct(front, k);
        lemma_first_index_exists(keys_of(front), k);
        let n = s.len() - 1;
        assert(forall|j: int| 0 <= j < n ==> keys_of(front)[j] == keys_of(s)[j]);
        if s.last().key() == k {
            lemma_first_index(keys_of(s), k, n);
        } else {
            let i = first_index(keys_of(front), k);
            if i < front.len() {
                lemma_first_index(keys_of(s), k, i);
            } else {
                lemma_first_index(keys_of(s), k, s.len() as int);
            }
        }
    }
}

/// A stable sort of values with distinct keys holds the same values, in
/// strictly ascending order.
pub proof fn lemma_sort_distinct<T: Keyed>(out: Seq<T>, inp: Seq<T>)
    requires
        is_stable_sort(out, inp),
        distinct(keys_of(inp)),
    ensures
        strictly_sorted_by_key(out),
        forall|x: T| out.contains(x) <==> inp.contains(x),
{
    assert forall|x: T| out.contains(x) <==> inp.contains(x) by {
        lemma_with_key_contains(out, x.key(), x);
        lemma_with_key_contains(inp, x.key(), x);
    }
    assert forall|i: int, j: int| 0 <= i < j < out.len() implies text_lt(
        out[i].key(),
        out[j].key(),
    ) by {
        let k = out[i].key();
        lemma_text_order(k, out[j].key(), k);
        if out[j].key() == k {
            lemma_with_key_distinct(inp, k);
            lemma_pair_under_key(out, i, j);
        }
    }
}

/// Two values of the same key make two values under that key.
pub proof fn lemma_pair_under_key<T: Keyed>(s: Seq<T>, i: int, j: int)
    requires
        0 <= i < j < s.len(),
        s[i].key() == s[j].key(),
    ensures
        with_key(s, s[i].key()).len() >= 2,
    decreases s.len(),
{
    let k = s[i].key();
    let front = s.drop_last();
    if j == s.len() - 1 {
        lemma_with_key_members(front, k);
    } else {
        assert(front[i] == s[i] && front[j] == s[j]);
        lemma_pair_under_key(front, i, j);
    }
}

/// Sorts `items` by key; values of equal key keep their order.
pub fn sort_by_key<T: SortKey>(items: Vec<T>) -> (r: Vec<T>) where T::V: Keyed
    ensures
        views(r@) == stable_sort(views(items@)),
        is_stable_sort(views(r@), views(items@)),
{
    let ghost all = views(items@);
    let mut rest = items;
    let mut out: Vec<T> = Vec::new();
    while rest.len() > 0
        invariant
            views(rest@) == all.take(rest.len() as int),
            rest.len() <= all.len(),
            is_stable_sort(views(out@), all.skip(rest.len() as int)),
        decreases rest.len(),
    {
        let ghost done = views(out@);
        let ghost n = rest.len() as int;
        let item = rest.pop().unwrap();
        assert(item@ == all[n - 1]) by {
            assert(all.take(n)[n - 1] == all[n - 1]);
        }
        let mut pos: usize = 0;
        while pos < out.len() && str_lt(out[pos].sort_key().as_str(), item.sort_key().as_str())
            invariant
                pos <= out.len(),
                done == views(out@),
                forall|i: int| 0 <= i < pos ==> text_lt(done[i].key(), item@.key()),
            decreases out.len() - pos,
        {
            pos += 1;
        }
        out.insert(pos, item);
        proof {
            let x = all[n - 1];
            let now = views(out@);
            assert(now =~= done.take(pos as int) + seq![x] + done.skip(pos as int));
            assert(done =~= done.take(pos as int) + done.skip(pos as int));
            assert(all.skip(n - 1) =~= seq![x] + all.skip(n));
            assert forall|k: Seq<char>| with_key(now, k) == with_key(all.skip(n - 1), k) by {
                lemma_with_key_add(done.take(pos as int) + seq![x], done.skip(pos as int), k);
                lemma_with_key_add(done.take(pos as int), seq![x], k);
                lemma_with_key_add(done.take(pos as int), done.skip(pos as int), k);
                lemma_with_key_add(seq![x], all.skip(n), k);
                lemma_with_key_members(done.take(pos as int), k);
                lemma_with_key_single(x, k);
                if k == x.key() {
                    lemma_text_order(k, k, k);
                }
            }
            assert forall|i: int, j: int| 0 <= i < j < now.len() implies text_le(
                now[i].key(),
                now[j].key(),
            ) by {
                let p = pos as int;
                if pos < done.len() {
                    lemma_text_order(x.key(), done[p].key(), x.key());
                }
                if i == p < j {
                    lemma_text_order(x.key(), done[p].key(), done[j - 1].key());
                }
            }
        }
    }
    proof {
        assert(all.skip(0) =~= all);
        lemma_stable_sort_is(views(out@), all);
    }
    out
}

} // verus!

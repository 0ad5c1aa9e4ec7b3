//! Text primitives: the order on strings by which styles and declarations are
//! sorted, and conversions between strings and character vectors.

use vstd::prelude::*;
use vstd::utf8::{encode_utf8, encode_utf8_decode_utf8};

verus! {

/// `a` and `b` agree on their first `i` bytes, and from there `a` is smaller:
/// either `a` ends at `i` while `b` goes on, or `a` holds the smaller byte.
pub open spec fn bytes_lt_at(a: Seq<u8>, b: Seq<u8>, i: int) -> bool {
    &&& 0 <= i <= a.len()
    &&& i < b.len()
    &&& forall|j: int| 0 <= j < i ==> a[j] == b[j]
    &&& (i == a.len() || a[i] < b[i])
}

/// Lexicographic order on byte strings.
pub open spec fn bytes_lt(a: Seq<u8>, b: Seq<u8>) -> bool {
    exists|i: int| bytes_lt_at(a, b, i)
}

/// The order on texts: lexicographic by the bytes of the UTF-8 encoding,
/// which is the order of `String`.
pub open spec fn text_lt(a: Seq<char>, b: Seq<char>) -> bool {
    bytes_lt(encode_utf8(a), encode_utf8(b))
}

/// `a` sorts before `b` or equals it.
pub open spec fn text_le(a: Seq<char>, b: Seq<char>) -> bool {
    a == b || text_lt(a, b)
}

/// No byte string sorts before itself.
pub proof fn lemma_bytes_lt_irreflexive(a: Seq<u8>)
    ensures
        !bytes_lt(a, a),
{
}

/// What sorts before a byte string sorts before all that it sorts before.
pub proof fn lemma_bytes_lt_transitive(a: Seq<u8>, b: Seq<u8>, c: Seq<u8>)
    requires
        bytes_lt(a, b),
        bytes_lt(b, c),
    ensures
        bytes_lt(a, c),
{
    let i = choose|i: int| bytes_lt_at(a, b, i);
    let j = choose|j: int| bytes_lt_at(b, c, j);
    if i <= j {
        assert(bytes_lt_at(a, c, i));
    } else {
        assert(bytes_lt_at(a, c, j));
    }
}

/// The first position at which `a` and `b` differ, or the shorter length.
pub open spec fn first_difference(a: Seq<u8>, b: Seq<u8>) -> int
    decreases a.len(),
{
    if a.len() == 0 || b.len() == 0 || a[0] != b[0] {
        0
    } else {
        1 + first_difference(a.drop_first(), b.drop_first())
    }
}

/// Two byte strings agree before their first difference, and differ at it
/// where both reach that far.
pub proof fn lemma_first_difference(a: Seq<u8>, b: Seq<u8>)
    ensures
        0 <= first_difference(a, b) <= a.len(),
        first_difference(a, b) <= b.len(),
        forall|j: int| 0 <= j < first_difference(a, b) ==> a[j] == b[j],
        first_difference(a, b) < a.len() && first_difference(a, b) < b.len() ==> a[first_difference(
            a,
            b,
        )] != b[first_difference(a, b)],
    decreases a.len(),
{
    if a.len() > 0 && b.len() > 0 && a[0] == b[0] {
        let x = a.drop_first();
        let y = b.drop_first();
        lemma_first_difference(x, y);
        let d = first_difference(x, y);
        assert forall|j: int| 0 <= j < d + 1 implies a[j] == b[j] by {
            if j > 0 {
                assert(b[j] == y[j - 1]);
            }
        }
    }
}

/// Of two byte strings one sorts before the other, or they are the same;
/// and never both sort before each other.
pub proof fn lemma_bytes_trichotomy(a: Seq<u8>, b: Seq<u8>)
    ensures
        bytes_lt(a, b) || a == b || bytes_lt(b, a),
        !(bytes_lt(a, b) && bytes_lt(b, a)),
{
    lemma_first_difference(a, b);
    let d = first_difference(a, b);
    if d == a.len() && d == b.len() {
        assert(a =~= b);
    } else if d == a.len() {
        assert(bytes_lt_at(a, b, d));
    } else if d == b.len() {
        assert(bytes_lt_at(b, a, d));
    } else if a[d] < b[d] {
        assert(bytes_lt_at(a, b, d));
    } else {
        assert(bytes_lt_at(b, a, d));
    }
    if bytes_lt(a, b) && bytes_lt(b, a) {
        lemma_bytes_lt_transitive(a, b, a);
    }
}

/// Texts with the same encoding are the same text.
pub proof fn lemma_encoding_injective(a: Seq<char>, b: Seq<char>)
    requires
        encode_utf8(a) == encode_utf8(b),
    ensures
        a == b,
{
    encode_utf8_decode_utf8(a);
    encode_utf8_decode_utf8(b);
}

/// `text_lt` is a strict total order.
pub proof fn lemma_text_order(a: Seq<char>, b: Seq<char>, c: Seq<char>)
    ensures
        !text_lt(a, a),
        text_lt(a, b) && text_lt(b, c) ==> text_lt(a, c),
        text_lt(a, b) || a == b || text_lt(b, a),
        !(text_lt(a, b) && text_lt(b, a)),
        text_le(a, b) <==> !text_lt(b, a),
        text_le(a, b) && text_le(b, c) ==> text_le(a, c),
        text_le(a, b) && text_lt(b, c) ==> text_lt(a, c),
        text_lt(a, b) && text_le(b, c) ==> text_lt(a, c),
{
    lemma_bytes_lt_irreflexive(encode_utf8(a));
    lemma_bytes_lt_irreflexive(encode_utf8(b));
    if text_lt(a, b) && text_lt(b, c) {
        lemma_bytes_lt_transitive(encode_utf8(a), encode_utf8(b), encode_utf8(c));
    }
    lemma_bytes_trichotomy(encode_utf8(a), encode_utf8(b));
    if encode_utf8(a) == encode_utf8(b) {
        lemma_encoding_injective(a, b);
    }
}

/// Whether `a` sorts strictly before `b`.
pub fn str_lt(a: &str, b: &str) -> (r: bool)
    ensures
        r == text_lt(a@, b@),
{
    let x = a.as_bytes();
    let y = b.as_bytes();
    let mut i: usize = 0;
    while i < x.len() && i < y.len() && x[i] == y[i]
        invariant
            i <= x.len(),
            i <= y.len(),
            forall|j: int| 0 <= j < i ==> x@[j] == y@[j],
        decreases x.len() - i,
    {
        i += 1;
    }
    proof {
        lemma_first_is(x@, y@, i as int);
    }
    if i == x.len() {
        i < y.len()
    } else if i == y.len() {
        false
    } else {
        x[i] < y[i]
    }
}

/// Where two byte strings agree up to `i` and then differ or end, the order
/// between them is decided at `i`.
proof fn lemma_first_is(a: Seq<u8>, b: Seq<u8>, i: int)
    requires
        0 <= i <= a.len(),
        i <= b.len(),
        forall|j: int| 0 <= j < i ==> a[j] == b[j],
        i == a.len() || i == b.len() || a[i] != b[i],
    ensures
        bytes_lt(a, b) <==> (i < b.len() && (i == a.len() || a[i] < b[i])),
{
    if i < b.len() && (i == a.len() || a[i] < b[i]) {
        assert(bytes_lt_at(a, b, i));
    }
}

/// Whether two strings hold the same text.
pub fn str_eq(a: &str, b: &str) -> (r: bool)
    ensures
        r == (a@ == b@),
{
    let x = a.as_bytes();
    let y = b.as_bytes();
    if x.len() != y.len() {
        return false;
    }
    let mut i: usize = 0;
    while i < x.len()
        invariant
            i <= x.len(),
            x.len() == y.len(),
            x@ == encode_utf8(a@),
            y@ == encode_utf8(b@),
            forall|j: int| 0 <= j < i ==> x@[j] == y@[j],
        decreases x.len() - i,
    {
        if x[i] != y[i] {
            return false;
        }
        i += 1;
    }
    proof {
        assert(x@ =~= y@);
        lemma_encoding_injective(a@, b@);
    }
    true
}

/// The texts of a run of strings.
pub open spec fn texts(strings: Seq<String>) -> Seq<Seq<char>> {
    strings.map_values(|s: String| s@)
}

/// The texts of a run with one more string are the texts of the run with
/// one more text.
pub proof fn lemma_texts_push(strings: Seq<String>, s: String)
    ensures
        texts(strings.push(s)) == texts(strings).push(s@),
{
}

/// A copy of a run of strings.
pub fn clone_strings(strings: &Vec<String>) -> (r: Vec<String>)
    ensures
        texts(r@) == texts(strings@),
{
    let mut out: Vec<String> = Vec::new();
    let mut i: usize = 0;
    while i < strings.len()
        invariant
            i <= strings.len(),
            out.len() == i,
            forall|j: int| 0 <= j < i ==> out@[j]@ == strings@[j]@,
        decreases strings.len() - i,
    {
        out.push(strings[i].clone());
        i += 1;
    }
    out
}

/// Whether `name` stands somewhere in `names`.
pub open spec fn occurs(names: Seq<Seq<char>>, name: Seq<char>) -> bool {
    exists|j: int| 0 <= j < names.len() && names[j] == name
}

/// `i` is the first position of `name` in `names`, or the length of `names`
/// where `name` does not occur.
pub open spec fn is_first_index(names: Seq<Seq<char>>, name: Seq<char>, i: int) -> bool {
    &&& 0 <= i <= names.len()
    &&& i < names.len() ==> names[i] == name
    &&& forall|j: int| 0 <= j < i ==> names[j] != name
}

/// The first position of `name` in `names`; the length of `names` where
/// `name` does not occur.
pub open spec fn first_index(names: Seq<Seq<char>>, name: Seq<char>) -> int {
    choose|i: int| is_first_index(names, name, i)
}

/// A position that qualifies as the first index is the first index.
pub proof fn lemma_first_index(names: Seq<Seq<char>>, name: Seq<char>, i: int)
    requires
        is_first_index(names, name, i),
    ensures
        first_index(names, name) == i,
        occurs(names, name) <==> i < names.len(),
{
}

/// Every list has a first index for every name.
pub proof fn lemma_first_index_exists(names: Seq<Seq<char>>, name: Seq<char>)
    ensures
        is_first_index(names, name, first_index(names, name)),
        occurs(names, name) <==> first_index(names, name) < names.len(),
    decreases names.len(),
{
    if names.len() == 0 {
        lemma_first_index(names, name, 0);
    } else {
        let front = names.drop_last();
        lemma_first_index_exists(front, name);
        let k = first_index(front, name);
        assert(forall|j: int| 0 <= j < front.len() ==> front[j] == names[j]);
        if k < front.len() {
            lemma_first_index(names, name, k);
        } else if names.last() == name {
            lemma_first_index(names, name, names.len() - 1);
        } else {
            lemma_first_index(names, name, names.len() as int);
        }
    }
}

/// No text stands twice in `names`.
pub open spec fn distinct(names: Seq<Seq<char>>) -> bool {
    forall|i: int, j: int| 0 <= i < j < names.len() ==> names[i] != names[j]
}


/// `a` and `b` agree on their first `i` texts, and from there `a` is
/// smaller: either `a` ends at `i` while `b` goes on, or `a` holds the text
/// that sorts first.
pub open spec fn texts_lt_at(a: Seq<Seq<char>>, b: Seq<Seq<char>>, i: int) -> bool {
    &&& 0 <= i <= a.len()
    &&& i < b.len()
    &&& forall|j: int| 0 <= j < i ==> a[j] == b[j]
    &&& (i == a.len() || text_lt(a[i], b[i]))
}

/// Lexicographic order on runs of texts.
pub open spec fn texts_lt(a: Seq<Seq<char>>, b: Seq<Seq<char>>) -> bool {
    exists|i: int| texts_lt_at(a, b, i)
}

/// The first position at which `a` and `b` hold different texts, or the
/// shorter length.
pub open spec fn first_text_difference(a: Seq<Seq<char>>, b: Seq<Seq<char>>) -> int
    decreases a.len(),
{
    if a.len() == 0 || b.len() == 0 || a[0] != b[0] {
        0
    } else {
        1 + first_text_difference(a.drop_first(), b.drop_first())
    }
}

/// Two runs of texts agree before their first difference, and differ at it
/// where both reach that far.
pub proof fn lemma_first_text_difference(a: Seq<Seq<char>>, b: Seq<Seq<char>>)
    ensures
        0 <= first_text_difference(a, b) <= a.len(),
        first_text_difference(a, b) <= b.len(),
        forall|j: int| 0 <= j < first_text_difference(a, b) ==> a[j] == b[j],
        first_text_difference(a, b) < a.len() && first_text_difference(a, b) < b.len()
            ==> a[first_text_difference(a, b)] != b[first_text_difference(a, b)],
    decreases a.len(),
{
    if a.len() > 0 && b.len() > 0 && a[0] == b[0] {
        let x = a.drop_first();
        let y = b.drop_first();
        lemma_first_text_difference(x, y);
        let d = first_text_difference(x, y);
        assert forall|j: int| 0 <= j < d + 1 implies a[j] == b[j] by {
            if j > 0 {
                assert(a[j] == x[j - 1]);
                assert(b[j] == y[j - 1]);
            }
        }
        if d < x.len() && d < y.len() {
            assert(a[d + 1] == x[d]);
            assert(b[d + 1] == y[d]);
        }
    }
}

/// `texts_lt` is a strict total order.
pub proof fn lemma_texts_order(a: Seq<Seq<char>>, b: Seq<Seq<char>>, c: Seq<Seq<char>>)
    ensures
        !texts_lt(a, a),
        texts_lt(a, b) && texts_lt(b, c) ==> texts_lt(a, c),
        texts_lt(a, b) || a == b || texts_lt(b, a),
{
    if texts_lt(a, a) {
        let i = choose|i: int| texts_lt_at(a, a, i);
        lemma_text_order(a[i], a[i], a[i]);
    }
    if texts_lt(a, b) && texts_lt(b, c) {
        let i = choose|i: int| texts_lt_at(a, b, i);
        let j = choose|j: int| texts_lt_at(b, c, j);
        if i < j {
            assert(texts_lt_at(a, c, i));
        } else if i == j {
            if i < a.len() {
                lemma_text_order(a[i], b[i], c[i]);
            }
            assert(texts_lt_at(a, c, i));
        } else {
            assert(texts_lt_at(a, c, j));
        }
    }
    lemma_first_text_difference(a, b);
    let d = first_text_difference(a, b);
    if d == a.len() && d == b.len() {
        assert(a =~= b);
    } else if d == a.len() {
        assert(texts_lt_at(a, b, d));
    } else if d == b.len() {
        assert(texts_lt_at(b, a, d));
    } else {
        lemma_text_order(a[d], b[d], a[d]);
        if text_lt(a[d], b[d]) {
            assert(texts_lt_at(a, b, d));
        } else {
            assert(texts_lt_at(b, a, d));
        }
    }
}

/// Where two runs of texts agree up to `i` and then differ or end, the
/// order between them is decided at `i`.
proof fn lemma_first_texts_is(a: Seq<Seq<char>>, b: Seq<Seq<char>>, i: int)
    requires
        0 <= i <= a.len(),
        i <= b.len(),
        forall|j: int| 0 <= j < i ==> a[j] == b[j],
        i == a.len() || i == b.len() || a[i] != b[i],
    ensures
        texts_lt(a, b) <==> (i < b.len() && (i == a.len() || text_lt(a[i], b[i]))),
{
    if i < b.len() && (i == a.len() || text_lt(a[i], b[i])) {
        assert(texts_lt_at(a, b, i));
    }
    if texts_lt(a, b) {
        let k = choose|k: int| texts_lt_at(a, b, k);
        if k < i {
            lemma_text_order(a[k], a[k], a[k]);
        }
    }
}

/// Whether the run `a` sorts strictly before the run `b`.
pub fn strings_lt(a: &Vec<String>, b: &Vec<String>) -> (r: bool)
    ensures
        r == texts_lt(texts(a@), texts(b@)),
{
    let ghost x = texts(a@);
    let ghost y = texts(b@);
    let mut i: usize = 0;
    while i < a.len() && i < b.len() && a[i] == b[i]
        invariant
            i <= a.len(),
            i <= b.len(),
            x == texts(a@),
            y == texts(b@),
            forall|j: int| 0 <= j < i ==> x[j] == y[j],
        decreases a.len() - i,
    {
        assert(x[i as int] == a@[i as int]@ && y[i as int] == b@[i as int]@);
        i += 1;
    }
    proof {
        if i < a.len() && i < b.len() {
            assert(x[i as int] == a@[i as int]@ && y[i as int] == b@[i as int]@);
        }
        lemma_first_texts_is(x, y, i as int);
    }
    if i == a.len() {
        i < b.len()
    } else if i == b.len() {
        false
    } else {
        str_lt(a[i].as_str(), b[i].as_str())
    }
}

} // verus!

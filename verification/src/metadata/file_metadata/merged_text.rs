//! The text of the merged view is the text of the merge: what is saved for
//! a document with several stylesheets reads as the merge of their styles.

use vstd::multiset::group_multiset_axioms;
use vstd::prelude::*;
use vstd::seq_lib::{group_to_multiset_ensures, to_multiset_remove};
use super::{
    block_text, declarations_text, formatted_from, formatted_styles, formatted_text,
    lemma_formatted_exists, owned, owned_all, owned_in_record, owned_in_styles, unstacked,
    unstacked_owned, CssAttributeExtendedView, OwnedAttributeView,
};
use crate::metadata::css_metadata::css_attribute::CssAttributeView;
use crate::metadata::css_metadata::css_style::CssStyleView;
use crate::metadata::css_metadata::merge_order::lemma_merge_exists;
use crate::metadata::css_metadata::{
    attributes_text, css_text, declaration_text, declared, declared_in_record,
    declared_in_styles, merged, style_text, values_text, CssMetaDataView,
};
use crate::ranked::{lemma_ranking_exists, lemma_ranking_is, ranking, Ranked};

verus! {

/// A run of owned declarations without their owners.
pub open spec fn plain(attributes: Seq<OwnedAttributeView>) -> Seq<CssAttributeView> {
    Seq::new(attributes.len(), |i: int| attributes[i].attribute)
}

/// Runs that hold the same owned declarations equally often hold the same
/// declarations equally often.
proof fn lemma_plain_same(s: Seq<OwnedAttributeView>, t: Seq<OwnedAttributeView>)
    requires
        s.to_multiset() == t.to_multiset(),
    ensures
        plain(s).to_multiset() == plain(t).to_multiset(),
    decreases s.len(),
{
    broadcast use {group_multiset_axioms, group_to_multiset_ensures};

    if s.len() == 0 {
        assert(t.to_multiset().len() == 0);
        assert(plain(s) =~= plain(t));
    } else {
        let n = s.len() - 1;
        let a = s[n];
        assert(s.contains(a));
        assert(t.to_multiset().count(a) > 0);
        assert(t.contains(a));
        let i = choose|i: int| 0 <= i < t.len() && t[i] == a;
        lemma_plain_same(s.remove(n), t.remove(i));
        assert(plain(s.remove(n)) =~= plain(s).remove(n));
        assert(plain(t.remove(i)) =~= plain(t).remove(i));
        let x = a.attribute;
        let left = plain(s).to_multiset();
        let right = plain(t).to_multiset();
        assert(plain(s).contains(plain(s)[n]));
        assert(plain(t).contains(plain(t)[i]));
        to_multiset_remove(plain(s), n);
        to_multiset_remove(plain(t), i);
        assert forall|y: CssAttributeView| left.count(y) == right.count(y) by {
            assert(left.remove(x).count(y) == right.remove(x).count(y));
        }
        assert(left =~= right);
    }
}

/// The owned declarations of styles are, without their owners, the
/// declarations of the styles.
proof fn lemma_plain_in_styles(styles: Seq<CssStyleView>, tag: Seq<char>, owner: u32)
    ensures
        plain(owned_in_styles(styles, tag, owner)) == declared_in_styles(styles, tag),
    decreases styles.len(),
{
    if styles.len() > 0 {
        lemma_plain_in_styles(styles.drop_last(), tag, owner);
        let front = owned_in_styles(styles.drop_last(), tag, owner);
        let more = owned_all(styles.last().attributes, owner);
        assert(plain(more) =~= styles.last().attributes);
        assert(plain(front + more) =~= plain(front) + plain(more));
    }
    assert(plain(owned_in_styles(styles, tag, owner)) =~= declared_in_styles(styles, tag));
}

/// The owned declarations of records are, without their owners, the
/// declarations of the records.
proof fn lemma_plain_owned(records: Seq<CssMetaDataView>, tag: Seq<char>)
    ensures
        plain(owned(records, tag)) == declared(records, tag),
    decreases records.len(),
{
    if records.len() > 0 {
        lemma_plain_owned(records.drop_last(), tag);
        let front = owned(records.drop_last(), tag);
        let more = owned_in_record(records.last(), tag);
        if let Some(styles) = records.last().styles {
            lemma_plain_in_styles(styles, tag, records.last().id);
        }
        assert(plain(more) =~= declared_in_record(records.last(), tag));
        assert(plain(front + more) =~= plain(front) + plain(more));
    }
    assert(plain(owned(records, tag)) =~= declared(records, tag));
}

/// The owned declarations in their order are, without their owners, the
/// declarations in theirs.
pub proof fn lemma_plain_ranking(records: Seq<CssMetaDataView>, tag: Seq<char>)
    ensures
        plain(ranking(owned(records, tag))) == ranking(declared(records, tag)),
{
    let sorted = ranking(owned(records, tag));
    lemma_ranking_exists(owned(records, tag));
    lemma_plain_same(sorted, owned(records, tag));
    lemma_plain_owned(records, tag);
    assert forall|i: int, j: int| 0 <= i < j < sorted.len() implies plain(sorted)[i] == plain(
        sorted,
    )[j] || plain(sorted)[i].before(plain(sorted)[j]) by {
        assert(sorted[i] == sorted[j] || sorted[i].before(sorted[j]));
    }
    lemma_ranking_is(plain(sorted), declared(records, tag));
}

/// The lines of the values of one attribute, taken apart, are the lines of
/// the attribute.
proof fn lemma_unstacked_text(
    before: Seq<CssAttributeExtendedView>,
    attribute: CssAttributeView,
    owner: u32,
    closes: bool,
)
    requires
        attribute.values.len() > 0 || !closes,
    ensures
        declarations_text(before + unstacked(attribute, owner), closes) == declarations_text(
            before,
            false,
        ) + values_text(attribute.name, attribute.values, closes),
    decreases attribute.values.len(),
{
    let all = before + unstacked(attribute, owner);
    if attribute.values.len() == 0 {
        assert(all =~= before);
        assert(declarations_text(before, false) + Seq::empty() =~= declarations_text(
            before,
            false,
        ));
    } else {
        let fewer = CssAttributeView {
            name: attribute.name,
            values: attribute.values.drop_last(),
            source: attribute.source,
            is_overwritten: attribute.is_overwritten,
        };
        lemma_unstacked_text(before, fewer, owner, false);
        assert(all.drop_last() =~= before + unstacked(fewer, owner));
        let start = declarations_text(before, false);
        let middle = values_text(attribute.name, attribute.values.drop_last(), false);
        let end = declaration_text(
            attribute.name,
            attribute.values.last(),
            closes,
        );
        assert((start + middle) + end =~= start + (middle + end));
    }
}

/// The lines of a run of owned declarations, taken apart value by value,
/// are the lines of the declarations.
proof fn lemma_owned_text(attributes: Seq<OwnedAttributeView>, closes: bool)
    requires
        closes ==> ends_with_value(plain(attributes)),
    ensures
        declarations_text(unstacked_owned(attributes), closes) == attributes_text(
            plain(attributes),
            closes,
        ),
    decreases attributes.len(),
{
    if attributes.len() > 0 {
        let front = attributes.drop_last();
        let last = attributes.last();
        lemma_owned_text(front, false);
        lemma_unstacked_text(unstacked_owned(front), last.attribute, last.owner, closes);
        assert(plain(attributes).drop_last() =~= plain(front));
    }
}

/// Whether a run of attributes is empty or ends with one that has a value:
/// the last line of its block is then the one that closes it.
pub open spec fn ends_with_value(attributes: Seq<CssAttributeView>) -> bool {
    attributes.len() == 0 || attributes.last().values.len() > 0
}

/// No style of the merge of `records` ends with an attribute without
/// values.
pub open spec fn blocks_close(records: Seq<CssMetaDataView>) -> bool {
    forall|i: int|
        0 <= i < merged(records).len() ==> ends_with_value(
            (#[trigger] merged(records)[i]).attributes,
        )
}

/// The first `k` blocks of the merged view read as the first `k` styles of
/// the merge.
proof fn lemma_text_of_prefix(records: Seq<CssMetaDataView>, k: int)
    requires
        blocks_close(records),
        0 <= k <= merged(records).len(),
    ensures
        formatted_text(formatted_from(records).take(k)) == css_text(merged(records).take(k)),
    decreases k,
{
    if k > 0 {
        let blocks = formatted_from(records);
        let styles = merged(records);
        let tag = styles[k - 1].tag;
        lemma_text_of_prefix(records, k - 1);
        lemma_merge_exists(records);
        lemma_plain_ranking(records, tag);
        lemma_owned_text(ranking(owned(records, tag)), true);
        assert(blocks.take(k).drop_last() =~= blocks.take(k - 1));
        assert(styles.take(k).drop_last() =~= styles.take(k - 1));
        assert(block_text(blocks[k - 1]) == style_text(styles[k - 1]));
    }
}

/// The text of the merged view of stylesheets is the text of their merge,
/// where no style of the merge ends with an attribute without values.
pub proof fn lemma_formatted_text_is_merged_text(records: Seq<CssMetaDataView>)
    requires
        blocks_close(records),
    ensures
        formatted_text(formatted_styles(records)) == css_text(merged(records)),
{
    lemma_formatted_exists(records);
    lemma_text_of_prefix(records, merged(records).len() as int);
    assert(formatted_from(records).take(merged(records).len() as int) =~= formatted_from(records));
    assert(merged(records).take(merged(records).len() as int) =~= merged(records));
}

} // verus!

//! The merged view of the stylesheets of one HTML document, in which every
//! line knows the file it comes from.

pub mod merged_text;

use vstd::prelude::*;
use super::css_metadata::css_attribute::{CssAttribute, CssAttributeView};
use super::css_metadata::css_style::CssStyleView;
use super::css_metadata::merge_order::{
    gathered, is_reordering, lemma_gathered_in_any_order, lemma_merge_exists,
    lemma_merge_order_independent,
};
use super::css_metadata::{
    declaration_text, find_style, merge_css_metadata, merged, styled, CssMetaData,
    CssMetaDataView,
};
use crate::keyed::{keys_of, views, Keyed, SortKey};
use crate::ranked::{lemma_ranking_same, rank_sort, ranking, Ranked, RankedExec};
use crate::sorting::{
    lemma_sorted_unique, lemma_with_key_distinct, sorted_by_key, strictly_sorted_by_key, with_key,
};
use crate::text::{distinct, lemma_first_index_exists, lemma_text_order, occurs, text_lt};

verus! {

/// A file that contributes to a merged view.
#[derive(Debug, PartialEq, Eq)]
pub struct FileMetaData {
    pub id: u32,
    pub file_name: String,
    pub absolute_path: String,
}

/// What a `FileMetaData` holds, as mathematical values.
pub struct FileMetaDataView {
    pub id: u32,
    pub file_name: Seq<char>,
    pub absolute_path: Seq<char>,
}

impl View for FileMetaData {
    type V = FileMetaDataView;

    open spec fn view(&self) -> FileMetaDataView {
        FileMetaDataView {
            id: self.id,
            file_name: self.file_name@,
            absolute_path: self.absolute_path@,
        }
    }
}

impl Clone for FileMetaData {
    fn clone(&self) -> (r: Self)
        ensures
            r@ == self@,
    {
        FileMetaData {
            id: self.id,
            file_name: self.file_name.clone(),
            absolute_path: self.absolute_path.clone(),
        }
    }
}

/// The owner of one line of the merged text.
#[derive(Debug, PartialEq, Eq, Clone, Copy)]
pub struct LineInformation {
    pub line_number: u32,
    /// The file that the line comes from; `None` for the line of a style
    /// that several files contribute to.
    pub owner: Option<u32>,
}

impl LineInformation {
    /// The line `line_number`, owned by `owner`.
    pub fn new_line(line_number: u32, owner: Option<u32>) -> (r: LineInformation)
        ensures
            r == (LineInformation { line_number, owner }),
    {
        LineInformation { line_number, owner }
    }
}

/// One declared value, with the file that declares it.
#[derive(Debug, PartialEq, Eq)]
pub struct CssAttributeExtended {
    pub owner: u32,
    pub name: String,
    pub value: String,
    pub source: Option<u32>,
    pub is_overwritten: Option<bool>,
}

/// What a `CssAttributeExtended` holds, as mathematical values.
pub struct CssAttributeExtendedView {
    pub owner: u32,
    pub name: Seq<char>,
    pub value: Seq<char>,
    pub source: Option<u32>,
    pub is_overwritten: Option<bool>,
}

impl View for CssAttributeExtended {
    type V = CssAttributeExtendedView;

    open spec fn view(&self) -> CssAttributeExtendedView {
        CssAttributeExtendedView {
            owner: self.owner,
            name: self.name@,
            value: self.value@,
            source: self.source,
            is_overwritten: self.is_overwritten,
        }
    }
}

impl Clone for CssAttributeExtended {
    fn clone(&self) -> (r: Self)
        ensures
            r@ == self@,
    {
        CssAttributeExtended {
            owner: self.owner,
            name: self.name.clone(),
            value: self.value.clone(),
            source: self.source,
            is_overwritten: self.is_overwritten,
        }
    }
}

/// The values of `attribute`, each as a declaration of its own that the
/// file `owner` makes.
pub open spec fn unstacked(attribute: CssAttributeView, owner: u32) -> Seq<
    CssAttributeExtendedView,
> {
    Seq::new(
        attribute.values.len(),
        |i: int|
            CssAttributeExtendedView {
                owner,
                name: attribute.name,
                value: attribute.values[i],
                source: attribute.source,
                is_overwritten: attribute.is_overwritten,
            },
    )
}

impl CssAttributeExtended {
    /// Takes an attribute apart into one declaration for each of its values,
    /// all owned by the file `owner_id`.
    pub fn from_attribute(attribute: CssAttribute, owner_id: u32) -> (r: Vec<CssAttributeExtended>)
        ensures
            views(r@) == unstacked(attribute@, owner_id),
    {
        let mut out: Vec<CssAttributeExtended> = Vec::new();
        let mut i: usize = 0;
        while i < attribute.values.len()
            invariant
                i <= attribute.values.len(),
                out.len() == i,
                forall|j: int| 0 <= j < i ==> (#[trigger] out@[j])@ == unstacked(attribute@, owner_id)[j],
            decreases attribute.values.len() - i,
        {
            out.push(
                CssAttributeExtended {
                    owner: owner_id,
                    name: attribute.name.clone(),
                    value: attribute.values[i].clone(),
                    source: attribute.source,
                    is_overwritten: attribute.is_overwritten,
                },
            );
            i += 1;
        }
        out
    }
}

/// A style of the merged view.
#[derive(Debug, PartialEq, Eq)]
pub struct CssStyleExtended {
    /// The file that makes all declarations of the style; `None` where
    /// several files contribute.
    pub owner: Option<u32>,
    pub tag: String,
    pub attributes: Vec<CssAttributeExtended>,
}

/// What a `CssStyleExtended` holds, as mathematical values.
pub struct CssStyleExtendedView {
    pub owner: Option<u32>,
    pub tag: Seq<char>,
    pub attributes: Seq<CssAttributeExtendedView>,
}

impl View for CssStyleExtended {
    type V = CssStyleExtendedView;

    open spec fn view(&self) -> CssStyleExtendedView {
        CssStyleExtendedView {
            owner: self.owner,
            tag: self.tag@,
            attributes: views(self.attributes@),
        }
    }
}

impl Keyed for CssStyleExtendedView {
    /// A style is found and ordered by its selector.
    open spec fn key(self) -> Seq<char> {
        self.tag
    }
}

impl SortKey for CssStyleExtended {
    fn sort_key(&self) -> (r: &String) {
        &self.tag
    }
}

/// A copy of a run of declarations.
pub fn clone_declarations(attributes: &Vec<CssAttributeExtended>) -> (r: Vec<CssAttributeExtended>)
    ensures
        views(r@) == views(attributes@),
{
    let mut out: Vec<CssAttributeExtended> = Vec::new();
    let mut i: usize = 0;
    while i < attributes.len()
        invariant
            i <= attributes.len(),
            out.len() == i,
            forall|j: int| 0 <= j < i ==> out@[j]@ == attributes@[j]@,
        decreases attributes.len() - i,
    {
        out.push(attributes[i].clone());
        i += 1;
    }
    out
}

impl Clone for CssStyleExtended {
    fn clone(&self) -> (r: Self)
        ensures
            r@ == self@,
    {
        CssStyleExtended {
            owner: self.owner,
            tag: self.tag.clone(),
            attributes: clone_declarations(&self.attributes),
        }
    }
}

/// The merged view of several stylesheets.
#[derive(Debug, PartialEq, Eq)]
pub struct FormattedCssFile {
    pub absolute_path: String,
    /// The files that were merged.
    pub included_files: Vec<FileMetaData>,
    pub styles: Vec<CssStyleExtended>,
    /// The owner of each line of the text that `to_css_string` gives.
    pub lines: Vec<LineInformation>,
}

/// What a `FormattedCssFile` holds, as mathematical values.
pub struct FormattedCssFileView {
    pub absolute_path: Seq<char>,
    pub included_files: Seq<FileMetaDataView>,
    pub styles: Seq<CssStyleExtendedView>,
    pub lines: Seq<LineInformation>,
}

impl View for FormattedCssFile {
    type V = FormattedCssFileView;

    open spec fn view(&self) -> FormattedCssFileView {
        FormattedCssFileView {
            absolute_path: self.absolute_path@,
            included_files: views(self.included_files@),
            styles: views(self.styles@),
            lines: self.lines@,
        }
    }
}

/// The lines of a run of declarations. Where `closes` is set, the last of
/// them closes the block.
pub open spec fn declarations_text(attributes: Seq<CssAttributeExtendedView>, closes: bool) -> Seq<
    char,
>
    decreases attributes.len(),
{
    if attributes.len() == 0 {
        Seq::empty()
    } else {
        declarations_text(attributes.drop_last(), false) + declaration_text(
            attributes.last().name,
            attributes.last().value,
            closes,
        )
    }
}

/// The block of one style: the selector and an opening brace, one indented
/// line for each declaration, and the closing brace.
pub open spec fn block_text(style: CssStyleExtendedView) -> Seq<char> {
    style.tag + " {\n\t"@ + declarations_text(style.attributes, true) + "}\n"@
}

/// The text of a run of styles: their blocks, one after the other.
pub open spec fn formatted_text(styles: Seq<CssStyleExtendedView>) -> Seq<char>
    decreases styles.len(),
{
    if styles.len() == 0 {
        Seq::empty()
    } else {
        formatted_text(styles.drop_last()) + block_text(styles.last())
    }
}

/// The number of lines that the text of `styles` has: for each style the
/// line that opens its block, one for each declaration, and the line that
/// closes the block.
pub open spec fn line_total(styles: Seq<CssStyleExtendedView>) -> nat
    decreases styles.len(),
{
    if styles.len() == 0 {
        0
    } else {
        line_total(styles.drop_last()) + styles.last().attributes.len() + 2
    }
}

/// The owners of the lines of one block: the style owns the line that opens
/// the block and the one that closes it, each declaration its own line.
pub open spec fn block_owners(style: CssStyleExtendedView) -> Seq<Option<u32>> {
    seq![style.owner] + Seq::new(
        style.attributes.len(),
        |i: int| Some(style.attributes[i].owner),
    ) + seq![style.owner]
}

/// The owners of the lines of the text of `styles`, line by line.
pub open spec fn line_owners(styles: Seq<CssStyleExtendedView>) -> Seq<Option<u32>>
    decreases styles.len(),
{
    if styles.len() == 0 {
        Seq::empty()
    } else {
        line_owners(styles.drop_last()) + block_owners(styles.last())
    }
}

/// There are as many line owners as lines.
pub proof fn lemma_line_owners_len(styles: Seq<CssStyleExtendedView>)
    ensures
        line_owners(styles).len() == line_total(styles),
    decreases styles.len(),
{
    if styles.len() > 0 {
        lemma_line_owners_len(styles.drop_last());
    }
}

/// The number of line ends in `text`.
pub open spec fn newlines(text: Seq<char>) -> nat
    decreases text.len(),
{
    if text.len() == 0 {
        0
    } else if text.last() == '\n' {
        newlines(text.drop_last()) + 1
    } else {
        newlines(text.drop_last())
    }
}

/// Every selector, name and value of `styles` stands on one line.
pub open spec fn on_single_lines(styles: Seq<CssStyleExtendedView>) -> bool {
    forall|i: int|
        0 <= i < styles.len() ==> newlines((#[trigger] styles[i]).tag) == 0 && forall|j: int|
            0 <= j < styles[i].attributes.len() ==> newlines(
                (#[trigger] styles[i].attributes[j]).name,
            ) == 0 && newlines(styles[i].attributes[j].value) == 0
}

/// The line ends of two texts add up.
pub proof fn lemma_newlines_add(a: Seq<char>, b: Seq<char>)
    ensures
        newlines(a + b) == newlines(a) + newlines(b),
    decreases b.len(),
{
    if b.len() > 0 {
        lemma_newlines_add(a, b.drop_last());
        assert((a + b).drop_last() =~= a + b.drop_last());
    }
}

/// The line ends of the fixed parts of a block: one where a brace opens
/// it, one behind each declaration, one behind the closing brace.
proof fn lemma_newlines_of_marks()
    ensures
        newlines(" {\n\t"@) == 1,
        newlines(": "@) == 0,
        newlines(";\n"@) == 1,
        newlines(";\n\t"@) == 1,
        newlines("}\n"@) == 1,
{
    reveal_strlit(" {\n\t");
    reveal_strlit(": ");
    reveal_strlit(";\n");
    reveal_strlit(";\n\t");
    reveal_strlit("}\n");
    let none = Seq::<char>::empty();
    assert(newlines(none) == 0);
    let a1 = seq![' '];
    let a2 = seq![' ', '{'];
    let a3 = seq![' ', '{', '\n'];
    let a4 = seq![' ', '{', '\n', '\t'];
    assert(a1.drop_last() =~= none);
    assert(a2.drop_last() =~= a1);
    assert(a3.drop_last() =~= a2);
    assert(a4.drop_last() =~= a3);
    assert(newlines(a1) == 0);
    assert(newlines(a2) == 0);
    assert(newlines(a3) == 1);
    assert(" {\n\t"@ =~= a4);
    let b1 = seq![':'];
    let b2 = seq![':', ' '];
    assert(b1.drop_last() =~= none);
    assert(b2.drop_last() =~= b1);
    assert(newlines(b1) == 0);
    assert(": "@ =~= b2);
    let c1 = seq![';'];
    let c2 = seq![';', '\n'];
    let c3 = seq![';', '\n', '\t'];
    assert(c1.drop_last() =~= none);
    assert(c2.drop_last() =~= c1);
    assert(c3.drop_last() =~= c2);
    assert(newlines(c1) == 0);
    assert(newlines(c2) == 1);
    assert(";\n"@ =~= c2);
    assert(";\n\t"@ =~= c3);
    let d1 = seq!['}'];
    let d2 = seq!['}', '\n'];
    assert(d1.drop_last() =~= none);
    assert(d2.drop_last() =~= d1);
    assert(newlines(d1) == 0);
    assert("}\n"@ =~= d2);
}

/// The declarations of a block take one line each.
proof fn lemma_declaration_lines(attributes: Seq<CssAttributeExtendedView>, closes: bool)
    requires
        forall|j: int|
            0 <= j < attributes.len() ==> newlines((#[trigger] attributes[j]).name) == 0
                && newlines(attributes[j].value) == 0,
    ensures
        newlines(declarations_text(attributes, closes)) == attributes.len(),
    decreases attributes.len(),
{
    if attributes.len() > 0 {
        let front = attributes.drop_last();
        let last = attributes.last();
        assert forall|j: int| 0 <= j < front.len() implies newlines((#[trigger] front[j]).name)
            == 0 && newlines(front[j].value) == 0 by {
        }
        lemma_declaration_lines(front, false);
        lemma_newlines_of_marks();
        let end = if closes {
            ";\n"@
        } else {
            ";\n\t"@
        };
        lemma_newlines_add(last.name, ": "@);
        lemma_newlines_add(last.name + ": "@, last.value);
        lemma_newlines_add(last.name + ": "@ + last.value, end);
        lemma_newlines_add(
            declarations_text(front, false),
            declaration_text(last.name, last.value, closes),
        );
    }
}

/// The text of the styles and the list of the owners of its lines keep in
/// step: the text has as many lines as the list has entries, namely two for
/// each style and one for each declaration.
pub proof fn lemma_lines_in_step(styles: Seq<CssStyleExtendedView>)
    requires
        on_single_lines(styles),
    ensures
        newlines(formatted_text(styles)) == line_total(styles),
        line_owners(styles).len() == line_total(styles),
    decreases styles.len(),
{
    lemma_line_owners_len(styles);
    if styles.len() > 0 {
        let front = styles.drop_last();
        let last = styles.last();
        assert forall|i: int| 0 <= i < front.len() implies newlines((#[trigger] front[i]).tag)
            == 0 && forall|j: int|
            0 <= j < front[i].attributes.len() ==> newlines(
                (#[trigger] front[i].attributes[j]).name,
            ) == 0 && newlines(front[i].attributes[j].value) == 0 by {
        }
        lemma_lines_in_step(front);
        lemma_declaration_lines(last.attributes, true);
        lemma_newlines_of_marks();
        lemma_newlines_add(last.tag, " {\n\t"@);
        lemma_newlines_add(last.tag + " {\n\t"@, declarations_text(last.attributes, true));
        lemma_newlines_add(
            last.tag + " {\n\t"@ + declarations_text(last.attributes, true),
            "}\n"@,
        );
        lemma_newlines_add(formatted_text(front), block_text(last));
    }
}

/// `lines` numbers the lines of the text of `styles` from 0 and gives each
/// its owner.
pub open spec fn lines_match(lines: Seq<LineInformation>, styles: Seq<CssStyleExtendedView>) -> bool {
    &&& lines.len() == line_owners(styles).len()
    &&& forall|i: int|
        0 <= i < lines.len() ==> (#[trigger] lines[i]).line_number == i && lines[i].owner
            == line_owners(styles)[i]
}

/// A prefix of the styles has no more lines than all of them.
pub proof fn lemma_line_total_prefix(styles: Seq<CssStyleExtendedView>, i: int)
    requires
        0 <= i <= styles.len(),
    ensures
        line_total(styles.take(i)) <= line_total(styles),
    decreases styles.len() - i,
{
    if i < styles.len() {
        lemma_line_total_prefix(styles, i + 1);
        assert(styles.take(i + 1).drop_last() =~= styles.take(i));
    } else {
        assert(styles.take(i) =~= styles);
    }
}

/// A declaration with the file that makes it.
pub struct OwnedAttribute {
    pub owner: u32,
    pub attribute: CssAttribute,
}

/// What an `OwnedAttribute` holds, as mathematical values.
pub struct OwnedAttributeView {
    pub owner: u32,
    pub attribute: CssAttributeView,
}

impl View for OwnedAttribute {
    type V = OwnedAttributeView;

    open spec fn view(&self) -> OwnedAttributeView {
        OwnedAttributeView { owner: self.owner, attribute: self.attribute@ }
    }
}

impl Ranked for OwnedAttributeView {
    /// Owned declarations are ordered as the declarations are, and equal
    /// declarations by the file that makes them.
    open spec fn before(self, other: OwnedAttributeView) -> bool {
        if self.attribute != other.attribute {
            self.attribute.before(other.attribute)
        } else {
            self.owner < other.owner
        }
    }

    proof fn lemma_before(a: OwnedAttributeView, b: OwnedAttributeView, c: OwnedAttributeView) {
        CssAttributeView::lemma_before(a.attribute, b.attribute, c.attribute);
        CssAttributeView::lemma_before(a.attribute, b.attribute, a.attribute);
        CssAttributeView::lemma_before(b.attribute, c.attribute, b.attribute);
        CssAttributeView::lemma_before(a.attribute, c.attribute, a.attribute);
    }
}

impl RankedExec for OwnedAttribute {
    fn precedes(&self, other: &OwnedAttribute) -> (r: bool) {
        proof {
            CssAttributeView::lemma_before(self@.attribute, other@.attribute, self@.attribute);
        }
        if self.attribute.precedes(&other.attribute) {
            true
        } else if other.attribute.precedes(&self.attribute) {
            false
        } else {
            self.owner < other.owner
        }
    }
}

/// The attributes of one style as declarations of the file `owner`.
pub open spec fn owned_all(attributes: Seq<CssAttributeView>, owner: u32) -> Seq<
    OwnedAttributeView,
> {
    Seq::new(attributes.len(), |i: int| OwnedAttributeView { owner, attribute: attributes[i] })
}

/// The declarations that the file `owner` makes for the selector `tag` in
/// `styles`, in order.
pub open spec fn owned_in_styles(styles: Seq<CssStyleView>, tag: Seq<char>, owner: u32) -> Seq<
    OwnedAttributeView,
>
    decreases styles.len(),
{
    if styles.len() == 0 {
        Seq::empty()
    } else if styles.last().tag == tag {
        owned_in_styles(styles.drop_last(), tag, owner) + owned_all(styles.last().attributes, owner)
    } else {
        owned_in_styles(styles.drop_last(), tag, owner)
    }
}

/// The declarations that one record makes for the selector `tag`.
pub open spec fn owned_in_record(record: CssMetaDataView, tag: Seq<char>) -> Seq<
    OwnedAttributeView,
> {
    match record.styles {
        Some(styles) => owned_in_styles(styles, tag, record.id),
        None => Seq::empty(),
    }
}

/// The declarations that `records` make for the selector `tag`, each with
/// the file that makes it.
pub open spec fn owned(records: Seq<CssMetaDataView>, tag: Seq<char>) -> Seq<OwnedAttributeView>
    decreases records.len(),
{
    if records.len() == 0 {
        Seq::empty()
    } else {
        owned(records.drop_last(), tag) + owned_in_record(records.last(), tag)
    }
}

/// A run of owned declarations, value by value.
pub open spec fn unstacked_owned(attributes: Seq<OwnedAttributeView>) -> Seq<
    CssAttributeExtendedView,
>
    decreases attributes.len(),
{
    if attributes.len() == 0 {
        Seq::empty()
    } else {
        unstacked_owned(attributes.drop_last()) + unstacked(
            attributes.last().attribute,
            attributes.last().owner,
        )
    }
}

/// The declarations of the merged view for the selector `tag`: those that
/// the records make for it, in the order of the declarations themselves and,
/// for equal declarations, of the files that make them, value by value.
pub open spec fn formatted_declarations(records: Seq<CssMetaDataView>, tag: Seq<char>) -> Seq<
    CssAttributeExtendedView,
> {
    unstacked_owned(ranking(owned(records, tag)))
}

/// The id of the first record that holds a style for the selector `tag`.
pub open spec fn first_owner(records: Seq<CssMetaDataView>, tag: Seq<char>) -> Option<u32>
    decreases records.len(),
{
    if records.len() == 0 {
        None
    } else if first_owner(records.drop_last(), tag) is Some {
        first_owner(records.drop_last(), tag)
    } else if records.last().styles is Some && occurs(keys_of(records.last().styles->0), tag) {
        Some(records.last().id)
    } else {
        None
    }
}

/// Whether one file makes all of `attributes`.
pub open spec fn single_owner(attributes: Seq<CssAttributeExtendedView>) -> bool {
    forall|i: int| 0 <= i < attributes.len() ==> (#[trigger] attributes[i]).owner == attributes[0].owner
}

/// The owner of a style with the declarations `attributes`: the file that
/// makes them all, and none where several files do. A style without any
/// declaration belongs to the first file that holds it.
pub open spec fn style_owner(
    attributes: Seq<CssAttributeExtendedView>,
    records: Seq<CssMetaDataView>,
    tag: Seq<char>,
) -> Option<u32> {
    if attributes.len() > 0 {
        if single_owner(attributes) {
            Some(attributes[0].owner)
        } else {
            None
        }
    } else {
        first_owner(records, tag)
    }
}

/// `out` holds the styles of the merged view of `records`: one for each
/// selector that a record styles, in strictly ascending order of the
/// selectors; each holds the declarations made for its selector value by
/// value, in the order that `formatted_declarations` gives; and each has the
/// owner that `style_owner` gives. The order of the records plays a part
/// only for the owner of a style without declarations.
pub open spec fn is_formatted_merge(
    out: Seq<CssStyleExtendedView>,
    records: Seq<CssMetaDataView>,
) -> bool {
    &&& strictly_sorted_by_key(out)
    &&& forall|tag: Seq<char>| occurs(keys_of(out), tag) <==> styled(records, tag)
    &&& forall|i: int|
        0 <= i < out.len() ==> (#[trigger] out[i]).attributes == formatted_declarations(
            records,
            out[i].tag,
        ) && out[i].owner == style_owner(out[i].attributes, records, out[i].tag)
}

/// The styles of the merged view of `records`.
pub open spec fn formatted_styles(records: Seq<CssMetaDataView>) -> Seq<CssStyleExtendedView> {
    choose|out: Seq<CssStyleExtendedView>| is_formatted_merge(out, records)
}

/// What the merged view tells of the file of one record.
pub open spec fn file_of(record: CssMetaDataView) -> FileMetaDataView {
    FileMetaDataView {
        id: record.id,
        file_name: record.file_name,
        absolute_path: record.absolute_path,
    }
}

/// The styles of the merged view, written out: one for each style of the
/// merge.
pub open spec fn formatted_from(records: Seq<CssMetaDataView>) -> Seq<CssStyleExtendedView> {
    Seq::new(
        merged(records).len(),
        |i: int|
            {
                let tag = merged(records)[i].tag;
                CssStyleExtendedView {
                    owner: style_owner(formatted_declarations(records, tag), records, tag),
                    tag,
                    attributes: formatted_declarations(records, tag),
                }
            },
    )
}

/// Every list of records has a merged view, with one style for each style
/// of the merge.
pub proof fn lemma_formatted_exists(records: Seq<CssMetaDataView>)
    ensures
        is_formatted_merge(formatted_styles(records), records),
        formatted_styles(records) == formatted_from(records),
{
    lemma_merge_exists(records);
    let out = formatted_from(records);
    assert(keys_of(out) =~= keys_of(merged(records)));
    assert forall|i: int, j: int| 0 <= i < j < out.len() implies text_lt(
        out[i].key(),
        out[j].key(),
    ) by {
        assert(out[i].key() == merged(records)[i].key());
        assert(out[j].key() == merged(records)[j].key());
    }
    assert(is_formatted_merge(out, records));
    lemma_formatted_unique(out, formatted_styles(records), records);
}

/// What one record declares for the selector `tag`, with the record as
/// the owner, as a function of the record.
pub open spec fn owned_by(tag: Seq<char>) -> spec_fn(CssMetaDataView) -> Seq<OwnedAttributeView> {
    |record: CssMetaDataView| owned_in_record(record, tag)
}

/// The owned declarations for a selector are what the records declare for
/// it, one record after the other.
proof fn lemma_owned_gathered(records: Seq<CssMetaDataView>, tag: Seq<char>)
    ensures
        owned(records, tag) == gathered(records, owned_by(tag)),
    decreases records.len(),
{
    if records.len() > 0 {
        lemma_owned_gathered(records.drop_last(), tag);
    }
}

/// The declarations of the merged view for a selector are the same in
/// whatever order the stylesheets are given.
pub proof fn lemma_formatted_declarations_in_any_order(
    a: Seq<CssMetaDataView>,
    b: Seq<CssMetaDataView>,
    order: Seq<int>,
    tag: Seq<char>,
)
    requires
        is_reordering(a, b, order),
    ensures
        formatted_declarations(a, tag) == formatted_declarations(b, tag),
{
    lemma_owned_gathered(a, tag);
    lemma_owned_gathered(b, tag);
    lemma_gathered_in_any_order(a, b, order, owned_by(tag));
    lemma_ranking_same(owned(a, tag), owned(b, tag));
}

/// The styles of the merged view, and its text, are the same in whatever
/// order the stylesheets are given, but for the owner of a style without
/// declarations, which is the first file that holds it: where there is such
/// a style, the same file must come first in both orders.
pub proof fn lemma_formatted_order_independent(
    a: Seq<CssMetaDataView>,
    b: Seq<CssMetaDataView>,
    order: Seq<int>,
)
    requires
        is_reordering(a, b, order),
        forall|tag: Seq<char>|
            (#[trigger] formatted_declarations(a, tag)).len() == 0 ==> first_owner(a, tag)
                == first_owner(b, tag),
    ensures
        formatted_styles(a) == formatted_styles(b),
        formatted_text(formatted_styles(a)) == formatted_text(formatted_styles(b)),
{
    lemma_formatted_exists(a);
    lemma_formatted_exists(b);
    lemma_merge_order_independent(a, b, order);
    let x = formatted_from(a);
    let y = formatted_from(b);
    assert forall|i: int| 0 <= i < x.len() implies x[i] == y[i] by {
        lemma_formatted_declarations_in_any_order(a, b, order, merged(a)[i].tag);
    }
    assert(x =~= y);
}

/// There is one merged view of `records`.
pub proof fn lemma_formatted_unique(
    a: Seq<CssStyleExtendedView>,
    b: Seq<CssStyleExtendedView>,
    records: Seq<CssMetaDataView>,
)
    requires
        is_formatted_merge(a, records),
        is_formatted_merge(b, records),
    ensures
        a == b,
{
    lemma_strict_blocks_distinct(a);
    lemma_strict_blocks_distinct(b);
    assert forall|k: Seq<char>| with_key(a, k) == with_key(b, k) by {
        lemma_with_key_distinct(a, k);
        lemma_with_key_distinct(b, k);
        lemma_first_index_exists(keys_of(a), k);
        lemma_first_index_exists(keys_of(b), k);
        assert(occurs(keys_of(b), k) <==> styled(records, k));
    }
    lemma_sorted_unique(a, b);
}

/// Styles in strictly ascending order are sorted, and no selector stands
/// twice among them.
pub proof fn lemma_strict_blocks_distinct(s: Seq<CssStyleExtendedView>)
    requires
        strictly_sorted_by_key(s),
    ensures
        sorted_by_key(s),
        distinct(keys_of(s)),
{
    assert forall|i: int, j: int| 0 <= i < j < keys_of(s).len() implies keys_of(s)[i] != keys_of(
        s,
    )[j] by {
        lemma_text_order(s[i].key(), s[j].key(), s[i].key());
    }
}

/// The declarations that `metadata_files` make for the selector `tag`,
/// each with the file that makes it.
fn collect_owned(metadata_files: &Vec<CssMetaData>, tag: &String) -> (r: Vec<OwnedAttribute>)
    ensures
        views(r@) == owned(views(metadata_files@), tag@),
{
    let ghost records = views(metadata_files@);
    let mut out: Vec<OwnedAttribute> = Vec::new();
    assert(views(out@) =~= owned(records.take(0), tag@));
    let mut i: usize = 0;
    while i < metadata_files.len()
        invariant
            i <= metadata_files.len(),
            records == views(metadata_files@),
            views(out@) == owned(records.take(i as int), tag@),
        decreases metadata_files.len() - i,
    {
        let record = &metadata_files[i];
        let ghost start = views(out@);
        assert(records.take(i + 1).drop_last() =~= records.take(i as int));
        if let Some(styles) = &record.styles {
            let ghost all = views(styles@);
            assert(start =~= start + owned_in_styles(all.take(0), tag@, record.id));
            let mut j: usize = 0;
            while j < styles.len()
                invariant
                    j <= styles.len(),
                    all == views(styles@),
                    views(out@) == start + owned_in_styles(all.take(j as int), tag@, record.id),
                decreases styles.len() - j,
            {
                let style = &styles[j];
                let ghost mid = views(out@);
                let ghost own = owned_all(style@.attributes, record.id);
                assert(all.take(j + 1).drop_last() =~= all.take(j as int));
                if style.tag == *tag {
                    let mut k: usize = 0;
                    while k < style.attributes.len()
                        invariant
                            k <= style.attributes.len(),
                            own == owned_all(style@.attributes, record.id),
                            views(out@) == mid + own.take(k as int),
                        decreases style.attributes.len() - k,
                    {
                        let ghost so_far = views(out@);
                        out.push(
                            OwnedAttribute {
                                owner: record.id,
                                attribute: style.attributes[k].clone(),
                            },
                        );
                        assert(views(out@) =~= so_far.push(own[k as int]));
                        assert(own.take(k + 1) =~= own.take(k as int).push(own[k as int]));
                        k += 1;
                    }
                    assert(own.take(k as int) =~= own);
                    assert(start + (owned_in_styles(all.take(j as int), tag@, record.id) + own)
                        =~= mid + own);
                }
                j += 1;
            }
            assert(all.take(j as int) =~= all);
        } else {
            assert(start + Seq::empty() =~= start);
        }
        i += 1;
    }
    assert(records.take(i as int) =~= records);
    out
}

/// Takes a run of owned declarations apart, value by value.
fn unstack(attributes: Vec<OwnedAttribute>) -> (r: Vec<CssAttributeExtended>)
    ensures
        views(r@) == unstacked_owned(views(attributes@)),
{
    let ghost all = views(attributes@);
    let mut out: Vec<CssAttributeExtended> = Vec::new();
    assert(views(out@) =~= unstacked_owned(all.take(0)));
    let mut a: usize = 0;
    while a < attributes.len()
        invariant
            a <= attributes.len(),
            all == views(attributes@),
            views(out@) == unstacked_owned(all.take(a as int)),
        decreases attributes.len() - a,
    {
        let ghost so_far = views(out@);
        let mut more = CssAttributeExtended::from_attribute(
            attributes[a].attribute.clone(),
            attributes[a].owner,
        );
        let ghost added = views(more@);
        out.append(&mut more);
        assert(views(out@) =~= so_far + added);
        a += 1;
        assert(all.take(a as int).drop_last() =~= all.take(a - 1));
    }
    assert(all.take(a as int) =~= all);
    out
}

/// The id of the first record that holds a style for the selector `tag`.
fn get_owner(tag_name: &String, metadata_files: &Vec<CssMetaData>) -> (r: Option<u32>)
    ensures
        r == first_owner(views(metadata_files@), tag_name@),
{
    let ghost records = views(metadata_files@);
    let mut i: usize = 0;
    while i < metadata_files.len()
        invariant
            i <= metadata_files.len(),
            records == views(metadata_files@),
            first_owner(records.take(i as int), tag_name@) is None,
        decreases metadata_files.len() - i,
    {
        assert(records.take(i + 1).drop_last() =~= records.take(i as int));
        if let Some(styles) = &metadata_files[i].styles {
            let p = find_style(styles, tag_name);
            if p < styles.len() {
                proof {
                    lemma_first_owner_stays(records, i + 1, tag_name@);
                }
                return Some(metadata_files[i].id);
            }
        }
        i += 1;
    }
    assert(records.take(i as int) =~= records);
    None
}

/// Once a prefix of the records has a first owner, all of them have it.
proof fn lemma_first_owner_stays(records: Seq<CssMetaDataView>, i: int, tag: Seq<char>)
    requires
        0 <= i <= records.len(),
        first_owner(records.take(i), tag) is Some,
    ensures
        first_owner(records, tag) == first_owner(records.take(i), tag),
    decreases records.len() - i,
{
    if i < records.len() {
        assert(records.take(i + 1).drop_last() =~= records.take(i));
        lemma_first_owner_stays(records, i + 1, tag);
    } else {
        assert(records.take(i) =~= records);
    }
}

/// The owner of the declarations `attributes`, where there is one.
fn common_owner(attributes: &Vec<CssAttributeExtended>) -> (r: Option<u32>)
    requires
        attributes.len() > 0,
    ensures
        r == if single_owner(views(attributes@)) {
            Some(views(attributes@)[0].owner)
        } else {
            None
        },
{
    let ghost all = views(attributes@);
    let first = attributes[0].owner;
    let mut i: usize = 1;
    while i < attributes.len()
        invariant
            1 <= i <= attributes.len(),
            all == views(attributes@),
            first == all[0].owner,
            forall|j: int| 0 <= j < i ==> (#[trigger] all[j]).owner == first,
        decreases attributes.len() - i,
    {
        if attributes[i].owner != first {
            assert(all[i as int].owner != all[0].owner);
            return None;
        }
        i += 1;
    }
    Some(first)
}

/// The merged view of `metadata_files` without its line owners.
fn merge_formatted(metadata_files: &Vec<CssMetaData>) -> (r: FormattedCssFile)
    ensures
        r@.absolute_path == Seq::<char>::empty(),
        r@.included_files == Seq::new(
            metadata_files.len() as nat,
            |i: int| file_of(views(metadata_files@)[i]),
        ),
        r@.styles == formatted_styles(views(metadata_files@)),
        is_formatted_merge(r@.styles, views(metadata_files@)),
        r@.lines == Seq::<LineInformation>::empty(),
{
    let ghost records = views(metadata_files@);
    let mut included: Vec<FileMetaData> = Vec::new();
    let mut i: usize = 0;
    while i < metadata_files.len()
        invariant
            i <= metadata_files.len(),
            records == views(metadata_files@),
            included.len() == i,
            forall|j: int| 0 <= j < i ==> (#[trigger] included@[j])@ == file_of(records[j]),
        decreases metadata_files.len() - i,
    {
        let record = &metadata_files[i];
        included.push(
            FileMetaData {
                id: record.id,
                file_name: record.file_name.clone(),
                absolute_path: record.absolute_path.clone(),
            },
        );
        i += 1;
    }
    let plain = merge_css_metadata(metadata_files);
    let ghost tags = keys_of(views(plain@));
    let mut out: Vec<CssStyleExtended> = Vec::new();
    let mut t: usize = 0;
    while t < plain.len()
        invariant
            t <= plain.len(),
            records == views(metadata_files@),
            tags == keys_of(views(plain@)),
            out.len() == t,
            forall|j: int|
                0 <= j < t ==> (#[trigger] out@[j])@.tag == tags[j] && out@[j]@.attributes
                    == formatted_declarations(records, tags[j]) && out@[j]@.owner == style_owner(
                    out@[j]@.attributes,
                    records,
                    tags[j],
                ),
        decreases plain.len() - t,
    {
        let tag = plain[t].tag.clone();
        assert(tag@ == tags[t as int]);
        let attributes = unstack(rank_sort(collect_owned(metadata_files, &tag)));
        let owner = if attributes.len() > 0 {
            common_owner(&attributes)
        } else {
            get_owner(&tag, metadata_files)
        };
        out.push(CssStyleExtended { owner, tag, attributes });
        t += 1;
    }
    proof {
        let result = views(out@);
        assert(keys_of(result) =~= tags);
        assert forall|a: int, b: int| 0 <= a < b < result.len() implies text_lt(
            result[a].key(),
            result[b].key(),
        ) by {
            assert(result[a].key() == views(plain@)[a].key());
            assert(result[b].key() == views(plain@)[b].key());
        }
        assert(is_formatted_merge(result, records));
        lemma_formatted_unique(result, formatted_styles(records), records);
    }
    FormattedCssFile {
        absolute_path: String::new(),
        included_files: included,
        styles: out,
        lines: Vec::new(),
    }
}

impl FormattedCssFile {
    /// An empty merged view.
    pub fn new() -> (r: FormattedCssFile)
        ensures
            r@ == (FormattedCssFileView {
                absolute_path: Seq::empty(),
                included_files: Seq::empty(),
                styles: Seq::empty(),
                lines: Seq::empty(),
            }),
    {
        let r = FormattedCssFile {
            absolute_path: String::new(),
            included_files: Vec::new(),
            styles: Vec::new(),
            lines: Vec::new(),
        };
        assert(views(r.included_files@) =~= Seq::empty());
        assert(views(r.styles@) =~= Seq::empty());
        r
    }

    /// The merged view of several stylesheets: the files that were merged,
    /// the merged styles with their owners, and the owner of every line of
    /// the text. The lines must be few enough to be numbered.
    pub fn generate_formatted_file(metadata_files: &Vec<CssMetaData>) -> (r: FormattedCssFile)
        requires
            line_total(formatted_styles(views(metadata_files@))) <= u32::MAX,
        ensures
            r@.absolute_path == Seq::<char>::empty(),
            r@.included_files == Seq::new(
                metadata_files.len() as nat,
                |i: int| file_of(views(metadata_files@)[i]),
            ),
            r@.styles == formatted_styles(views(metadata_files@)),
            is_formatted_merge(r@.styles, views(metadata_files@)),
            lines_match(r@.lines, r@.styles),
    {
        let mut formatted_file = merge_formatted(metadata_files);
        formatted_file.update_lines();
        formatted_file
    }

    /// The merged view of several stylesheets, or `None` where its text
    /// has more lines than can be numbered.
    pub fn try_generate_formatted_file(metadata_files: &Vec<CssMetaData>) -> (r: Option<
        FormattedCssFile,
    >)
        ensures
            r is Some <==> line_total(formatted_styles(views(metadata_files@))) <= u32::MAX,
            r matches Some(file) ==> {
                &&& file@.absolute_path == Seq::<char>::empty()
                &&& file@.included_files == Seq::new(
                    metadata_files.len() as nat,
                    |i: int| file_of(views(metadata_files@)[i]),
                )
                &&& file@.styles == formatted_styles(views(metadata_files@))
                &&& is_formatted_merge(file@.styles, views(metadata_files@))
                &&& lines_match(file@.lines, file@.styles)
            },
    {
        let mut formatted_file = merge_formatted(metadata_files);
        if formatted_file.lines_fit() {
            formatted_file.update_lines();
            Some(formatted_file)
        } else {
            None
        }
    }

    /// The CSS text of the styles: for each style the selector and an
    /// opening brace, one line for each declaration, and the closing brace.
    pub fn to_css_string(&self) -> (r: String)
        ensures
            r@ == formatted_text(self@.styles),
    {
        let ghost all = self@.styles;
        let mut text = String::new();
        let mut i: usize = 0;
        while i < self.styles.len()
            invariant
                i <= self.styles.len(),
                all == self@.styles,
                text@ == formatted_text(all.take(i as int)),
            decreases self.styles.len() - i,
        {
            write_block(&mut text, &self.styles[i]);
            i += 1;
            assert(all.take(i as int).drop_last() =~= all.take(i - 1));
        }
        assert(all.take(i as int) =~= all);
        text
    }

    /// Whether the lines of the text can be numbered: there are no more
    /// of them than `u32::MAX`.
    pub fn lines_fit(&self) -> (r: bool)
        ensures
            r == (line_total(self@.styles) <= u32::MAX),
    {
        let ghost all = self@.styles;
        let mut total: u32 = 0;
        let mut i: usize = 0;
        while i < self.styles.len()
            invariant
                i <= self.styles.len(),
                all == self@.styles,
                total == line_total(all.take(i as int)),
            decreases self.styles.len() - i,
        {
            let count = self.styles[i].attributes.len();
            proof {
                assert(all.take(i + 1).drop_last() =~= all.take(i as int));
                lemma_line_total_prefix(all, i + 1);
            }
            if total > u32::MAX - 2 {
                return false;
            }
            let room: u32 = u32::MAX - 2 - total;
            if count > room as usize {
                return false;
            }
            total = total + (count as u32) + 2;
            i += 1;
        }
        assert(all.take(i as int) =~= all);
        true
    }

    /// Numbers the lines of the text from 0 and records the owner of each:
    /// the style owns the lines that open and close its block, each
    /// declaration its own line.
    pub fn update_lines(&mut self)
        requires
            line_total(old(self)@.styles) <= u32::MAX,
        ensures
            lines_match(final(self)@.lines, old(self)@.styles),
            final(self)@.styles == old(self)@.styles,
            final(self)@.absolute_path == old(self)@.absolute_path,
            final(self)@.included_files == old(self)@.included_files,
    {
        let ghost all = self@.styles;
        let mut lines: Vec<LineInformation> = Vec::new();
        let mut line_count: u32 = 0;
        let mut i: usize = 0;
        assert(all.take(0) =~= Seq::empty());
        while i < self.styles.len()
            invariant
                i <= self.styles.len(),
                all == self@.styles,
                self@ == old(self)@,
                line_total(all) <= u32::MAX,
                line_count == line_total(all.take(i as int)),
                lines_match(lines@, all.take(i as int)),
            decreases self.styles.len() - i,
        {
            let style = &self.styles[i];
            let ghost before = lines@;
            let ghost done = line_owners(all.take(i as int));
            proof {
                assert(all.take(i + 1).drop_last() =~= all.take(i as int));
                assert(all.take(i + 1).last() == style@);
                lemma_line_total_prefix(all, i + 1);
                lemma_line_owners_len(all.take(i as int));
            }
            lines.push(LineInformation::new_line(line_count, style.owner));
            line_count += 1;
            let mut a: usize = 0;
            while a < style.attributes.len()
                invariant
                    a <= style.attributes.len(),
                    line_count == before.len() + 1 + a,
                    before.len() + style.attributes.len() + 2 <= u32::MAX,
                    lines@.len() == before.len() + 1 + a,
                    forall|j: int| 0 <= j < before.len() ==> lines@[j] == before[j],
                    lines@[before.len() as int] == (LineInformation {
                        line_number: before.len() as u32,
                        owner: style.owner,
                    }),
                    forall|j: int|
                        0 <= j < a ==> #[trigger] lines@[before.len() + 1 + j] == (LineInformation {
                            line_number: (before.len() + 1 + j) as u32,
                            owner: Some(style.attributes@[j].owner),
                        }),
                decreases style.attributes.len() - a,
            {
                lines.push(LineInformation::new_line(line_count, Some(style.attributes[a].owner)));
                line_count += 1;
                a += 1;
            }
            let ghost mid = lines@;
            lines.push(LineInformation::new_line(line_count, style.owner));
            line_count += 1;
            i += 1;
            proof {
                let owners = line_owners(all.take(i as int));
                let block = block_owners(style@);
                let n = style.attributes.len() as int;
                assert(owners == done + block);
                assert(before.len() == done.len());
                assert(block.len() == n + 2);
                assert(lines@ == mid.push(
                    LineInformation { line_number: (before.len() + 1 + n) as u32, owner: style.owner },
                ));
                assert(forall|j: int| 0 <= j < mid.len() ==> lines@[j] == mid[j]);
                assert(forall|k: int|
                    0 <= k < n ==> style@.attributes[k].owner == style.attributes@[k].owner);
                assert forall|j: int| 0 <= j < lines@.len() implies (#[trigger] lines@[j]).line_number
                    == j && lines@[j].owner == owners[j] by {
                    if j < before.len() {
                        assert(lines@[j] == before[j]);
                        assert(owners[j] == done[j]);
                        assert(before[j].line_number == j);
                        assert(before[j].owner == done[j]);
                    } else if j == before.len() {
                        assert(block[0] == style.owner);
                        assert(owners[j] == block[0]);
                        assert(lines@[j].line_number == j);
                    } else if j < before.len() + 1 + style.attributes.len() {
                        let k = j - before.len() - 1;
                        assert(mid[before.len() + 1 + k] == lines@[j]);
                        assert(block[k + 1] == Some(style@.attributes[k].owner));
                        assert(owners[j] == block[k + 1]);
                        assert(lines@[j].line_number == j);
                    } else {
                        assert(block[j - before.len()] == style.owner);
                        assert(owners[j] == block[j - before.len()]);
                        assert(lines@[j].line_number == j);
                    }
                }
            }
        }
        assert(all.take(i as int) =~= all);
        self.lines = lines;
    }
}

/// Appends the block of one style to `text`.
fn write_block(text: &mut String, style: &CssStyleExtended)
    ensures
        final(text)@ == old(text)@ + block_text(style@),
{
    let ghost attributes = style@.attributes;
    text.append(style.tag.as_str());
    text.append(" {\n\t");
    let ghost opened = text@;
    let mut a: usize = 0;
    while a < style.attributes.len()
        invariant
            a <= style.attributes.len(),
            attributes == style@.attributes,
            attributes.len() == style.attributes.len(),
            a < style.attributes.len() ==> text@ == opened + declarations_text(
                attributes.take(a as int),
                false,
            ),
            a == style.attributes.len() ==> text@ == opened + declarations_text(attributes, true),
        decreases style.attributes.len() - a,
    {
        let last = a == style.attributes.len() - 1;
        let attribute = &style.attributes[a];
        text.append(attribute.name.as_str());
        text.append(": ");
        text.append(attribute.value.as_str());
        if last {
            text.append(";\n");
        } else {
            text.append(";\n\t");
        }
        a += 1;
        assert(attributes.take(a as int).drop_last() =~= attributes.take(a - 1));
    }
    text.append("}\n");
}

} // verus!

//! The style model of one stylesheet, and the merge of several stylesheets
//! into one.

pub mod css_attribute;
pub mod css_file;
pub mod css_parser;
pub mod css_style;
pub mod css_token;
pub mod merge_order;

use vstd::prelude::*;
use self::css_attribute::{lemma_ranked_by_name, CssAttribute, CssAttributeView};
use self::css_file::{CssFile, CssFileView};
use self::css_style::{clone_attributes, updated_attributes, CssStyle, CssStyleView};
use crate::keyed::{keys_of, lemma_occurs_extend, unclaimed, views, Keyed};
use crate::ranked::{lemma_ranking_exists, rank_sort, ranking};
use crate::sorting::{
    lemma_sort_distinct, lemma_sorted_unique, lemma_with_key_distinct, sort_by_key, sorted_by_key,
    strictly_sorted_by_key, with_key,
};
use crate::text::{
    distinct, first_index, is_first_index, lemma_first_index, lemma_first_index_exists,
    lemma_text_order, occurs,
};
use self::css_parser::{parse_css, parsed_sheet};
use self::css_token::css_nodes;
use super::workspace_metadata::workspace_css_file::{
    is_shared_path, WorkspaceCssFile, WorkspaceCssFileView,
};
use crate::path::{file_name, file_name_of, names_path, names_same_path};
use crate::text::texts;
use crate::timestamp::Timestamp;

verus! {

/// The record kept of one stylesheet.
#[derive(Debug, PartialEq)]
pub struct CssMetaData {
    /// The id of the stylesheet in its workspace; 0 until one is assigned.
    pub id: u32,
    pub file_name: String,
    pub absolute_path: String,
    /// The instant as of which `styles` describes the file.
    pub last_updated: Timestamp,
    /// The shared stylesheets that this one imports.
    pub imported_sheets: Option<Vec<CssFile>>,
    /// The rules of the stylesheet; `None` where it has none.
    pub styles: Option<Vec<CssStyle>>,
}

/// What a `CssMetaData` holds, as mathematical values.
pub struct CssMetaDataView {
    pub id: u32,
    pub file_name: Seq<char>,
    pub absolute_path: Seq<char>,
    pub last_updated: Timestamp,
    pub imported_sheets: Option<Seq<CssFileView>>,
    pub styles: Option<Seq<CssStyleView>>,
}

impl View for CssMetaData {
    type V = CssMetaDataView;

    open spec fn view(&self) -> CssMetaDataView {
        CssMetaDataView {
            id: self.id,
            file_name: self.file_name@,
            absolute_path: self.absolute_path@,
            last_updated: self.last_updated,
            imported_sheets: match self.imported_sheets {
                Some(sheets) => Some(views(sheets@)),
                None => None,
            },
            styles: match self.styles {
                Some(styles) => Some(views(styles@)),
                None => None,
            },
        }
    }
}

/// A copy of a run of styles.
pub fn clone_styles(styles: &Vec<CssStyle>) -> (r: Vec<CssStyle>)
    ensures
        views(r@) == views(styles@),
{
    let mut out: Vec<CssStyle> = Vec::new();
    let mut i: usize = 0;
    while i < styles.len()
        invariant
            i <= styles.len(),
            out.len() == i,
            forall|j: int| 0 <= j < i ==> out@[j]@ == styles@[j]@,
        decreases styles.len() - i,
    {
        out.push(styles[i].clone());
        i += 1;
    }
    out
}

/// A copy of a run of stylesheet references.
pub fn clone_files(files: &Vec<CssFile>) -> (r: Vec<CssFile>)
    ensures
        views(r@) == views(files@),
{
    let mut out: Vec<CssFile> = Vec::new();
    let mut i: usize = 0;
    while i < files.len()
        invariant
            i <= files.len(),
            out.len() == i,
            forall|j: int| 0 <= j < i ==> out@[j]@ == files@[j]@,
        decreases files.len() - i,
    {
        out.push(files[i].clone());
        i += 1;
    }
    out
}

impl Clone for CssMetaData {
    fn clone(&self) -> (r: Self)
        ensures
            r@ == self@,
    {
        CssMetaData {
            id: self.id,
            file_name: self.file_name.clone(),
            absolute_path: self.absolute_path.clone(),
            last_updated: self.last_updated,
            imported_sheets: match &self.imported_sheets {
                Some(sheets) => Some(clone_files(sheets)),
                None => None,
            },
            styles: match &self.styles {
                Some(styles) => Some(clone_styles(styles)),
                None => None,
            },
        }
    }
}

/// `gathered` with one more style taken in: the style of its selector is
/// updated with its declarations where there is one; else the style is added
/// at the end, its declarations gathered by name.
pub open spec fn absorb_style(gathered: Seq<CssStyleView>, style: CssStyleView) -> Seq<
    CssStyleView,
> {
    let i = first_index(keys_of(gathered), style.tag);
    if i < gathered.len() {
        gathered.update(
            i,
            CssStyleView {
                tag: gathered[i].tag,
                attributes: updated_attributes(gathered[i].attributes, style.attributes),
            },
        )
    } else {
        gathered.push(
            CssStyleView {
                tag: style.tag,
                attributes: updated_attributes(style.attributes, style.attributes),
            },
        )
    }
}

/// The styles of `styles` gathered by selector: one style for each selector,
/// in the order in which the selectors first occur.
pub open spec fn gathered_by_tag(styles: Seq<CssStyleView>) -> Seq<CssStyleView>
    decreases styles.len(),
{
    if styles.len() == 0 {
        Seq::empty()
    } else {
        absorb_style(gathered_by_tag(styles.drop_last()), styles.last())
    }
}

/// The styles `olds` after the gathered styles `news` have replaced them:
/// the first style of each selector that `news` holds takes the declarations
/// of the new style; all others stay as they are.
pub open spec fn replaced(olds: Seq<CssStyleView>, news: Seq<CssStyleView>) -> Seq<CssStyleView> {
    Seq::new(
        olds.len(),
        |i: int|
            if occurs(keys_of(news), olds[i].tag) && !occurs(keys_of(olds.take(i)), olds[i].tag) {
                CssStyleView {
                    tag: olds[i].tag,
                    attributes: news[first_index(keys_of(news), olds[i].tag)].attributes,
                }
            } else {
                olds[i]
            },
    )
}

/// The styles of a record after an update with the freshly parsed `news`.
/// Styles whose selector `news` no longer holds stay in the record.
pub open spec fn updated_styles(
    olds: Option<Seq<CssStyleView>>,
    news: Seq<CssStyleView>,
) -> Option<Seq<CssStyleView>> {
    let gathered = gathered_by_tag(news);
    match olds {
        Some(olds) => Some(replaced(olds, gathered) + unclaimed(gathered, olds)),
        None => if gathered.len() == 0 {
            None
        } else {
            Some(gathered)
        },
    }
}

/// An update removes no style: every style of the record is still there,
/// at its place and with its selector, also where the freshly parsed styles
/// no longer hold that selector.
pub proof fn lemma_update_keeps_styles(olds: Seq<CssStyleView>, news: Seq<CssStyleView>)
    ensures
        updated_styles(Some(olds), news) matches Some(styles) && styles.len() >= olds.len()
            && forall|i: int| 0 <= i < olds.len() ==> (#[trigger] styles[i]).tag == olds[i].tag,
{
}

/// The position of the first style with selector `tag`; the length of the
/// list where there is none.
pub fn find_style(styles: &Vec<CssStyle>, tag: &String) -> (r: usize)
    ensures
        r == first_index(keys_of(views(styles@)), tag@),
        r <= styles.len(),
        (r < styles.len()) == occurs(keys_of(views(styles@)), tag@),
{
    let ghost tags = keys_of(views(styles@));
    let mut i: usize = 0;
    while i < styles.len()
        invariant
            i <= styles.len(),
            tags == keys_of(views(styles@)),
            forall|j: int| 0 <= j < i ==> tags[j] != tag@,
        decreases styles.len() - i,
    {
        if styles[i].tag == *tag {
            proof {
                lemma_first_index(tags, tag@, i as int);
            }
            return i;
        }
        i += 1;
    }
    proof {
        lemma_first_index(tags, tag@, i as int);
    }
    i
}

/// Gathers `styles` by selector.
pub fn gather_styles(styles: &Vec<CssStyle>) -> (r: Vec<CssStyle>)
    ensures
        views(r@) == gathered_by_tag(views(styles@)),
{
    let ghost all = views(styles@);
    let mut gathered: Vec<CssStyle> = Vec::new();
    let mut i: usize = 0;
    while i < styles.len()
        invariant
            i <= styles.len(),
            all == views(styles@),
            views(gathered@) == gathered_by_tag(all.take(i as int)),
        decreases styles.len() - i,
    {
        let style = &styles[i];
        let p = find_style(&gathered, &style.tag);
        if p < gathered.len() {
            gathered[p].update_attributes(clone_attributes(&style.attributes));
        } else {
            let mut entry = style.clone();
            entry.update_attributes(clone_attributes(&style.attributes));
            gathered.push(entry);
        }
        i += 1;
        assert(all.take(i as int).drop_last() =~= all.take(i - 1));
    }
    assert(all.take(i as int) =~= all);
    gathered
}

impl CssMetaData {
    /// An empty record, dated now.
    pub fn new() -> (r: CssMetaData)
        ensures
            r@.id == 0,
            r@.file_name == Seq::<char>::empty(),
            r@.absolute_path == Seq::<char>::empty(),
            r@.imported_sheets is None,
            r@.styles is None,
    {
        CssMetaData {
            id: 0,
            file_name: String::new(),
            absolute_path: String::new(),
            last_updated: Timestamp::now(),
            imported_sheets: None,
            styles: None,
        }
    }

    /// The record of the stylesheet at `file_path` with the id `id` and
    /// the text `css_string`, made at the instant `now`.
    pub fn create_metadata(file_path: &str, id: &u32, css_string: &str, now: Timestamp) -> (r:
        CssMetaData)
        ensures
            r@ == (CssMetaDataView {
                id: *id,
                file_name: file_name_of(file_path@),
                absolute_path: file_path@,
                last_updated: now,
                imported_sheets: None,
                styles: parsed_sheet(css_nodes(css_string@)),
            }),
    {
        CssMetaData {
            id: *id,
            file_name: file_name(file_path),
            absolute_path: String::from_str(file_path),
            last_updated: now,
            imported_sheets: None,
            styles: parse_css(css_string),
        }
    }

    /// Brings the record up to date with the stylesheet, whose text is now
    /// `css_string`: the styles of the text are merged into those of the
    /// record, which has no styles left where the text has none; and the
    /// record is dated `now`. Gives the entry of the stylesheet for the index.
    pub fn update_metadata(&mut self, css_string: &str, now: Timestamp) -> (r: WorkspaceCssFile)
        ensures
            final(self)@ == (CssMetaDataView {
                styles: match parsed_sheet(css_nodes(css_string@)) {
                    Some(styles) => updated_styles(old(self)@.styles, styles),
                    None => None,
                },
                last_updated: now,
                ..old(self)@
            }),
            r@ == (WorkspaceCssFileView {
                id: old(self)@.id,
                file_name: old(self)@.file_name,
                absolute_path: old(self)@.absolute_path,
                is_shared: is_shared_path(old(self)@.absolute_path),
                html_files: None,
            }),
    {
        self.last_updated = now;
        match parse_css(css_string) {
            Some(styles) => {
                self.update_styles(styles);
            },
            None => {
                self.styles = None;
            },
        }
        WorkspaceCssFile::parse(self)
    }

    /// Brings the styles of the record up to date with the freshly parsed
    /// `new_styles`.
    pub fn update_styles(&mut self, new_styles: Vec<CssStyle>)
        ensures
            final(self)@.styles == updated_styles(old(self)@.styles, views(new_styles@)),
            final(self)@.id == old(self)@.id,
            final(self)@.file_name == old(self)@.file_name,
            final(self)@.absolute_path == old(self)@.absolute_path,
            final(self)@.last_updated == old(self)@.last_updated,
            final(self)@.imported_sheets == old(self)@.imported_sheets,
    {
        let gathered = gather_styles(&new_styles);
        let ghost news = views(gathered@);
        match self.styles.take() {
            None => {
                if gathered.len() > 0 {
                    self.styles = Some(gathered);
                }
            },
            Some(current) => {
                let mut styles = current;
                let ghost olds = views(styles@);
                let ghost replaced_all = replaced(olds, news);
                let mut claimed: Vec<bool> = Vec::new();
                let mut p: usize = 0;
                while p < gathered.len()
                    invariant
                        p <= gathered.len(),
                        claimed.len() == p,
                        forall|q: int| 0 <= q < p ==> !claimed@[q],
                    decreases gathered.len() - p,
                {
                    claimed.push(false);
                    p += 1;
                }
                let mut i: usize = 0;
                while i < styles.len()
                    invariant
                        i <= styles.len(),
                        styles.len() == olds.len(),
                        news == views(gathered@),
                        news == gathered_by_tag(views(new_styles@)),
                        replaced_all == replaced(olds, news),
                        claimed.len() == gathered.len(),
                        forall|q: int|
                            0 <= q < gathered.len() ==> (claimed@[q] <==> occurs(
                                keys_of(olds.take(i as int)),
                                #[trigger] news[q].tag,
                            )),
                        forall|j: int| 0 <= j < i ==> (#[trigger] styles@[j])@ == replaced_all[j],
                        forall|j: int| i <= j < olds.len() ==> (#[trigger] styles@[j])@ == olds[j],
                    decreases styles.len() - i,
                {
                    let q = find_style(&gathered, &styles[i].tag);
                    proof {
                        lemma_first_index_exists(keys_of(news), olds[i as int].tag);
                        lemma_occurs_extend(olds, i as int);
                        lemma_gathered_tags_distinct(views(new_styles@));
                        assert(forall|a: int|
                            0 <= a < news.len() ==> keys_of(news)[a] == (#[trigger] news[a]).tag);
                    }
                    if q < gathered.len() && !claimed[q] {
                        styles[i].update_or_insert(&gathered[q]);
                        claimed.set(q, true);
                    }
                    i += 1;
                }
                assert(olds.take(i as int) =~= olds);
                let mut p: usize = 0;
                while p < gathered.len()
                    invariant
                        p <= gathered.len(),
                        news == views(gathered@),
                        claimed.len() == gathered.len(),
                        forall|q: int|
                            0 <= q < gathered.len() ==> (claimed@[q] <==> occurs(
                                keys_of(olds),
                                #[trigger] news[q].tag,
                            )),
                        views(styles@) == replaced_all + unclaimed(news.take(p as int), olds),
                    decreases gathered.len() - p,
                {
                    let ghost before = views(styles@);
                    assert(news.take(p + 1).drop_last() =~= news.take(p as int));
                    if !claimed[p] {
                        styles.push(gathered[p].clone());
                        assert(views(styles@) =~= before.push(news[p as int]));
                    }
                    p += 1;
                }
                assert(news.take(p as int) =~= news);
                self.styles = Some(styles);
            },
        }
    }
}

/// The declarations that `styles` make for the selector `tag`, in order.
pub open spec fn declared_in_styles(styles: Seq<CssStyleView>, tag: Seq<char>) -> Seq<
    CssAttributeView,
>
    decreases styles.len(),
{
    if styles.len() == 0 {
        Seq::empty()
    } else if styles.last().tag == tag {
        declared_in_styles(styles.drop_last(), tag) + styles.last().attributes
    } else {
        declared_in_styles(styles.drop_last(), tag)
    }
}

/// The declarations that one record makes for the selector `tag`.
pub open spec fn declared_in_record(record: CssMetaDataView, tag: Seq<char>) -> Seq<
    CssAttributeView,
> {
    match record.styles {
        Some(styles) => declared_in_styles(styles, tag),
        None => Seq::empty(),
    }
}

/// The declarations that `records` make for the selector `tag`: those of the
/// first record, then those of the second, and so on.
pub open spec fn declared(records: Seq<CssMetaDataView>, tag: Seq<char>) -> Seq<CssAttributeView>
    decreases records.len(),
{
    if records.len() == 0 {
        Seq::empty()
    } else {
        declared(records.drop_last(), tag) + declared_in_record(records.last(), tag)
    }
}

/// Whether one of `records` holds a style for the selector `tag`.
pub open spec fn styled(records: Seq<CssMetaDataView>, tag: Seq<char>) -> bool {
    exists|i: int|
        0 <= i < records.len() && (#[trigger] records[i]).styles is Some && occurs(
            keys_of(records[i].styles->0),
            tag,
        )
}

/// `out` is the merge of `records`: one style for each selector that a
/// record styles, in strictly ascending order of the selectors; each holds
/// all the declarations made for its selector, in the order of the
/// declarations themselves: by name, then by values, then by where they come
/// from. The order in which the records make them plays no part.
pub open spec fn is_merge(out: Seq<CssStyleView>, records: Seq<CssMetaDataView>) -> bool {
    &&& strictly_sorted_by_key(out)
    &&& forall|tag: Seq<char>| occurs(keys_of(out), tag) <==> styled(records, tag)
    &&& forall|i: int|
        0 <= i < out.len() ==> (#[trigger] out[i]).attributes == ranking(
            declared(records, out[i].tag),
        )
}

/// The merge of `records`.
pub open spec fn merged(records: Seq<CssMetaDataView>) -> Seq<CssStyleView> {
    choose|out: Seq<CssStyleView>| is_merge(out, records)
}

/// The declarations collected for `tag` in `buckets`.
pub open spec fn bucket_of(buckets: Seq<CssStyleView>, tag: Seq<char>) -> Seq<CssAttributeView> {
    let i = first_index(keys_of(buckets), tag);
    if i < buckets.len() {
        buckets[i].attributes
    } else {
        Seq::empty()
    }
}

/// `buckets` with the declarations of `style` added to the bucket of its
/// selector, which is opened at the end where there is none yet.
pub open spec fn with_style(buckets: Seq<CssStyleView>, style: CssStyleView) -> Seq<CssStyleView> {
    let i = first_index(keys_of(buckets), style.tag);
    if i < buckets.len() {
        buckets.update(
            i,
            CssStyleView { tag: buckets[i].tag, attributes: buckets[i].attributes + style.attributes },
        )
    } else {
        buckets.push(style)
    }
}

/// What adding a style does to the buckets, selector by selector.
pub proof fn lemma_with_style(buckets: Seq<CssStyleView>, style: CssStyleView, tag: Seq<char>)
    requires
        distinct(keys_of(buckets)),
    ensures
        distinct(keys_of(with_style(buckets, style))),
        occurs(keys_of(with_style(buckets, style)), tag) <==> (occurs(keys_of(buckets), tag) || tag
            == style.tag),
        bucket_of(with_style(buckets, style), tag) == bucket_of(buckets, tag) + if tag
            == style.tag {
            style.attributes
        } else {
            Seq::empty()
        },
{
    let after = with_style(buckets, style);
    let keys = keys_of(buckets);
    let keys2 = keys_of(after);
    lemma_first_index_exists(keys, style.tag);
    lemma_first_index_exists(keys, tag);
    lemma_first_index_exists(keys2, tag);
    let p = first_index(keys, style.tag);
    let t = first_index(keys, tag);
    if p < buckets.len() {
        assert(keys2 =~= keys);
    } else {
        assert(forall|j: int| 0 <= j < keys.len() ==> keys2[j] == keys[j]);
        if tag == style.tag {
            lemma_first_index(keys2, tag, keys.len() as int);
        } else {
            if t < keys.len() {
                lemma_first_index(keys2, tag, t);
            } else {
                lemma_first_index(keys2, tag, keys2.len() as int);
            }
        }
    }
}

/// Adds the declarations of `style` to the bucket of its selector.
fn add_style(buckets: &mut Vec<CssStyle>, style: &CssStyle)
    ensures
        views(final(buckets)@) == with_style(views(old(buckets)@), style@),
{
    let ghost before = views(buckets@);
    let p = find_style(buckets, &style.tag);
    if p == buckets.len() {
        buckets.push(style.clone());
    } else {
        let mut k: usize = 0;
        while k < style.attributes.len()
            invariant
                k <= style.attributes.len(),
                p < buckets.len(),
                buckets.len() == before.len(),
                forall|j: int| 0 <= j < buckets.len() && j != p ==> buckets@[j]@ == before[j],
                buckets@[p as int]@.tag == before[p as int].tag,
                buckets@[p as int]@.attributes == before[p as int].attributes
                    + style@.attributes.take(k as int),
            decreases style.attributes.len() - k,
        {
            let ghost so_far = buckets@[p as int]@.attributes;
            buckets[p].attributes.push(style.attributes[k].clone());
            assert(buckets@[p as int]@.attributes =~= so_far.push(style@.attributes[k as int]));
            k += 1;
        }
        assert(style@.attributes.take(k as int) =~= style@.attributes);
    }
}

/// The buckets after all of `styles` have been added, one after the other.
pub open spec fn with_styles(buckets: Seq<CssStyleView>, styles: Seq<CssStyleView>) -> Seq<
    CssStyleView,
>
    decreases styles.len(),
{
    if styles.len() == 0 {
        buckets
    } else {
        with_style(with_styles(buckets, styles.drop_last()), styles.last())
    }
}

/// What adding a run of styles does to the buckets, selector by selector.
pub proof fn lemma_with_styles(buckets: Seq<CssStyleView>, styles: Seq<CssStyleView>, tag: Seq<char>)
    requires
        distinct(keys_of(buckets)),
    ensures
        distinct(keys_of(with_styles(buckets, styles))),
        occurs(keys_of(with_styles(buckets, styles)), tag) <==> (occurs(keys_of(buckets), tag)
            || occurs(keys_of(styles), tag)),
        bucket_of(with_styles(buckets, styles), tag) == bucket_of(buckets, tag)
            + declared_in_styles(styles, tag),
    decreases styles.len(),
{
    if styles.len() > 0 {
        let front = styles.drop_last();
        let mid = with_styles(buckets, front);
        lemma_with_styles(buckets, front, tag);
        lemma_with_style(mid, styles.last(), tag);
        lemma_occurs_extend(styles, styles.len() - 1);
        assert(styles.take(styles.len() as int) =~= styles);
    }
}

/// The buckets after the styles of all of `records` have been added.
pub open spec fn collected(records: Seq<CssMetaDataView>) -> Seq<CssStyleView>
    decreases records.len(),
{
    if records.len() == 0 {
        Seq::empty()
    } else {
        match records.last().styles {
            Some(styles) => with_styles(collected(records.drop_last()), styles),
            None => collected(records.drop_last()),
        }
    }
}

/// The buckets hold, for every selector that a record styles, the
/// declarations that the records make for it.
pub proof fn lemma_collected(records: Seq<CssMetaDataView>, tag: Seq<char>)
    ensures
        distinct(keys_of(collected(records))),
        occurs(keys_of(collected(records)), tag) <==> styled(records, tag),
        bucket_of(collected(records), tag) == declared(records, tag),
    decreases records.len(),
{
    if records.len() == 0 {
        lemma_first_index_exists(keys_of(collected(records)), tag);
        assert(keys_of(collected(records)).len() == 0);
    } else {
        let front = records.drop_last();
        lemma_collected(front, tag);
        let last = records.last();
        if styled(front, tag) {
            let i = choose|i: int|
                0 <= i < front.len() && (#[trigger] front[i]).styles is Some && occurs(
                    keys_of(front[i].styles->0),
                    tag,
                );
            assert(records[i] == front[i]);
        }
        if styled(records, tag) {
            let i = choose|i: int|
                0 <= i < records.len() && (#[trigger] records[i]).styles is Some && occurs(
                    keys_of(records[i].styles->0),
                    tag,
                );
            if i < front.len() {
                assert(front[i] == records[i]);
            }
        }
        match last.styles {
            Some(styles) => {
                lemma_with_styles(collected(front), styles, tag);
                if occurs(keys_of(styles), tag) {
                    assert(records[records.len() - 1].styles is Some);
                }
            },
            None => {
                assert(declared(front, tag) + Seq::empty() =~= declared(front, tag));
            },
        }
    }
}

/// There is one merge of `records`.
pub proof fn lemma_merge_unique(
    a: Seq<CssStyleView>,
    b: Seq<CssStyleView>,
    records: Seq<CssMetaDataView>,
)
    requires
        is_merge(a, records),
        is_merge(b, records),
    ensures
        a == b,
{
    lemma_strict_is_distinct(a);
    lemma_strict_is_distinct(b);
    assert forall|k: Seq<char>| with_key(a, k) == with_key(b, k) by {
        lemma_with_key_distinct(a, k);
        lemma_with_key_distinct(b, k);
        lemma_first_index_exists(keys_of(a), k);
        lemma_first_index_exists(keys_of(b), k);
        assert(occurs(keys_of(b), k) <==> styled(records, k));
    }
    lemma_sorted_unique(a, b);
}

/// Styles in strictly ascending order are sorted, and no selector stands
/// twice among them.
pub proof fn lemma_strict_is_distinct(s: Seq<CssStyleView>)
    requires
        strictly_sorted_by_key(s),
    ensures
        sorted_by_key(s),
        distinct(keys_of(s)),
{
    assert forall|i: int, j: int| 0 <= i < j < keys_of(s).len() implies keys_of(s)[i] != keys_of(
        s,
    )[j] by {
        lemma_text_order(s[i].key(), s[j].key(), s[i].key());
    }
}

/// Merges the styles of several stylesheets into one list: one style for
/// each selector, in ascending order of the selectors, with all declarations
/// made for it, sorted by name, and those of one name by their values.
pub fn merge_css_metadata(metadata_files: &Vec<CssMetaData>) -> (r: Vec<CssStyle>)
    ensures
        views(r@) == merged(views(metadata_files@)),
        is_merge(views(r@), views(metadata_files@)),
        strictly_sorted_by_key(views(r@)),
        forall|i: int| 0 <= i < r.len() ==> sorted_by_key((#[trigger] views(r@)[i]).attributes),
{
    let ghost records = views(metadata_files@);
    let mut buckets: Vec<CssStyle> = Vec::new();
    let mut i: usize = 0;
    while i < metadata_files.len()
        invariant
            i <= metadata_files.len(),
            records == views(metadata_files@),
            views(buckets@) == collected(records.take(i as int)),
        decreases metadata_files.len() - i,
    {
        assert(records.take(i + 1).drop_last() =~= records.take(i as int));
        if let Some(styles) = &metadata_files[i].styles {
            let ghost start = views(buckets@);
            let mut j: usize = 0;
            while j < styles.len()
                invariant
                    j <= styles.len(),
                    views(buckets@) == with_styles(start, views(styles@).take(j as int)),
                decreases styles.len() - j,
            {
                add_style(&mut buckets, &styles[j]);
                j += 1;
                assert(views(styles@).take(j as int).drop_last() =~= views(styles@).take(j - 1));
            }
            assert(views(styles@).take(j as int) =~= views(styles@));
        }
        i += 1;
    }
    assert(records.take(i as int) =~= records);
    let ghost all = views(buckets@);
    let ghost n = all.len() as int;
    let mut styles: Vec<CssStyle> = Vec::new();
    while buckets.len() > 0
        invariant
            all.len() == n,
            styles.len() + buckets.len() == n,
            views(buckets@) == all.take(buckets.len() as int),
            forall|j: int|
                0 <= j < styles.len() ==> (#[trigger] styles@[j])@.tag == all[n - 1 - j].tag
                    && styles@[j]@.attributes == ranking(all[n - 1 - j].attributes),
        decreases buckets.len(),
    {
        let ghost m = buckets.len() as int;
        let bucket = buckets.pop().unwrap();
        assert(bucket@ == all[m - 1]) by {
            assert(all.take(m)[m - 1] == all[m - 1]);
        }
        let CssStyle { tag, attributes } = bucket;
        let sorted = rank_sort(attributes);
        styles.push(CssStyle { tag, attributes: sorted });
    }
    let ghost unsorted = views(styles@);
    let out = sort_by_key(styles);
    proof {
        let result = views(out@);
        assert(forall|j: int| 0 <= j < n ==> keys_of(unsorted)[j] == keys_of(all)[n - 1 - j]);
        assert(distinct(keys_of(unsorted))) by {
            lemma_collected(records, Seq::empty());
        }
        lemma_sort_distinct(result, unsorted);
        assert forall|tag: Seq<char>| occurs(keys_of(result), tag) <==> styled(
            records,
            tag,
        ) by {
            lemma_collected(records, tag);
            if occurs(keys_of(result), tag) {
                let a = choose|a: int| 0 <= a < keys_of(result).len() && keys_of(result)[a] == tag;
                assert(result.contains(result[a]));
                let b = choose|b: int| 0 <= b < unsorted.len() && unsorted[b] == result[a];
                assert(keys_of(all)[n - 1 - b] == tag);
            }
            if styled(records, tag) {
                let c = choose|c: int| 0 <= c < keys_of(all).len() && keys_of(all)[c] == tag;
                assert(unsorted.contains(unsorted[n - 1 - c]));
                let a = choose|a: int| 0 <= a < result.len() && result[a] == unsorted[n - 1 - c];
                assert(keys_of(result)[a] == tag);
            }
        }
        assert forall|a: int| 0 <= a < result.len() implies (#[trigger] result[a]).attributes
            == ranking(declared(records, result[a].tag)) by {
            let tag = result[a].tag;
            assert(result.contains(result[a]));
            let b = choose|b: int| 0 <= b < unsorted.len() && unsorted[b] == result[a];
            let c = n - 1 - b;
            lemma_collected(records, tag);
            assert(keys_of(all)[c] == tag);
            assert(is_first_index(keys_of(all), tag, c)) by {
                assert forall|j: int| 0 <= j < c implies keys_of(all)[j] != tag by {
                }
            }
            lemma_first_index(keys_of(all), tag, c);
        }
        assert(is_merge(result, records));
        let chosen = merged(records);
        lemma_merge_unique(result, chosen, records);
        assert forall|a: int| 0 <= a < result.len() implies sorted_by_key(
            (#[trigger] result[a]).attributes,
        ) by {
            lemma_ranking_exists(declared(records, result[a].tag));
            lemma_ranked_by_name(result[a].attributes);
        }
    }
    out
}

/// One line of a block: a declaration of `value` for the property `name`.
/// The line that closes the block ends without the tab that indents the
/// next one.
pub open spec fn declaration_text(name: Seq<char>, value: Seq<char>, closes: bool) -> Seq<char> {
    name + ": "@ + value + if closes {
        ";\n"@
    } else {
        ";\n\t"@
    }
}

/// The lines of one attribute: one for each of its values. Where `closes`
/// is set, the last of them closes the block.
pub open spec fn values_text(name: Seq<char>, values: Seq<Seq<char>>, closes: bool) -> Seq<char>
    decreases values.len(),
{
    if values.len() == 0 {
        Seq::empty()
    } else {
        values_text(name, values.drop_last(), false) + declaration_text(
            name,
            values.last(),
            closes,
        )
    }
}

/// The lines of a run of attributes. Where `closes` is set, the last line
/// of the last attribute closes the block.
pub open spec fn attributes_text(attributes: Seq<CssAttributeView>, closes: bool) -> Seq<char>
    decreases attributes.len(),
{
    if attributes.len() == 0 {
        Seq::empty()
    } else {
        attributes_text(attributes.drop_last(), false) + values_text(
            attributes.last().name,
            attributes.last().values,
            closes,
        )
    }
}

/// The block of one style: the selector and an opening brace, one indented
/// line for each declared value, and the closing brace.
pub open spec fn style_text(style: CssStyleView) -> Seq<char> {
    style.tag + " {\n\t"@ + attributes_text(style.attributes, true) + "}\n"@
}

/// The CSS text of a run of styles: their blocks, one after the other.
pub open spec fn css_text(styles: Seq<CssStyleView>) -> Seq<char>
    decreases styles.len(),
{
    if styles.len() == 0 {
        Seq::empty()
    } else {
        css_text(styles.drop_last()) + style_text(styles.last())
    }
}

/// Appends the lines of one attribute to `text`.
fn write_values(text: &mut String, attribute: &CssAttribute, closes: bool)
    ensures
        final(text)@ == old(text)@ + values_text(attribute@.name, attribute@.values, closes),
{
    let ghost start = text@;
    let ghost values = attribute@.values;
    let mut v: usize = 0;
    while v < attribute.values.len()
        invariant
            v <= attribute.values.len(),
            values == attribute@.values,
            values.len() == attribute.values.len(),
            v < attribute.values.len() ==> text@ == start + values_text(
                attribute@.name,
                values.take(v as int),
                false,
            ),
            v == attribute.values.len() ==> text@ == start + values_text(
                attribute@.name,
                values,
                closes,
            ),
        decreases attribute.values.len() - v,
    {
        let last = closes && v == attribute.values.len() - 1;
        text.append(attribute.name.as_str());
        text.append(": ");
        text.append(attribute.values[v].as_str());
        if last {
            text.append(";\n");
        } else {
            text.append(";\n\t");
        }
        v += 1;
        assert(values.take(v as int).drop_last() =~= values.take(v - 1));
    }
}

/// Appends the block of one style to `text`.
fn write_style(text: &mut String, style: &CssStyle)
    ensures
        final(text)@ == old(text)@ + style_text(style@),
{
    let ghost attributes = style@.attributes;
    text.append(style.tag.as_str());
    text.append(" {\n\t");
    let ghost opened = text@;
    let mut a: usize = 0;
    while a < style.attributes.len()
        invariant
            a <= style.attributes.len(),
            attributes == style@.attributes,
            attributes.len() == style.attributes.len(),
            a < style.attributes.len() ==> text@ == opened + attributes_text(
                attributes.take(a as int),
                false,
            ),
            a == style.attributes.len() ==> text@ == opened + attributes_text(attributes, true),
        decreases style.attributes.len() - a,
    {
        let last = a == style.attributes.len() - 1;
        write_values(text, &style.attributes[a], last);
        a += 1;
        assert(attributes.take(a as int).drop_last() =~= attributes.take(a - 1));
    }
    text.append("}\n");
}

/// Renders a run of styles as CSS text.
pub fn write_styles(styles: &Vec<CssStyle>) -> (r: String)
    ensures
        r@ == css_text(views(styles@)),
{
    let ghost all = views(styles@);
    let mut text = String::new();
    let mut i: usize = 0;
    while i < styles.len()
        invariant
            i <= styles.len(),
            all == views(styles@),
            text@ == css_text(all.take(i as int)),
        decreases styles.len() - i,
    {
        write_style(&mut text, &styles[i]);
        i += 1;
        assert(all.take(i as int).drop_last() =~= all.take(i - 1));
    }
    assert(all.take(i as int) =~= all);
    text
}

/// The CSS text of the merge of several stylesheets: for each style the
/// selector and an opening brace, one line for each declared value, and the
/// closing brace.
pub fn generate_css_string(css_metadatas: &Vec<CssMetaData>) -> (r: String)
    ensures
        r@ == css_text(merged(views(css_metadatas@))),
{
    let merged_metadata = merge_css_metadata(css_metadatas);
    write_styles(&merged_metadata)
}

/// The records of `records` whose stylesheet is one of `paths`, in order.
pub open spec fn records_of(records: Seq<CssMetaDataView>, paths: Seq<Seq<char>>) -> Seq<
    CssMetaDataView,
>
    decreases records.len(),
{
    if records.len() == 0 {
        Seq::empty()
    } else if names_path(paths, records.last().absolute_path) {
        records_of(records.drop_last(), paths).push(records.last())
    } else {
        records_of(records.drop_last(), paths)
    }
}

/// Picks from the records `metadata_files` those of the stylesheets at
/// `file_paths`; `None` where there is none.
pub fn get_metadata_files(file_paths: &Vec<String>, metadata_files: Vec<CssMetaData>) -> (r: Option<
    Vec<CssMetaData>,
>)
    ensures
        match r {
            Some(found) => views(found@) == records_of(views(metadata_files@), texts(file_paths@))
                && found.len() > 0,
            None => records_of(views(metadata_files@), texts(file_paths@)).len() == 0,
        },
{
    let ghost all = views(metadata_files@);
    let ghost paths = texts(file_paths@);
    let mut found: Vec<CssMetaData> = Vec::new();
    let mut i: usize = 0;
    while i < metadata_files.len()
        invariant
            i <= metadata_files.len(),
            all == views(metadata_files@),
            paths == texts(file_paths@),
            views(found@) == records_of(all.take(i as int), paths),
        decreases metadata_files.len() - i,
    {
        assert(all.take(i + 1).drop_last() =~= all.take(i as int));
        if names_same_path(file_paths, metadata_files[i].absolute_path.as_str()) {
            found.push(metadata_files[i].clone());
        }
        i += 1;
    }
    assert(all.take(i as int) =~= all);
    if found.len() > 0 {
        Some(found)
    } else {
        None
    }
}

/// Gathering leaves one style for each selector.
pub proof fn lemma_gathered_tags_distinct(styles: Seq<CssStyleView>)
    ensures
        distinct(keys_of(gathered_by_tag(styles))),
    decreases styles.len(),
{
    if styles.len() > 0 {
        let before = gathered_by_tag(styles.drop_last());
        let after = gathered_by_tag(styles);
        let tag = styles.last().tag;
        lemma_gathered_tags_distinct(styles.drop_last());
        lemma_first_index_exists(keys_of(before), tag);
        let i = first_index(keys_of(before), tag);
        assert forall|a: int, b: int| 0 <= a < b < keys_of(after).len() implies keys_of(after)[a]
            != keys_of(after)[b] by {
            if i < before.len() {
                assert(keys_of(after)[a] == keys_of(before)[a]);
                assert(keys_of(after)[b] == keys_of(before)[b]);
            } else {
                assert(keys_of(after)[a] == keys_of(before)[a]);
                if b < before.len() {
                    assert(keys_of(after)[b] == keys_of(before)[b]);
                }
            }
        }
    }
}

} // verus!

//! One rule of a stylesheet: a selector and its declarations.

use vstd::prelude::*;
use super::css_attribute::{CssAttribute, CssAttributeView};
use crate::keyed::{
    keys_of, lemma_occurs_extend, lemma_unclaimed_distinct, lemma_unclaimed_keys, unclaimed, views,
    Keyed, SortKey,
};
use crate::text::{
    distinct, first_index, lemma_first_index, lemma_first_index_exists, lemma_texts_push, occurs,
    texts,
};

verus! {

/// A rule: the element it selects and the declarations it makes.
#[derive(Debug, PartialEq)]
pub struct CssStyle {
    pub tag: String,
    pub attributes: Vec<CssAttribute>,
}

/// What a `CssStyle` holds, as mathematical values.
pub struct CssStyleView {
    pub tag: Seq<char>,
    pub attributes: Seq<CssAttributeView>,
}

impl Keyed for CssStyleView {
    /// A style is found and ordered by its selector.
    open spec fn key(self) -> Seq<char> {
        self.tag
    }
}

impl SortKey for CssStyle {
    fn sort_key(&self) -> (r: &String) {
        &self.tag
    }
}

impl View for CssStyle {
    type V = CssStyleView;

    open spec fn view(&self) -> CssStyleView {
        CssStyleView { tag: self.tag@, attributes: views(self.attributes@) }
    }
}

/// A copy of a run of attributes.
pub fn clone_attributes(attributes: &Vec<CssAttribute>) -> (r: Vec<CssAttribute>)
    ensures
        views(r@) == views(attributes@),
{
    let mut out: Vec<CssAttribute> = Vec::new();
    let mut i: usize = 0;
    while i < attributes.len()
        invariant
            i <= attributes.len(),
            out.len() == i,
            forall|j: int| 0 <= j < i ==> out@[j]@ == attributes@[j]@,
        decreases attributes.len() - i,
    {
        out.push(attributes[i].clone());
        i += 1;
    }
    out
}

impl CssAttributeView {
    /// An attribute of the given name that declares nothing yet.
    pub open spec fn blank(name: Seq<char>) -> CssAttributeView {
        CssAttributeView { name, values: Seq::empty(), source: None, is_overwritten: None }
    }

    /// The attribute after a further declaration of the same property has
    /// been added to it: the values follow the ones already there, the
    /// provenance fields are taken over where the declaration sets them.
    pub open spec fn joined(self, more: CssAttributeView) -> CssAttributeView {
        CssAttributeView {
            name: self.name,
            values: self.values + more.values,
            source: if more.source is Some {
                more.source
            } else {
                self.source
            },
            is_overwritten: if more.is_overwritten is Some {
                more.is_overwritten
            } else {
                self.is_overwritten
            },
        }
    }
}

/// `gathered` with one more declaration taken in: joined to the attribute of
/// its name where there is one, else added at the end.
pub open spec fn absorb(
    gathered: Seq<CssAttributeView>,
    attribute: CssAttributeView,
) -> Seq<CssAttributeView> {
    let i = first_index(keys_of(gathered), attribute.name);
    if i < gathered.len() {
        gathered.update(i, gathered[i].joined(attribute))
    } else {
        gathered.push(CssAttributeView::blank(attribute.name).joined(attribute))
    }
}

/// The declarations of `attributes` gathered by name: one attribute for each
/// name, in the order in which the names first occur, holding all the values
/// declared under that name.
pub open spec fn gathered_by_name(attributes: Seq<CssAttributeView>) -> Seq<CssAttributeView>
    decreases attributes.len(),
{
    if attributes.len() == 0 {
        Seq::empty()
    } else {
        absorb(gathered_by_name(attributes.drop_last()), attributes.last())
    }
}

/// The attributes `olds` after the gathered attributes `news` have been
/// written over them: the first attribute of each name that `news` holds is
/// overwritten, all others stay as they are.
pub open spec fn rewritten(
    olds: Seq<CssAttributeView>,
    news: Seq<CssAttributeView>,
) -> Seq<CssAttributeView> {
    Seq::new(
        olds.len(),
        |i: int|
            if occurs(keys_of(news), olds[i].name) && !occurs(
                keys_of(olds.take(i)),
                olds[i].name,
            ) {
                olds[i].overwritten_by(news[first_index(keys_of(news), olds[i].name)])
            } else {
                olds[i]
            },
    )
}

/// The attributes of a style after an update with `news`: the declarations
/// of `news` are gathered by name, written over the attributes of the same
/// name, and those of new names are added at the end.
pub open spec fn updated_attributes(
    olds: Seq<CssAttributeView>,
    news: Seq<CssAttributeView>,
) -> Seq<CssAttributeView> {
    let gathered = gathered_by_name(news);
    rewritten(olds, gathered) + unclaimed(gathered, olds)
}

/// Gathering leaves one attribute for each name.
pub proof fn lemma_gathered_distinct(attributes: Seq<CssAttributeView>)
    ensures
        distinct(keys_of(gathered_by_name(attributes))),
    decreases attributes.len(),
{
    if attributes.len() > 0 {
        let before = gathered_by_name(attributes.drop_last());
        let after = gathered_by_name(attributes);
        let name = attributes.last().name;
        lemma_gathered_distinct(attributes.drop_last());
        lemma_first_index_exists(keys_of(before), name);
        let i = first_index(keys_of(before), name);
        assert forall|a: int, b: int| 0 <= a < b < keys_of(after).len() implies keys_of(after)[a]
            != keys_of(after)[b] by {
            if i < before.len() {
                assert(keys_of(after)[a] == keys_of(before)[a]);
                assert(keys_of(after)[b] == keys_of(before)[b]);
            } else {
                assert(keys_of(after)[a] == keys_of(before)[a]);
                if b < before.len() {
                    assert(keys_of(after)[b] == keys_of(before)[b]);
                }
            }
        }
    }
}

/// Every attribute of `attributes` has a value.
pub open spec fn have_values(attributes: Seq<CssAttributeView>) -> bool {
    forall|i: int| 0 <= i < attributes.len() ==> (#[trigger] attributes[i]).values.len() > 0
}

/// Where every declaration has a value, every gathered attribute has one.
pub proof fn lemma_gathered_have_values(attributes: Seq<CssAttributeView>)
    requires
        have_values(attributes),
    ensures
        have_values(gathered_by_name(attributes)),
    decreases attributes.len(),
{
    if attributes.len() > 0 {
        let front = attributes.drop_last();
        assert forall|i: int| 0 <= i < front.len() implies (#[trigger] front[i]).values.len()
            > 0 by {
        }
        lemma_gathered_have_values(front);
        let before = gathered_by_name(front);
        let after = gathered_by_name(attributes);
        let last = attributes.last();
        lemma_first_index_exists(keys_of(before), last.name);
        assert forall|i: int| 0 <= i < after.len() implies (#[trigger] after[i]).values.len()
            > 0 by {
        }
    }
}

/// A style in which no name stands twice stays so through an update.
pub proof fn lemma_update_keeps_names_distinct(
    olds: Seq<CssAttributeView>,
    news: Seq<CssAttributeView>,
)
    requires
        distinct(keys_of(olds)),
    ensures
        distinct(keys_of(updated_attributes(olds, news))),
{
    let gathered = gathered_by_name(news);
    let front = rewritten(olds, gathered);
    let back = unclaimed(gathered, olds);
    let all = updated_attributes(olds, news);
    lemma_gathered_distinct(news);
    lemma_unclaimed_distinct(gathered, olds);
    assert forall|i: int, j: int| 0 <= i < j < keys_of(all).len() implies keys_of(all)[i]
        != keys_of(all)[j] by {
        if j < front.len() {
            assert(keys_of(all)[i] == keys_of(olds)[i]);
            assert(keys_of(all)[j] == keys_of(olds)[j]);
        } else if i >= front.len() {
            assert(keys_of(all)[i] == keys_of(back)[i - front.len()]);
            assert(keys_of(all)[j] == keys_of(back)[j - front.len()]);
        } else {
            assert(keys_of(all)[i] == keys_of(olds)[i]);
            assert(keys_of(all)[j] == keys_of(back)[j - front.len()]);
            lemma_unclaimed_keys(gathered, olds, keys_of(all)[j]);
        }
    }
}

/// The position of the first attribute named `name`; the length of the list
/// where there is none.
pub fn find_attribute(attributes: &Vec<CssAttribute>, name: &String) -> (r: usize)
    ensures
        r == first_index(keys_of(views(attributes@)), name@),
        r <= attributes.len(),
        (r < attributes.len()) == occurs(keys_of(views(attributes@)), name@),
{
    let ghost names = keys_of(views(attributes@));
    let mut i: usize = 0;
    while i < attributes.len()
        invariant
            i <= attributes.len(),
            names == keys_of(views(attributes@)),
            forall|j: int| 0 <= j < i ==> names[j] != name@,
        decreases attributes.len() - i,
    {
        if attributes[i].name == *name {
            proof {
                lemma_first_index(names, name@, i as int);
            }
            return i;
        }
        i += 1;
    }
    proof {
        lemma_first_index(names, name@, i as int);
    }
    i
}

/// Gathers the declarations of `attributes` by name.
pub fn gather_attributes(attributes: &Vec<CssAttribute>) -> (r: Vec<CssAttribute>)
    ensures
        views(r@) == gathered_by_name(views(attributes@)),
{
    let ghost all = views(attributes@);
    let mut gathered: Vec<CssAttribute> = Vec::new();
    let mut i: usize = 0;
    while i < attributes.len()
        invariant
            i <= attributes.len(),
            all == views(attributes@),
            views(gathered@) == gathered_by_name(all.take(i as int)),
        decreases attributes.len() - i,
    {
        let attribute = &attributes[i];
        let p = find_attribute(&gathered, &attribute.name);
        let mut entry = if p < gathered.len() {
            gathered[p].clone()
        } else {
            let mut blank = CssAttribute::new();
            blank.name = attribute.name.clone();
            blank
        };
        let mut k: usize = 0;
        let ghost start = entry@;
        while k < attribute.values.len()
            invariant
                k <= attribute.values.len(),
                entry@.name == start.name,
                entry@.source == start.source,
                entry@.is_overwritten == start.is_overwritten,
                entry@.values == start.values + texts(attribute.values@).take(k as int),
            decreases attribute.values.len() - k,
        {
            proof {
                lemma_texts_push(entry.values@, attribute.values@[k as int]);
            }
            entry.values.push(attribute.values[k].clone());
            k += 1;
        }
        assert(texts(attribute.values@).take(k as int) =~= texts(attribute.values@));
        if let Some(source) = attribute.source {
            entry.source = Some(source);
        }
        if let Some(is_overwritten) = attribute.is_overwritten {
            entry.is_overwritten = Some(is_overwritten);
        }
        if p < gathered.len() {
            gathered.set(p, entry);
        } else {
            gathered.push(entry);
        }
        i += 1;
        assert(all.take(i as int).drop_last() =~= all.take(i - 1));
    }
    assert(all.take(i as int) =~= all);
    gathered
}

impl Clone for CssStyle {
    fn clone(&self) -> (r: Self)
        ensures
            r@ == self@,
    {
        CssStyle { tag: self.tag.clone(), attributes: clone_attributes(&self.attributes) }
    }
}

impl CssStyle {
    /// A style without a selector and without declarations.
    pub fn new() -> (r: CssStyle)
        ensures
            r@ == (CssStyleView { tag: Seq::empty(), attributes: Seq::empty() }),
    {
        let r = CssStyle { tag: String::new(), attributes: Vec::new() };
        assert(views(r.attributes@) =~= Seq::empty());
        r
    }

    /// Updates the declarations of this style with `new_attributes`: they
    /// are gathered by name; the first attribute of each name that they
    /// declare is overwritten; attributes of names that the style did not
    /// have are added at the end, in the order of their first declaration.
    pub fn update_attributes(&mut self, new_attributes: Vec<CssAttribute>)
        ensures
            final(self)@.tag == old(self)@.tag,
            final(self)@.attributes == updated_attributes(
                old(self)@.attributes,
                views(new_attributes@),
            ),
    {
        let gathered = gather_attributes(&new_attributes);
        let ghost olds = views(self.attributes@);
        let ghost news = views(gathered@);
        let ghost rewritten_all = rewritten(olds, news);
        let mut claimed: Vec<bool> = Vec::new();
        let mut p: usize = 0;
        while p < gathered.len()
            invariant
                p <= gathered.len(),
                claimed.len() == p,
                forall|q: int| 0 <= q < p ==> !claimed@[q],
            decreases gathered.len() - p,
        {
            claimed.push(false);
            p += 1;
        }
        let mut i: usize = 0;
        while i < self.attributes.len()
            invariant
                i <= self.attributes.len(),
                self.tag == old(self).tag,
                self.attributes.len() == olds.len(),
                news == views(gathered@),
                news == gathered_by_name(views(new_attributes@)),
                rewritten_all == rewritten(olds, news),
                claimed.len() == gathered.len(),
                forall|q: int|
                    0 <= q < gathered.len() ==> (claimed@[q] <==> occurs(
                        keys_of(olds.take(i as int)),
                        #[trigger] news[q].name,
                    )),
                forall|j: int| 0 <= j < i ==> (#[trigger] self.attributes@[j])@ == rewritten_all[j],
                forall|j: int| i <= j < olds.len() ==> (#[trigger] self.attributes@[j])@ == olds[j],
            decreases self.attributes.len() - i,
        {
            let q = find_attribute(&gathered, &self.attributes[i].name);
            proof {
                lemma_first_index_exists(keys_of(news), olds[i as int].name);
                lemma_occurs_extend(olds, i as int);
                lemma_gathered_distinct(views(new_attributes@));
                assert(forall|a: int|
                    0 <= a < news.len() ==> keys_of(news)[a] == (#[trigger] news[a]).name);
            }
            if q < gathered.len() && !claimed[q] {
                let mut updated = self.attributes[i].clone();
                updated.update_or_insert(&gathered[q]);
                self.attributes.set(i, updated);
                claimed.set(q, true);
            }
            i += 1;
        }
        assert(olds.take(i as int) =~= olds);
        let mut p: usize = 0;
        while p < gathered.len()
            invariant
                p <= gathered.len(),
                self.tag == old(self).tag,
                news == views(gathered@),
                claimed.len() == gathered.len(),
                forall|q: int|
                    0 <= q < gathered.len() ==> (claimed@[q] <==> occurs(
                        keys_of(olds),
                        #[trigger] news[q].name,
                    )),
                views(self.attributes@) == rewritten_all + unclaimed(
                    news.take(p as int),
                    olds,
                ),
            decreases gathered.len() - p,
        {
            let ghost before = views(self.attributes@);
            assert(news.take(p + 1).drop_last() =~= news.take(p as int));
            if !claimed[p] {
                self.attributes.push(gathered[p].clone());
                assert(views(self.attributes@) =~= before.push(news[p as int]));
            }
            p += 1;
        }
        assert(news.take(p as int) =~= news);
    }

    /// Replaces the declarations of this style by those of `new_attribute`.
    pub fn update_or_insert(&mut self, new_attribute: &CssStyle)
        ensures
            final(self)@ == (CssStyleView {
                tag: old(self)@.tag,
                attributes: new_attribute@.attributes,
            }),
    {
        self.attributes = clone_attributes(&new_attribute.attributes);
    }
}

} // verus!

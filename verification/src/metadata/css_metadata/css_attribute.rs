//! One declaration of a style: a property with the values given to it.

use vstd::prelude::*;
use crate::keyed::{Keyed, SortKey};
use crate::ranked::{ranked, Ranked, RankedExec};
use crate::sorting::sorted_by_key;
use crate::text::{
    clone_strings, lemma_text_order, lemma_texts_order, str_lt, strings_lt, text_le, text_lt,
    texts, texts_lt,
};

verus! {

/// A declared property. Several values stand for successive declarations of
/// the same property in one rule; the last one is the one that styles.
#[derive(Debug, PartialEq)]
pub struct CssAttribute {
    pub name: String,
    pub values: Vec<String>,
    /// The file the declaration was imported from; `None` where the file
    /// declares it itself.
    pub source: Option<u32>,
    /// `None` for a declaration that is no import, `Some(false)` for an
    /// import left as it was, `Some(true)` for one overridden locally.
    pub is_overwritten: Option<bool>,
}

/// What a `CssAttribute` holds, as mathematical values.
pub struct CssAttributeView {
    pub name: Seq<char>,
    pub values: Seq<Seq<char>>,
    pub source: Option<u32>,
    pub is_overwritten: Option<bool>,
}

impl View for CssAttribute {
    type V = CssAttributeView;

    open spec fn view(&self) -> CssAttributeView {
        CssAttributeView {
            name: self.name@,
            values: texts(self.values@),
            source: self.source,
            is_overwritten: self.is_overwritten,
        }
    }
}

impl Keyed for CssAttributeView {
    /// A declaration is found and ordered by the name of its property.
    open spec fn key(self) -> Seq<char> {
        self.name
    }
}

impl SortKey for CssAttribute {
    fn sort_key(&self) -> (r: &String) {
        &self.name
    }
}

/// The order of two provenances: a declaration of the file's own comes
/// before an imported one, and imports are ordered by the file they come
/// from.
pub open spec fn source_before(a: Option<u32>, b: Option<u32>) -> bool {
    match (a, b) {
        (None, Some(_)) => true,
        (Some(x), Some(y)) => x < y,
        _ => false,
    }
}

/// The order of two override marks: no mark, then `false`, then `true`.
pub open spec fn mark_before(a: Option<bool>, b: Option<bool>) -> bool {
    match (a, b) {
        (None, Some(_)) => true,
        (Some(x), Some(y)) => !x && y,
        _ => false,
    }
}

impl Ranked for CssAttributeView {
    /// Declarations are ordered by the name of the property, those of one
    /// name by their values, and those that agree in both by where they come
    /// from and by whether they were overridden.
    open spec fn before(self, other: CssAttributeView) -> bool {
        if self.name != other.name {
            text_lt(self.name, other.name)
        } else if self.values != other.values {
            texts_lt(self.values, other.values)
        } else if self.source != other.source {
            source_before(self.source, other.source)
        } else {
            mark_before(self.is_overwritten, other.is_overwritten)
        }
    }

    proof fn lemma_before(a: CssAttributeView, b: CssAttributeView, c: CssAttributeView) {
        lemma_text_order(a.name, b.name, c.name);
        lemma_text_order(b.name, a.name, c.name);
        lemma_texts_order(a.values, b.values, c.values);
        lemma_texts_order(b.values, a.values, c.values);
    }
}

/// Declarations in their order are sorted by name.
pub proof fn lemma_ranked_by_name(s: Seq<CssAttributeView>)
    requires
        ranked(s),
    ensures
        sorted_by_key(s),
{
    assert forall|i: int, j: int| 0 <= i < j < s.len() implies text_le(s[i].key(), s[j].key()) by {
        assert(s[i] == s[j] || s[i].before(s[j]));
    }
}

impl RankedExec for CssAttribute {
    fn precedes(&self, other: &CssAttribute) -> (r: bool) {
        proof {
            lemma_text_order(self@.name, other@.name, self@.name);
            lemma_texts_order(self@.values, other@.values, self@.values);
        }
        if str_lt(self.name.as_str(), other.name.as_str()) {
            true
        } else if str_lt(other.name.as_str(), self.name.as_str()) {
            false
        } else if strings_lt(&self.values, &other.values) {
            true
        } else if strings_lt(&other.values, &self.values) {
            false
        } else if source_precedes(self.source, other.source) {
            true
        } else if source_precedes(other.source, self.source) {
            false
        } else {
            mark_precedes(self.is_overwritten, other.is_overwritten)
        }
    }
}

/// Whether the provenance `a` comes before `b`.
fn source_precedes(a: Option<u32>, b: Option<u32>) -> (r: bool)
    ensures
        r == source_before(a, b),
{
    match (a, b) {
        (None, Some(_)) => true,
        (Some(x), Some(y)) => x < y,
        _ => false,
    }
}

/// Whether the override mark `a` comes before `b`.
fn mark_precedes(a: Option<bool>, b: Option<bool>) -> (r: bool)
    ensures
        r == mark_before(a, b),
{
    match (a, b) {
        (None, Some(_)) => true,
        (Some(x), Some(y)) => !x && y,
        _ => false,
    }
}

impl CssAttributeView {
    /// The attribute after `new_attribute` has been written over it: the new
    /// values replace the old ones, the provenance fields only where the new
    /// attribute sets them.
    pub open spec fn overwritten_by(self, new_attribute: CssAttributeView) -> CssAttributeView {
        CssAttributeView {
            name: self.name,
            values: new_attribute.values,
            source: if new_attribute.source is Some {
                new_attribute.source
            } else {
                self.source
            },
            is_overwritten: if new_attribute.is_overwritten is Some {
                new_attribute.is_overwritten
            } else {
                self.is_overwritten
            },
        }
    }
}

impl Clone for CssAttribute {
    fn clone(&self) -> (r: Self)
        ensures
            r@ == self@,
    {
        CssAttribute {
            name: self.name.clone(),
            values: clone_strings(&self.values),
            source: self.source,
            is_overwritten: self.is_overwritten,
        }
    }
}

impl CssAttribute {
    /// An attribute without a name and without values.
    pub fn new() -> (r: CssAttribute)
        ensures
            r@ == (CssAttributeView {
                name: Seq::empty(),
                values: Seq::empty(),
                source: None,
                is_overwritten: None,
            }),
    {
        let r = CssAttribute {
            name: String::new(),
            values: Vec::new(),
            source: None,
            is_overwritten: None,
        };
        assert(texts(r.values@) =~= Seq::empty());
        r
    }

    /// Writes `new_attribute` over this one, keeping the name.
    pub fn update_or_insert(&mut self, new_attribute: &CssAttribute)
        ensures
            final(self)@ == old(self)@.overwritten_by(new_attribute@),
    {
        if let Some(source) = new_attribute.source {
            self.source = Some(source);
        }
        if let Some(is_overwritten) = new_attribute.is_overwritten {
            self.is_overwritten = Some(is_overwritten);
        }
        self.values = clone_strings(&new_attribute.values);
    }
}

} // verus!

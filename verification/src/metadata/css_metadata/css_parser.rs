//! The grammar of stylesheets, on the tokens that `cssparser` hands out: a
//! rule is a selector followed by a block; a block holds declarations, each a
//! property name, a colon and a value that ends at a semicolon. Whatever
//! does not fit is passed over.

use cssparser::{ParseError, Parser, ParserInput};
use vstd::prelude::*;
use super::css_attribute::{CssAttribute, CssAttributeView};
use super::css_style::{
    gather_attributes, gathered_by_name, have_values, lemma_gathered_distinct,
    lemma_gathered_have_values, CssStyle, CssStyleView,
};
use super::css_token::{
    css_nodes, pending_nodes, read_nodes, CssNode, CssNodeView, CssToken, CssTokenView,
};
use crate::keyed::{views, Keyed};
use crate::sorting::{
    lemma_sort_distinct, lemma_with_key_contains, sort_by_key, sorted_by_key, stable_sort,
    strictly_sorted_by_key,
};
use crate::text::texts;

verus! {

/// The value that a run of tokens denotes: an identifier stands for itself
/// and overrides what came before it; a dimension adds its number and its
/// unit to what came before it; other tokens add nothing.
pub open spec fn value_text(tokens: Seq<CssTokenView>) -> Seq<char>
    decreases tokens.len(),
{
    if tokens.len() == 0 {
        Seq::empty()
    } else {
        match tokens.last() {
            CssTokenView::Ident(name) => name,
            CssTokenView::Dimension { value, unit } => value_text(tokens.drop_last()) + value
                + unit,
            _ => value_text(tokens.drop_last()),
        }
    }
}

/// The number of tokens from `start` up to the next semicolon, or up to the
/// end where none follows.
pub open spec fn value_len(tokens: Seq<CssTokenView>, start: int) -> nat
    decreases tokens.len() - start,
{
    if start < 0 || start >= tokens.len() || tokens[start] is Semicolon {
        0
    } else {
        1 + value_len(tokens, start + 1)
    }
}

/// The position behind the value that starts at `start`: behind the
/// semicolon that ends it, or the end of the tokens where none does.
pub open spec fn value_stop(tokens: Seq<CssTokenView>, start: int) -> int {
    if start + value_len(tokens, start) < tokens.len() {
        start + value_len(tokens, start) + 1
    } else {
        tokens.len() as int
    }
}

/// One declaration: the property `name` with the single value `value`.
pub open spec fn declaration(name: Seq<char>, value: Seq<char>) -> CssAttributeView {
    CssAttributeView { name, values: seq![value], source: None, is_overwritten: None }
}

/// The declarations that the tokens of a block make from position `pos` on,
/// where `name` is the last property name read before `pos`. An identifier
/// names the property of the declarations that follow it; a colon starts a
/// value, which runs up to the next semicolon.
pub open spec fn declarations(tokens: Seq<CssTokenView>, pos: int, name: Seq<char>) -> Seq<
    CssAttributeView,
>
    decreases tokens.len() - pos,
{
    if pos < 0 || pos >= tokens.len() {
        Seq::empty()
    } else {
        match tokens[pos] {
            CssTokenView::Ident(next) => declarations(tokens, pos + 1, next),
            CssTokenView::Colon => {
                let len = value_len(tokens, pos + 1);
                seq![declaration(name, value_text(tokens.subrange(pos + 1, pos + 1 + len)))]
                    + declarations(tokens, value_stop(tokens, pos + 1), name)
            },
            _ => declarations(tokens, pos + 1, name),
        }
    }
}

/// The attributes of a block: its declarations gathered by property name,
/// so that each name has one attribute with all the values declared for it,
/// and sorted by name.
pub open spec fn parsed_attributes(tokens: Seq<CssTokenView>) -> Seq<CssAttributeView> {
    stable_sort(gathered_by_name(declarations(tokens, 0, Seq::empty())))
}

/// The selector in force after `nodes`: the last identifier among them.
pub open spec fn current_tag(nodes: Seq<CssNodeView>) -> Seq<char>
    decreases nodes.len(),
{
    if nodes.len() == 0 {
        Seq::empty()
    } else {
        match nodes.last().token {
            CssTokenView::Ident(name) => name,
            _ => current_tag(nodes.drop_last()),
        }
    }
}

/// The rules that `nodes` hold, in order: one for each block, with the
/// selector in force where the block stands.
pub open spec fn rules(nodes: Seq<CssNodeView>) -> Seq<CssStyleView>
    decreases nodes.len(),
{
    if nodes.len() == 0 {
        Seq::empty()
    } else if nodes.last().token is CurlyBracketBlock {
        rules(nodes.drop_last()).push(
            CssStyleView {
                tag: current_tag(nodes.drop_last()),
                attributes: parsed_attributes(nodes.last().block),
            },
        )
    } else {
        rules(nodes.drop_last())
    }
}

/// The styles of a stylesheet with the top-level tokens `nodes`: its rules
/// sorted by selector, rules of the same selector in the order they have in
/// the sheet; `None` for a sheet without rules.
pub open spec fn parsed_sheet(nodes: Seq<CssNodeView>) -> Option<Seq<CssStyleView>> {
    if rules(nodes).len() == 0 {
        None
    } else {
        Some(stable_sort(rules(nodes)))
    }
}

/// The views of the styles that a parse gave, where it gave any.
pub open spec fn sheet_view(styles: Option<Vec<CssStyle>>) -> Option<Seq<CssStyleView>> {
    match styles {
        Some(styles) => Some(views(styles@)),
        None => None,
    }
}

/// Every style is sorted behind the styles of smaller selectors; its
/// attributes stand in strictly ascending order of their names; and each of
/// them has a value.
pub open spec fn sheet_sorted(styles: Seq<CssStyleView>) -> bool {
    &&& sorted_by_key(styles)
    &&& forall|i: int|
        0 <= i < styles.len() ==> strictly_sorted_by_key((#[trigger] styles[i]).attributes)
            && have_values(styles[i].attributes)
}

/// Every declaration of a block has one value.
pub proof fn lemma_declarations_have_values(tokens: Seq<CssTokenView>, pos: int, name: Seq<char>)
    ensures
        have_values(declarations(tokens, pos, name)),
    decreases tokens.len() - pos,
{
    if 0 <= pos < tokens.len() {
        match tokens[pos] {
            CssTokenView::Ident(next) => {
                lemma_declarations_have_values(tokens, pos + 1, next);
            },
            CssTokenView::Colon => {
                lemma_declarations_have_values(tokens, value_stop(tokens, pos + 1), name);
            },
            _ => {
                lemma_declarations_have_values(tokens, pos + 1, name);
            },
        }
    }
}

/// Where no semicolon stands between `start` and `end`, and `end` is the
/// end or holds a semicolon, the value that starts at `start` ends at `end`.
proof fn lemma_value_len(tokens: Seq<CssTokenView>, start: int, end: int)
    requires
        0 <= start <= end <= tokens.len(),
        forall|j: int| start <= j < end ==> !(tokens[j] is Semicolon),
        end == tokens.len() || tokens[end] is Semicolon,
    ensures
        value_len(tokens, start) == end - start,
    decreases end - start,
{
    if start < end {
        lemma_value_len(tokens, start + 1, end);
    }
}

/// Reads a value that starts at `start`: gives its text and the position
/// behind the semicolon that ends it, or the end of the tokens.
pub(crate) fn parse_attribute_value(tokens: &Vec<CssToken>, start: usize) -> (r: (String, usize))
    requires
        start <= tokens.len(),
    ensures
        r.0@ == value_text(
            views(tokens@).subrange(
                start as int,
                start + value_len(views(tokens@), start as int),
            ),
        ),
        start + value_len(views(tokens@), start as int) <= tokens.len(),
        r.1 == value_stop(views(tokens@), start as int),
{
    let ghost all = views(tokens@);
    let mut attribute_value = String::new();
    let mut i: usize = start;
    while i < tokens.len() && !is_semicolon(&tokens[i])
        invariant
            start <= i <= tokens.len(),
            all == views(tokens@),
            forall|j: int| start <= j < i ==> !(all[j] is Semicolon),
            attribute_value@ == value_text(all.subrange(start as int, i as int)),
        decreases tokens.len() - i,
    {
        match &tokens[i] {
            CssToken::Ident(value) => {
                attribute_value = value.clone();
            },
            CssToken::Dimension { value, unit } => {
                attribute_value.append(value.as_str());
                attribute_value.append(unit.as_str());
            },
            _ => {},
        }
        i += 1;
        assert(all.subrange(start as int, i as int).drop_last() =~= all.subrange(
            start as int,
            i - 1,
        ));
    }
    proof {
        lemma_value_len(all, start as int, i as int);
    }
    if i < tokens.len() {
        (attribute_value, i + 1)
    } else {
        (attribute_value, i)
    }
}

/// Whether `token` is a semicolon.
fn is_semicolon(token: &CssToken) -> (r: bool)
    ensures
        r == (token@ is Semicolon),
{
    match token {
        CssToken::Semicolon => true,
        _ => false,
    }
}

/// The attributes of a block with the tokens `tokens`: one for each
/// property name that the block declares, with all the values declared for
/// it in their order, sorted by name.
pub fn parse_attributes(tokens: &Vec<CssToken>) -> (r: Vec<CssAttribute>)
    ensures
        views(r@) == parsed_attributes(views(tokens@)),
        strictly_sorted_by_key(views(r@)),
        have_values(views(r@)),
{
    let ghost all = views(tokens@);
    let ghost whole = declarations(all, 0, Seq::empty());
    let mut found: Vec<CssAttribute> = Vec::new();
    let mut name = String::new();
    let mut pos: usize = 0;
    assert(views(found@) + declarations(all, 0, name@) =~= whole);
    while pos < tokens.len()
        invariant
            pos <= tokens.len(),
            all == views(tokens@),
            views(found@) + declarations(all, pos as int, name@) == whole,
        decreases tokens.len() - pos,
    {
        let ghost before = views(found@);
        let ghost old_name = name@;
        assert(all[pos as int] == tokens@[pos as int]@);
        match &tokens[pos] {
            CssToken::Ident(value) => {
                name = value.clone();
                pos += 1;
            },
            CssToken::Colon => {
                let (value, next) = parse_attribute_value(tokens, pos + 1);
                let attribute = CssAttribute {
                    name: name.clone(),
                    values: vec![value],
                    source: None,
                    is_overwritten: None,
                };
                assert(texts(attribute.values@) =~= seq![value@]);
                assert(attribute@ == declaration(old_name, value@));
                found.push(attribute);
                assert(views(found@) =~= before.push(declaration(old_name, value@)));
                assert(views(found@) + declarations(all, next as int, old_name) =~= before
                    + declarations(all, pos as int, old_name));
                pos = next;
            },
            _ => {
                pos += 1;
            },
        }
    }
    assert(views(found@) =~= whole);
    let gathered = gather_attributes(&found);
    let ghost unsorted = views(gathered@);
    let sorted = sort_by_key(gathered);
    proof {
        lemma_gathered_distinct(whole);
        lemma_sort_distinct(views(sorted@), unsorted);
        lemma_declarations_have_values(all, 0, Seq::empty());
        lemma_gathered_have_values(whole);
        let result = views(sorted@);
        assert forall|i: int| 0 <= i < result.len() implies (#[trigger] result[i]).values.len()
            > 0 by {
            assert(result.contains(result[i]));
            assert(unsorted.contains(result[i]));
        }
    }
    sorted
}

/// The styles of a stylesheet with the top-level tokens `nodes`: its rules
/// sorted by selector, or `None` where it has no rule.
pub fn styles_from_nodes(nodes: &Vec<CssNode>) -> (r: Option<Vec<CssStyle>>)
    ensures
        sheet_view(r) == parsed_sheet(views(nodes@)),
        r matches Some(styles) ==> sheet_sorted(views(styles@)),
{
    let ghost all = views(nodes@);
    let mut styles: Vec<CssStyle> = Vec::new();
    let mut tag = String::new();
    let mut i: usize = 0;
    while i < nodes.len()
        invariant
            i <= nodes.len(),
            all == views(nodes@),
            tag@ == current_tag(all.take(i as int)),
            views(styles@) == rules(all.take(i as int)),
            forall|j: int|
                0 <= j < styles.len() ==> strictly_sorted_by_key(
                    (#[trigger] views(styles@)[j]).attributes,
                ) && have_values(views(styles@)[j].attributes),
        decreases nodes.len() - i,
    {
        assert(all.take(i + 1).drop_last() =~= all.take(i as int));
        match &nodes[i].token {
            CssToken::Ident(name) => {
                tag = name.clone();
            },
            CssToken::CurlyBracketBlock => {
                let attributes = parse_attributes(&nodes[i].block);
                let style = CssStyle { tag: tag.clone(), attributes };
                styles.push(style);
            },
            _ => {},
        }
        i += 1;
    }
    assert(all.take(i as int) =~= all);
    if styles.len() > 0 {
        let ghost unsorted = views(styles@);
        let sorted = sort_by_key(styles);
        proof {
            let result = views(sorted@);
            assert forall|a: int| 0 <= a < result.len() implies strictly_sorted_by_key(
                (#[trigger] result[a]).attributes,
            ) && have_values(result[a].attributes) by {
                lemma_with_key_contains(result, result[a].key(), result[a]);
                lemma_with_key_contains(unsorted, result[a].key(), result[a]);
            }
        }
        Some(sorted)
    } else {
        None
    }
}

/// The styles of the stylesheet that `parser` reads: its rules sorted by
/// selector, or `None` where it has no rule. Never fails: what is no rule
/// is passed over.
pub fn parse_sheet<'a>(parser: &mut Parser) -> (r: Result<
    Option<Vec<CssStyle>>,
    ParseError<'a, String>,
>)
    ensures
        r matches Ok(styles) && sheet_view(styles) == parsed_sheet(pending_nodes(*old(parser)))
            && (styles matches Some(s) ==> sheet_sorted(views(s@))),
{
    let nodes = read_nodes(parser);
    Ok(styles_from_nodes(&nodes))
}

/// The styles of a stylesheet with the text `text`.
pub fn parse_css(text: &str) -> (r: Option<Vec<CssStyle>>)
    ensures
        sheet_view(r) == parsed_sheet(css_nodes(text@)),
        r matches Some(styles) ==> sheet_sorted(views(styles@)),
{
    let mut input = ParserInput::new(text);
    let mut parser = Parser::new(&mut input);
    let nodes = read_nodes(&mut parser);
    styles_from_nodes(&nodes)
}

} // verus!

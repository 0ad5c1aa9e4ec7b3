//! What an HTML document says of its stylesheets.

use vstd::prelude::*;
use vstd::utf8::encode_utf8;
use super::{
    html_tokens, lossy_decoded, lossy_text, tokenize_html, HtmlAttributeView, HtmlToken,
    HtmlTokenView,
};
use crate::keyed::views;
use crate::text::{lemma_texts_push, texts};

verus! {

/// The value of the first attribute named `name`, where there is one.
pub open spec fn attribute_value(attributes: Seq<HtmlAttributeView>, name: Seq<u8>) -> Option<
    Seq<u8>,
>
    decreases attributes.len(),
{
    if attributes.len() == 0 {
        None
    } else if attributes[0].name == name {
        Some(attributes[0].value)
    } else {
        attribute_value(attributes.drop_first(), name)
    }
}

/// The stylesheet that a token refers to: the value of the attribute `href`
/// of a start tag `link`, as text.
pub open spec fn link_target(token: HtmlTokenView) -> Option<Seq<char>> {
    match token {
        HtmlTokenView::StartTag(tag) => if tag.name == encode_utf8("link"@) {
            match attribute_value(tag.attributes, encode_utf8("href"@)) {
                Some(value) => Some(lossy_decoded(value)),
                None => None,
            }
        } else {
            None
        },
        HtmlTokenView::Other => None,
    }
}

/// The stylesheets that the tokens of a document refer to, in order.
pub open spec fn link_targets(tokens: Seq<HtmlTokenView>) -> Seq<Seq<char>>
    decreases tokens.len(),
{
    if tokens.len() == 0 {
        Seq::empty()
    } else {
        match link_target(tokens.last()) {
            Some(target) => link_targets(tokens.drop_last()).push(target),
            None => link_targets(tokens.drop_last()),
        }
    }
}

/// Whether `bytes` spell the text `word`.
fn spells(bytes: &Vec<u8>, word: &str) -> (r: bool)
    ensures
        r == (bytes@ == encode_utf8(word@)),
{
    let wanted = word.as_bytes();
    if bytes.len() != wanted.len() {
        return false;
    }
    let mut i: usize = 0;
    while i < bytes.len()
        invariant
            i <= bytes.len(),
            bytes.len() == wanted.len(),
            wanted@ == encode_utf8(word@),
            forall|j: int| 0 <= j < i ==> bytes@[j] == wanted@[j],
        decreases bytes.len() - i,
    {
        if bytes[i] != wanted[i] {
            return false;
        }
        i += 1;
    }
    assert(bytes@ =~= wanted@);
    true
}

/// The stylesheet that `token` refers to.
fn target_of(token: &HtmlToken) -> (r: Option<String>)
    ensures
        match r {
            Some(target) => link_target(token@) == Some(target@),
            None => link_target(token@) is None,
        },
{
    match token {
        HtmlToken::StartTag(tag) => {
            if !spells(&tag.name, "link") {
                return None;
            }
            let ghost all = tag@.attributes;
            let ghost wanted = encode_utf8("href"@);
            let mut i: usize = 0;
            assert(all.skip(0) =~= all);
            while i < tag.attributes.len()
                invariant
                    i <= tag.attributes.len(),
                    all == tag@.attributes,
                    wanted == encode_utf8("href"@),
                    token@ == HtmlTokenView::StartTag(tag@),
                    tag@.name == encode_utf8("link"@),
                    attribute_value(all, wanted) == attribute_value(all.skip(i as int), wanted),
                decreases tag.attributes.len() - i,
            {
                assert(all.skip(i as int).drop_first() =~= all.skip(i + 1));
                if spells(&tag.attributes[i].name, "href") {
                    return Some(lossy_text(&tag.attributes[i].value));
                }
                i += 1;
            }
            None
        },
        HtmlToken::Other => None,
    }
}

/// The stylesheets that the tokens of a document refer to, in order.
pub fn targets_of(tokens: &Vec<HtmlToken>) -> (r: Vec<String>)
    ensures
        texts(r@) == link_targets(views(tokens@)),
{
    let ghost all = views(tokens@);
    let mut css_vec: Vec<String> = Vec::new();
    let mut i: usize = 0;
    while i < tokens.len()
        invariant
            i <= tokens.len(),
            all == views(tokens@),
            texts(css_vec@) == link_targets(all.take(i as int)),
        decreases tokens.len() - i,
    {
        assert(all.take(i + 1).drop_last() =~= all.take(i as int));
        if let Some(target) = target_of(&tokens[i]) {
            proof {
                lemma_texts_push(css_vec@, target);
            }
            css_vec.push(target);
        }
        i += 1;
    }
    assert(all.take(i as int) =~= all);
    css_vec
}

/// The stylesheets that an HTML document with the text `file_contents`
/// refers to: the `href` of each of its `link` tags, in order.
pub fn get_css_files(file_contents: &String) -> (r: Vec<String>)
    ensures
        texts(r@) == link_targets(html_tokens(file_contents@)),
{
    let tokens = tokenize_html(file_contents.as_str());
    targets_of(&tokens)
}

} // verus!

//! The tokens of an HTML document, as the tokenizer of the `html5gum` crate
//! hands them out.

pub mod html_commands;

use html5gum::{Token, Tokenizer};
use vstd::prelude::*;
use vstd::utf8::{decode_utf8, valid_utf8};
use crate::keyed::views;

verus! {

/// An attribute of a tag: its name and its value, as bytes.
#[derive(Debug, PartialEq, Eq)]
pub struct HtmlAttribute {
    pub name: Vec<u8>,
    pub value: Vec<u8>,
}

/// What an `HtmlAttribute` holds, as mathematical values.
pub struct HtmlAttributeView {
    pub name: Seq<u8>,
    pub value: Seq<u8>,
}

impl View for HtmlAttribute {
    type V = HtmlAttributeView;

    open spec fn view(&self) -> HtmlAttributeView {
        HtmlAttributeView { name: self.name@, value: self.value@ }
    }
}

/// A start tag: its name and its attributes.
#[derive(Debug, PartialEq, Eq)]
pub struct HtmlTag {
    pub name: Vec<u8>,
    pub attributes: Vec<HtmlAttribute>,
}

/// What an `HtmlTag` holds, as mathematical values.
pub struct HtmlTagView {
    pub name: Seq<u8>,
    pub attributes: Seq<HtmlAttributeView>,
}

impl View for HtmlTag {
    type V = HtmlTagView;

    open spec fn view(&self) -> HtmlTagView {
        HtmlTagView { name: self.name@, attributes: views(self.attributes@) }
    }
}

/// A token of an HTML document, as far as the engine reads it.
#[derive(Debug, PartialEq, Eq)]
pub enum HtmlToken {
    StartTag(HtmlTag),
    /// Any other token.
    Other,
}

/// What an `HtmlToken` holds, as mathematical values.
pub enum HtmlTokenView {
    StartTag(HtmlTagView),
    Other,
}

impl View for HtmlToken {
    type V = HtmlTokenView;

    open spec fn view(&self) -> HtmlTokenView {
        match self {
            HtmlToken::StartTag(tag) => HtmlTokenView::StartTag(tag@),
            HtmlToken::Other => HtmlTokenView::Other,
        }
    }
}

/// The tokens that an HTML document with the text `text` consists of, as
/// `html5gum` reads it. The attributes of a start tag come in the order of
/// their names.
pub uninterp spec fn html_tokens(text: Seq<char>) -> Seq<HtmlTokenView>;

/// The text that `String::from_utf8_lossy` makes of `bytes`.
pub uninterp spec fn lossy_decoded(bytes: Seq<u8>) -> Seq<char>;

/// Runs the tokenizer of `html5gum` over `text` and takes every token it
/// yields: a start tag with its name and its attributes, anything else as
/// `Other`.
#[verifier::external_body]
pub(crate) fn tokenize_html(text: &str) -> (r: Vec<HtmlToken>)
    ensures
        views(r@) == html_tokens(text@),
{
    Tokenizer::new(text).infallible().map(|token| match token {
        Token::StartTag(tag) => HtmlToken::StartTag(HtmlTag {
            name: tag.name.0,
            attributes: tag.attributes.into_iter().map(|(name, value)| HtmlAttribute {
                name: name.0,
                value: value.0,
            }).collect(),
        }),
        _ => HtmlToken::Other,
    }).collect()
}

/// Turns bytes into text with `String::from_utf8_lossy`: bytes that are
/// valid UTF-8 give the text they encode; in other bytes every invalid
/// sequence gives a replacement character.
#[verifier::external_body]
pub(crate) fn lossy_text(bytes: &Vec<u8>) -> (r: String)
    ensures
        r@ == lossy_decoded(bytes@),
        valid_utf8(bytes@) ==> r@ == decode_utf8(bytes@),
{
    String::from_utf8_lossy(bytes).to_string()
}

} // verus!

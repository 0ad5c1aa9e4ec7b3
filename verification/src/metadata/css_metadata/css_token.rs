//! The tokens of a stylesheet, as the parser of the `cssparser` crate hands
//! them out.

use cssparser::{ParseError, Parser, ParserInput, Token};
use vstd::prelude::*;
use crate::keyed::views;

verus! {

/// A token of a stylesheet, as far as the style model reads it.
#[derive(Debug, PartialEq, Eq)]
pub enum CssToken {
    /// An identifier: a selector, a property name or a keyword value.
    Ident(String),
    /// `:`
    Colon,
    /// `;`
    Semicolon,
    /// A number with a unit; both as they are written out.
    Dimension { value: String, unit: String },
    /// A block in curly brackets. The tokens inside it are no part of the
    /// run of tokens that the block stands in.
    CurlyBracketBlock,
    /// Any other token.
    Other,
}

/// What a `CssToken` holds, as mathematical values.
pub enum CssTokenView {
    Ident(Seq<char>),
    Colon,
    Semicolon,
    Dimension { value: Seq<char>, unit: Seq<char> },
    CurlyBracketBlock,
    Other,
}

impl View for CssToken {
    type V = CssTokenView;

    open spec fn view(&self) -> CssTokenView {
        match self {
            CssToken::Ident(name) => CssTokenView::Ident(name@),
            CssToken::Colon => CssTokenView::Colon,
            CssToken::Semicolon => CssTokenView::Semicolon,
            CssToken::Dimension { value, unit } => CssTokenView::Dimension {
                value: value@,
                unit: unit@,
            },
            CssToken::CurlyBracketBlock => CssTokenView::CurlyBracketBlock,
            CssToken::Other => CssTokenView::Other,
        }
    }
}

/// A token at the top level of a stylesheet, together with the tokens
/// inside it where it is a block in curly brackets.
#[derive(Debug, PartialEq, Eq)]
pub struct CssNode {
    pub token: CssToken,
    /// The tokens inside the block; empty for any other token.
    pub block: Vec<CssToken>,
}

/// What a `CssNode` holds, as mathematical values.
pub struct CssNodeView {
    pub token: CssTokenView,
    pub block: Seq<CssTokenView>,
}

impl View for CssNode {
    type V = CssNodeView;

    open spec fn view(&self) -> CssNodeView {
        CssNodeView { token: self.token@, block: views(self.block@) }
    }
}

/// The parser of `cssparser`. Its state is known only through
/// `pending_nodes` and `open_block`.
#[verifier::external_type_specification]
#[verifier::external_body]
pub struct ExParser<'i, 't>(Parser<'i, 't>);

/// The input of a parser of `cssparser`, known only through `input_nodes`.
#[verifier::external_type_specification]
#[verifier::external_body]
pub struct ExParserInput<'i>(ParserInput<'i>);

/// The error type of `cssparser`. No function of this crate makes one.
#[verifier::external_type_specification]
#[verifier::external_body]
#[verifier::reject_recursive_types(E)]
pub struct ExParseError<'i, E>(ParseError<'i, E>);

/// The tokens that a stylesheet with the text `text` consists of at its top
/// level, as `cssparser` reads it. White space and comments are no tokens.
/// Each token comes with the tokens inside it where it is a block in curly
/// brackets, and with none where it is anything else.
pub uninterp spec fn css_nodes(text: Seq<char>) -> Seq<CssNodeView>;

/// The tokens that a fresh parser on `input` has yet to hand out.
pub uninterp spec fn input_nodes(input: ParserInput) -> Seq<CssNodeView>;

/// The tokens that `parser` has yet to hand out, up to the end of the input
/// or of the block that it reads.
pub uninterp spec fn pending_nodes(parser: Parser) -> Seq<CssNodeView>;

/// The tokens inside the block whose opening token `parser` has handed out
/// last; `None` where the last token opened no block.
pub uninterp spec fn open_block(parser: Parser) -> Option<Seq<CssTokenView>>;

/// `ParserInput::new` makes the input of a parser from a text. The tokens
/// that a parser will read from it are those of the text.
pub assume_specification<'i>[ ParserInput::<'i>::new ](input: &'i str) -> (r: ParserInput<'i>)
    ensures
        input_nodes(r) == css_nodes(input@),
;

/// `Parser::new` makes a parser that reads all of its input and stands at
/// the start of no block.
pub assume_specification<'i: 't, 't>[ Parser::<'i, 't>::new ](
    input: &'t mut ParserInput<'i>,
) -> (r: Parser<'i, 't>)
    ensures
        pending_nodes(r) == input_nodes(*old(input)),
        open_block(r) is None,
;

/// Calls `Parser::next`, which skips white space and comments and hands out
/// the next token, or fails at the end of the input or of the block. The
/// token comes back as a `CssToken`; `None` stands for the failure. After an
/// opening curly bracket the parser stands at the start of that block, and
/// the tokens inside the block are no part of what it has yet to hand out.
#[verifier::external_body]
pub(crate) fn next_token(parser: &mut Parser) -> (r: Option<CssToken>)
    ensures
        pending_nodes(*old(parser)).len() == 0 ==> r is None && pending_nodes(*final(parser))
            == pending_nodes(*old(parser)),
        pending_nodes(*old(parser)).len() > 0 ==> {
            &&& r matches Some(token)
            &&& token@ == pending_nodes(*old(parser))[0].token
            &&& pending_nodes(*final(parser)) == pending_nodes(*old(parser)).drop_first()
            &&& token is CurlyBracketBlock ==> open_block(*final(parser)) == Some(
                pending_nodes(*old(parser))[0].block,
            )
            &&& !(token is CurlyBracketBlock) ==> pending_nodes(*old(parser))[0].block
                == Seq::<CssTokenView>::empty()
        },
{
    match parser.next() {
        Ok(Token::Ident(name)) => Some(CssToken::Ident(name.to_string())),
        Ok(Token::Colon) => Some(CssToken::Colon),
        Ok(Token::Semicolon) => Some(CssToken::Semicolon),
        Ok(Token::Dimension { value, unit, .. }) => Some(
            CssToken::Dimension { value: value.to_string(), unit: unit.to_string() },
        ),
        Ok(Token::CurlyBracketBlock) => Some(CssToken::CurlyBracketBlock),
        Ok(_) => Some(CssToken::Other),
        Err(_) => None,
    }
}

/// Calls `Parser::parse_nested_block`, which runs a closure on a parser that
/// reads the inside of the block just opened, and then moves the outer
/// parser behind the block. The closure hands all tokens of the block to
/// `drain_tokens`. The parser must stand at the start of a block.
#[verifier::external_body]
pub(crate) fn block_tokens(parser: &mut Parser) -> (r: Vec<CssToken>)
    requires
        open_block(*old(parser)) is Some,
    ensures
        Some(views(r@)) == open_block(*old(parser)),
        pending_nodes(*final(parser)) == pending_nodes(*old(parser)),
        open_block(*final(parser)) is None,
{
    parser.parse_nested_block(|inner| Ok::<Vec<CssToken>, ParseError<()>>(drain_tokens(inner))).unwrap()
}

/// The tokens of a run of nodes, without what is inside their blocks.
pub open spec fn tokens_of(nodes: Seq<CssNodeView>) -> Seq<CssTokenView> {
    nodes.map_values(|node: CssNodeView| node.token)
}

/// Takes all tokens that `parser` has yet to hand out.
pub fn drain_tokens(parser: &mut Parser) -> (r: Vec<CssToken>)
    ensures
        views(r@) == tokens_of(pending_nodes(*old(parser))),
        pending_nodes(*final(parser)).len() == 0,
{
    let ghost all = tokens_of(pending_nodes(*parser));
    let mut tokens: Vec<CssToken> = Vec::new();
    loop
        invariant
            views(tokens@) + tokens_of(pending_nodes(*parser)) == all,
        ensures
            views(tokens@) == all,
            pending_nodes(*parser).len() == 0,
        decreases pending_nodes(*parser).len(),
    {
        match next_token(parser) {
            None => {
                break ;
            },
            Some(token) => {
                tokens.push(token);
            },
        }
    }
    tokens
}

/// Takes all tokens that `parser` has yet to hand out, each with the tokens
/// inside it where it is a block in curly brackets.
pub fn read_nodes(parser: &mut Parser) -> (r: Vec<CssNode>)
    ensures
        views(r@) == pending_nodes(*old(parser)),
        pending_nodes(*final(parser)).len() == 0,
{
    let ghost all = pending_nodes(*parser);
    let mut nodes: Vec<CssNode> = Vec::new();
    loop
        invariant
            views(nodes@) + pending_nodes(*parser) == all,
        ensures
            views(nodes@) == all,
            pending_nodes(*parser).len() == 0,
        decreases pending_nodes(*parser).len(),
    {
        let ghost pending = pending_nodes(*parser);
        match next_token(parser) {
            None => {
                break ;
            },
            Some(token) => {
                let block = match token {
                    CssToken::CurlyBracketBlock => block_tokens(parser),
                    _ => Vec::new(),
                };
                assert(views(block@) =~= pending[0].block);
                nodes.push(CssNode { token, block });
            },
        }
    }
    nodes
}

} // verus!

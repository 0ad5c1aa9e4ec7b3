//! The beginnings of a tokenizer for HTML text.

use vstd::prelude::*;
use vstd::utf8::encode_utf8;

verus! {

/// A token of HTML text.
pub enum Token {
    /// `&`, which starts a character reference.
    Ampersand,
    /// `<`, which opens a tag.
    LPointy,
    /// What is no token.
    Error,
}

/// The states of a tokenizer for HTML text.
pub enum State {
    Data,
    RCData,
    RawText,
    Script,
    PlainText,
    TagOpen,
    EndTagOpen,
    TagName,
    RCDataLessThan,
    RCDataEndTagOpen,
    RCDataEndTagName,
    RawTextLessThan,
    RawTextEndTagOpen,
    RawTextEndTagName,
    ScriptDataLessThan,
    ScriptDataEndTagOpen,
    ScriptDataEndTagName,
    ScriptDataEscapeStart,
    ScriptDataEscapeStartDash,
    ScriptDataEscaped,
    ScriptDataEscapedDash,
    ScriptDataEscapedDashDash,
    ScriptDataEscapedLessThan,
    ScriptDataEscapedEndTagOpen,
    ScriptDataDoubleEscapeStart,
    ScriptDataDoubleEscaped,
    ScriptDataDoubleEscapedDash,
    ScriptDataDoubleEscapedDashDash,
    ScriptDataDoubleEscapedLessThanSign,
    ScriptDataDoubleEscapeEnd,
    BeforeAttributeName,
    AttributeName,
    AfterAttributeName,
    BeforeAttributeValue,
    AttributeValueDoubleQuoted,
    AttributeValueSingleQuoted,
    AttributeValueUnquoted,
    AfterAttributeValueQuoted,
    SelfClosingStartTag,
    BogusComment,
    MarkupDeclarationOpen,
    CommentStart,
    CommentStartDash,
    Comment,
    CommentLessThan,
    CommentLessThanBang,
    CommentLessThanBangDash,
    CommentLessThanBangDashDash,
    CommentEndDash,
    CommentEnd,
    CommentEndBang,
    DocType,
    BeforeDocType,
    DocTypeName,
    AfterDocTypeName,
    AfterDocTypePublicKeyword,
    BeforeDocTypePublicIdentifier,
    DocTypePublicIdentifierDoubleQuoted,
    DocTypePublicIdentifierSingleQuoted,
    AfterDocTypePublicIdentifier,
    BetweenDocTypePublicAndSystemIdentifiers,
    AfterDocTypeSystemKeyword,
    BeforeDocTypeSystemIdentifier,
    DocTypeSystemIdentifierDoubleQuoted,
    DocTypeSystemIdentifierSingleQuoted,
    AfterDocTypeSystemIdentifier,
    BogusDocType,
    CDataSection,
    CDataSectionBracket,
    CDataSectionEnd,
    CharacterReference,
    NamedCharacterReference,
    AmbiguousAmpersand,
    NumericCharacterReference,
    HexadecimalCharacterReferenceStart,
    DecimalCharacterReferenceStart,
    HexadecimalCharacterReference,
    DecimalCharacterReference,
    NumericCharacterReferenceEnd,
}

/// A cursor over the bytes of a text.
pub struct Lexer {
    position: usize,
    read_position: usize,
    ch: u8,
    input: Vec<u8>,
}

/// What a `Lexer` holds, as mathematical values.
pub struct LexerView {
    /// The position of the byte that was read last.
    pub position: int,
    /// The position of the byte that is read next.
    pub read_position: int,
    /// The byte that was read last; 0 behind the end of the input.
    pub ch: u8,
    pub input: Seq<u8>,
}

impl View for Lexer {
    type V = LexerView;

    closed spec fn view(&self) -> LexerView {
        LexerView {
            position: self.position as int,
            read_position: self.read_position as int,
            ch: self.ch,
            input: self.input@,
        }
    }
}

impl LexerView {
    /// The byte at the position `at`; 0 behind the end of the input.
    pub open spec fn byte_at(self, at: int) -> u8 {
        if 0 <= at < self.input.len() {
            self.input[at]
        } else {
            0
        }
    }
}

impl Lexer {
    /// A cursor over the bytes of `input` that has read the first one.
    pub fn new(input: String) -> (r: Lexer)
        ensures
            r@.input == encode_utf8(input@),
            r@.position == 0,
            r@.read_position == 1,
            r@.ch == r@.byte_at(0),
    {
        let mut lex = Lexer {
            position: 0,
            read_position: 0,
            ch: 0,
            input: input.as_str().as_bytes_vec(),
        };
        lex.read_char();
        lex
    }

    /// Reads the next byte.
    fn read_char(&mut self)
        requires
            old(self)@.read_position < usize::MAX,
        ensures
            final(self)@.input == old(self)@.input,
            final(self)@.position == old(self)@.read_position,
            final(self)@.read_position == old(self)@.read_position + 1,
            final(self)@.ch == old(self)@.byte_at(old(self)@.read_position),
    {
        if self.read_position >= self.input.len() {
            self.ch = 0;
        } else {
            self.ch = self.input[self.read_position];
        }
        self.position = self.read_position;
        self.read_position += 1;
    }
}

} // verus!

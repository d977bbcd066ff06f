//! The parser: builds the syntax tree of statements from the tokens of a source.
//!
//! The parser lexes the whole source first and then walks the tokens, looking one token
//! ahead. What each production accepts is laid down by a function over the tokens and
//! the tables of the lexer; the parser returns what that function gives.

use vstd::prelude::*;
use vstd::utf8::encode_utf8;
use crate::lexer::ident::ascii_text;
use crate::lexer::number::text_of;
use crate::lexer::byte::fresh;
use crate::lexer::byte::lexing;
use crate::lexer::byte::stepped;
use crate::lexer::Lexer;
use crate::lexer::NumberLiteralView;
use crate::token::Span;
use crate::token::Token;
use crate::token::TokenKind;

pub mod basic;
pub mod expression;
pub mod idiom;
pub mod stmt;

verus! {

/// What was expected where something else was found.
#[derive(Clone, Copy, PartialEq, Eq, Structural, Debug)]
pub enum Expected {
    Identifier,
    Duration,
    Number,
    Integer,
    Value,
    FieldName,
    Index,
    Colon,
    CloseParen,
    CloseBracket,
    CloseBrace,
    AssignOperator,
    PermissionsKind,
    PermissionFor,
    PermissionValue,
    ScopeNotAllowed,
    BaseWithScope,
    BaseWithoutScope,
    DistanceMeasure,
    Select,
    From,
    Function,
    PathSeparator,
    Update,
    Remove,
    Field,
    On,
}

impl Expected {
    /// How what was expected is put in a message.
    pub open spec fn text(self) -> Seq<char> {
        match self {
            Expected::Identifier => "an identifier"@,
            Expected::Duration => "a duration"@,
            Expected::Number => "a number"@,
            Expected::Integer => "a whole number"@,
            Expected::Value => "a value"@,
            Expected::FieldName => "a field name"@,
            Expected::Index => "an index, '*' or '$'"@,
            Expected::Colon => "':'"@,
            Expected::CloseParen => "')'"@,
            Expected::CloseBracket => "']'"@,
            Expected::CloseBrace => "'}'"@,
            Expected::AssignOperator => "a assign operator"@,
            Expected::PermissionsKind => "'NONE', 'FULL' or 'FOR'"@,
            Expected::PermissionFor => "'SELECT', 'CREATE', 'UPDATE' or 'DELETE'"@,
            Expected::PermissionValue => "'NONE', 'FULL', or 'WHERE'"@,
            Expected::ScopeNotAllowed => "a scope is not allowed here"@,
            Expected::BaseWithScope => "'NAMEPSPACE', 'DATABASE', 'ROOT', 'SCOPE' or 'KV'"@,
            Expected::BaseWithoutScope => "'NAMEPSPACE', 'DATABASE', 'ROOT', or 'KV'"@,
            Expected::DistanceMeasure => "a distance measure"@,
            Expected::Select => "SELECT"@,
            Expected::From => "FROM"@,
            Expected::Function => "fn"@,
            Expected::PathSeparator => "::"@,
            Expected::Update => "UPDATE"@,
            Expected::Remove => "REMOVE"@,
            Expected::Field => "FIELD"@,
            Expected::On => "ON"@,
        }
    }

    /// How what was expected is put in a message.
    pub fn as_str(self) -> (text: &'static str)
        ensures
            text@ == self.text(),
    {
        match self {
            Expected::Identifier => "an identifier",
            Expected::Duration => "a duration",
            Expected::Number => "a number",
            Expected::Integer => "a whole number",
            Expected::Value => "a value",
            Expected::FieldName => "a field name",
            Expected::Index => "an index, '*' or '$'",
            Expected::Colon => "':'",
            Expected::CloseParen => "')'",
            Expected::CloseBracket => "']'",
            Expected::CloseBrace => "'}'",
            Expected::AssignOperator => "a assign operator",
            Expected::PermissionsKind => "'NONE', 'FULL' or 'FOR'",
            Expected::PermissionFor => "'SELECT', 'CREATE', 'UPDATE' or 'DELETE'",
            Expected::PermissionValue => "'NONE', 'FULL', or 'WHERE'",
            Expected::ScopeNotAllowed => "a scope is not allowed here",
            Expected::BaseWithScope => "'NAMEPSPACE', 'DATABASE', 'ROOT', 'SCOPE' or 'KV'",
            Expected::BaseWithoutScope => "'NAMEPSPACE', 'DATABASE', 'ROOT', or 'KV'",
            Expected::DistanceMeasure => "a distance measure",
            Expected::Select => "SELECT",
            Expected::From => "FROM",
            Expected::Function => "fn",
            Expected::PathSeparator => "::",
            Expected::Update => "UPDATE",
            Expected::Remove => "REMOVE",
            Expected::Field => "FIELD",
            Expected::On => "ON",
        }
    }
}

/// Why a source could not be parsed.
#[derive(Clone, Copy, PartialEq, Eq, Structural, Debug)]
pub enum ParseErrorKind {
    /// A token stands where another was expected.
    Unexpected { found: TokenKind, expected: Expected },
    /// The lexer could not lex a token.
    InvalidToken(crate::lexer::Error),
    /// Values are nested deeper than the parser follows them.
    TooDeep,
}

/// Why a source could not be parsed, and where.
#[derive(Clone, Copy, PartialEq, Eq, Structural, Debug)]
pub struct ParseError {
    pub kind: ParseErrorKind,
    pub at: Span,
}

/// How many values may be nested in one another.
pub const MAX_DEPTH: usize = 128;

/// What the parser works on: the tokens of a source and what they stand for.
pub struct Input {
    pub tokens: Seq<Token>,
    pub source: Seq<u8>,
    pub strings: Seq<Seq<char>>,
    pub numbers: Seq<NumberLiteralView>,
    pub durations: Seq<(u64, u32)>,
    pub datetimes: Seq<(i64, u32)>,
    pub uuids: Seq<Seq<u8>>,
    pub fault: Option<crate::lexer::Error>,
}

impl Input {
    /// The kind of the token at `pos`; behind the last token, the end of the source.
    pub open spec fn kind_at(self, pos: nat) -> TokenKind {
        if pos < self.tokens.len() {
            self.tokens[pos as int].kind
        } else {
            TokenKind::Eof
        }
    }

    /// The span of the token at `pos`; behind the last token, an empty span.
    pub open spec fn span_at(self, pos: nat) -> Span {
        if pos < self.tokens.len() {
            self.tokens[pos as int].span
        } else {
            Span { offset: 0, len: 0 }
        }
    }

    /// The place behind the token at `pos`. The parser does not go beyond the last token.
    pub open spec fn after(self, pos: nat) -> nat {
        if pos < self.tokens.len() {
            pos + 1
        } else {
            pos
        }
    }

    /// The place in its table that the token at `pos` names.
    pub open spec fn index_at(self, pos: nat) -> int {
        self.tokens[pos as int].data_index->Some_0.position()
    }

    /// The error for the token at `pos` where `expected` was expected: the fault of the
    /// lexer where the token is invalid, else that the token was not expected.
    pub open spec fn unexpected(self, pos: nat, expected: Expected) -> ParseError {
        ParseError {
            kind: match (self.kind_at(pos), self.fault) {
                (TokenKind::Invalid, Some(fault)) => ParseErrorKind::InvalidToken(fault),
                (found, _) => ParseErrorKind::Unexpected { found, expected },
            },
            at: self.span_at(pos),
        }
    }

    /// The text of the source that the token at `pos` spans.
    pub open spec fn source_text(self, pos: nat) -> Seq<char> {
        let span = self.span_at(pos);
        ascii_text(self.source.subrange(span.offset as int, span.end()))
    }

    /// Every token names an entry of the table that holds what it stands for, and spans
    /// bytes of the source.
    pub open spec fn wf(self) -> bool {
        forall|i: int|
            0 <= i < self.tokens.len() ==> {
                let token = #[trigger] self.tokens[i];
                &&& token.kind is Eof || token.span.end() <= self.source.len()
                &&& match token.kind {
                    TokenKind::Strand | TokenKind::Identifier | TokenKind::Parameter =>
                        token.data_index matches Some(index) && index.wf() && index.position()
                            < self.strings.len(),
                    TokenKind::Number => token.data_index matches Some(index) && index.wf()
                        && index.position() < self.numbers.len(),
                    TokenKind::Duration => token.data_index matches Some(index) && index.wf()
                        && index.position() < self.durations.len(),
                    TokenKind::DateTime => token.data_index matches Some(index) && index.wf()
                        && index.position() < self.datetimes.len(),
                    TokenKind::Uuid => token.data_index matches Some(index) && index.wf()
                        && index.position() < self.uuids.len(),
                    _ => true,
                }
            }
    }
}

/// What the parser works on where the lexer came to `tokens` and stands as `lexer`.
pub open spec fn input_of(lexer: &Lexer, tokens: Seq<Token>) -> Input {
    Input {
        tokens,
        source: lexer.source(),
        strings: lexer.strings@.map_values(|s: String| s@),
        numbers: lexer.numbers@.map_values(|n: crate::lexer::NumberLiteral| n@),
        durations: lexer.durations@.map_values(|d: crate::time::Duration| d@),
        datetimes: lexer.datetime@.map_values(|d: crate::time::Datetime| d@),
        uuids: lexer.uuid@.map_values(|u: crate::value::Uuid| u@),
        fault: lexer.error,
    }
}

/// Whether `input` is what the lexer makes of the source `src`: its tokens from the
/// first to the first that is the end of the source or invalid, each as the lexer's
/// steps give it, with the tables and the fault of the lexer behind the last of them.
pub open spec fn lexes_to(src: Seq<u8>, input: Input) -> bool {
    exists|states: Seq<Lexer>| #[trigger]
        lexing(states, input.tokens) && states[0].source() == src && input == input_of(
            &states.last(),
            input.tokens,
        )
}

/// What a production gives: what it stands for and the place behind it, or an error.
pub type Parsed<T> = Result<(T, nat), ParseError>;

/// What a parsing function returns.
pub type ParseResult<T> = Result<T, ParseError>;

/// The parser of the query language.
pub struct Parser<'a> {
    /// The lexer, which has lexed the source and holds what the tokens stand for.
    pub lexer: Lexer<'a>,
    /// The tokens of the source, up to its end or the first token that is invalid.
    pub tokens: Vec<Token>,
    /// The place of the token that is parsed next.
    pub position: usize,
}

impl<'a> Parser<'a> {
    /// What the parser works on.
    pub open spec fn input(&self) -> Input {
        input_of(&self.lexer, self.tokens@)
    }

    /// The place of the token that is parsed next.
    pub open spec fn pos(&self) -> nat {
        self.position as nat
    }

    /// The tokens fit the tables of the lexer, and the parser stands within them.
    pub open spec fn wf(&self) -> bool {
        &&& self.lexer.wf()
        &&& self.input().wf()
        &&& self.position <= self.tokens@.len()
    }

    /// Lexes `source` and stands before its first token.
    ///
    /// The source must not be longer than `u32::MAX` bytes.
    pub fn new(source: &'a str) -> (parser: Parser<'a>)
        requires
            encode_utf8(source@).len() <= u32::MAX,
        ensures
            parser.wf(),
            parser.pos() == 0,
            parser.lexer.source() == encode_utf8(source@),
            lexes_to(encode_utf8(source@), parser.input()),
    {
        let mut lexer = Lexer::new(source);
        let mut tokens: Vec<Token> = Vec::new();
        let ghost mut states: Seq<Lexer<'a>> = seq![lexer];
        loop
            invariant_except_break
                forall|i: int|
                    0 <= i < tokens@.len() ==> !((#[trigger] tokens@[i]).kind is Eof)
                        && !(tokens@[i].kind is Invalid),
            invariant
                lexer.wf(),
                lexer.source() == encode_utf8(source@),
                forall|i: int| 0 <= i < tokens@.len() ==> lexer.holds(#[trigger] tokens@[i]),
                forall|i: int|
                    0 <= i < tokens@.len() ==> (#[trigger] tokens@[i]).kind is Eof
                        || tokens@[i].span.end() <= lexer.source().len(),
                states.len() == tokens@.len() + 1,
                fresh(&states[0]),
                states[0].source() == encode_utf8(source@),
                states.last() == lexer,
                forall|i: int|
                    0 <= i < tokens@.len() ==> stepped(
                        &states[i],
                        &states[i + 1],
                        #[trigger] tokens@[i],
                    ),
            ensures
                lexing(states, tokens@),
            decreases lexer.source().len() - lexer.reader.position(),
        {
            let ghost before = lexer;
            let ghost held = tokens@;
            let ghost came = states;
            let token = lexer.next_token();
            proof {
                lexer.reader.lemma_bounds();
                assert forall|i: int| 0 <= i < held.len() implies lexer.holds(
                    #[trigger] held[i],
                ) by {
                    lexer.lemma_holds_after(&before, held[i]);
                }
                states = states.push(lexer);
            }
            let done = token.is_eof() || token.is_invalid();
            tokens.push(token);
            proof {
                assert forall|i: int| 0 <= i < tokens@.len() implies stepped(
                    &states[i],
                    &states[i + 1],
                    #[trigger] tokens@[i],
                ) by {
                    if i < held.len() {
                        assert(tokens@[i] == held[i]);
                        assert(states[i] == came[i]);
                        assert(states[i + 1] == came[i + 1]);
                    } else {
                        assert(states[i] == before);
                        assert(states[i + 1] == lexer);
                    }
                }
            }
            if done {
                proof {
                    assert forall|i: int| 0 <= i < tokens@.len() - 1 implies !((
                    #[trigger] tokens@[i]).kind is Eof) && !(tokens@[i].kind is Invalid) by {
                        assert(tokens@[i] == held[i]);
                    }
                }
                break ;
            }
        }
        let parser = Parser { lexer, tokens, position: 0 };
        proof {
            assert(parser.input() == input_of(&states.last(), parser.input().tokens));
            let input = parser.input();
            assert forall|i: int| 0 <= i < input.tokens.len() implies {
                let token = #[trigger] input.tokens[i];
                &&& token.kind is Eof || token.span.end() <= input.source.len()
                &&& match token.kind {
                    TokenKind::Strand | TokenKind::Identifier | TokenKind::Parameter =>
                        token.data_index matches Some(index) && index.wf() && index.position()
                            < input.strings.len(),
                    TokenKind::Number => token.data_index matches Some(index) && index.wf()
                        && index.position() < input.numbers.len(),
                    TokenKind::Duration => token.data_index matches Some(index) && index.wf()
                        && index.position() < input.durations.len(),
                    TokenKind::DateTime => token.data_index matches Some(index) && index.wf()
                        && index.position() < input.datetimes.len(),
                    TokenKind::Uuid => token.data_index matches Some(index) && index.wf()
                        && index.position() < input.uuids.len(),
                    _ => true,
                }
            } by {
                assert(parser.lexer.holds(parser.tokens@[i]));
            }
        }
        parser
    }

    /// The kind of the next token, which stays where it is.
    pub fn peek_kind(&self) -> (kind: TokenKind)
        requires
            self.wf(),
        ensures
            kind == self.input().kind_at(self.pos()),
    {
        if self.position < self.tokens.len() {
            self.tokens[self.position].kind
        } else {
            TokenKind::Eof
        }
    }

    /// The kind of the token `ahead` tokens behind the next one.
    pub fn peek_kind_at(&self, ahead: usize) -> (kind: TokenKind)
        requires
            self.wf(),
        ensures
            kind == self.input().kind_at(self.pos() + ahead as nat),
    {
        if ahead < self.tokens.len() - self.position {
            self.tokens[self.position + ahead].kind
        } else {
            TokenKind::Eof
        }
    }

    /// The next token, which stays where it is.
    pub fn peek(&self) -> (token: Token)
        requires
            self.wf(),
        ensures
            token.kind == self.input().kind_at(self.pos()),
            token.span == self.input().span_at(self.pos()),
            self.pos() < self.tokens@.len() ==> token == self.tokens@[self.pos() as int],
    {
        if self.position < self.tokens.len() {
            self.tokens[self.position]
        } else {
            Token { kind: TokenKind::Eof, span: Span::empty(), data_index: None }
        }
    }

    /// Goes on behind the next token.
    pub fn pop_peek(&mut self)
        requires
            old(self).wf(),
        ensures
            final(self).wf(),
            final(self).input() == old(self).input(),
            final(self).pos() == old(self).input().after(old(self).pos()),
    {
        if self.position < self.tokens.len() {
            self.position += 1;
        }
    }

    /// Returns the next token and goes on behind it.
    pub fn next(&mut self) -> (token: Token)
        requires
            old(self).wf(),
        ensures
            final(self).wf(),
            final(self).input() == old(self).input(),
            final(self).pos() == old(self).input().after(old(self).pos()),
            token.kind == old(self).input().kind_at(old(self).pos()),
            token.span == old(self).input().span_at(old(self).pos()),
            old(self).pos() < old(self).tokens@.len() ==> token == old(self).tokens@[old(self).pos() as int],
    {
        let token = self.peek();
        self.pop_peek();
        token
    }

    /// Whether the next token is of the kind `kind`; if so, the parser goes on behind it.
    pub fn eat(&mut self, kind: TokenKind) -> (eaten: bool)
        requires
            old(self).wf(),
        ensures
            final(self).wf(),
            final(self).input() == old(self).input(),
            eaten == (old(self).input().kind_at(old(self).pos()) == kind),
            final(self).pos() == if eaten {
                old(self).input().after(old(self).pos())
            } else {
                old(self).pos()
            },
    {
        if self.peek_kind() == kind {
            self.pop_peek();
            true
        } else {
            false
        }
    }

    /// The error for the next token where `expected` was expected.
    pub fn unexpected(&self, expected: Expected) -> (error: ParseError)
        requires
            self.wf(),
        ensures
            error == self.input().unexpected(self.pos(), expected),
    {
        let token = self.peek();
        let kind = match (token.kind, self.lexer.error) {
            (TokenKind::Invalid, Some(fault)) => ParseErrorKind::InvalidToken(fault),
            (found, _) => ParseErrorKind::Unexpected { found, expected },
        };
        ParseError { kind, at: token.span }
    }

    /// Goes on behind the next token, which must be of the kind `kind`.
    pub fn expect(&mut self, kind: TokenKind, expected: Expected) -> (result: ParseResult<()>)
        requires
            old(self).wf(),
        ensures
            final(self).wf(),
            final(self).input() == old(self).input(),
            match result {
                Ok(_) => old(self).input().kind_at(old(self).pos()) == kind && final(self).pos() == old(self).input().after(old(self).pos()),
                Err(e) => old(self).input().kind_at(old(self).pos()) != kind && e == old(self).input().unexpected(old(self).pos(), expected),
            },
    {
        if self.peek_kind() == kind {
            self.pop_peek();
            Ok(())
        } else {
            Err(self.unexpected(expected))
        }
    }

    /// The text of the source that the next token spans.
    pub fn source_text(&self) -> (text: String)
        requires
            self.wf(),
            self.pos() < self.tokens@.len(),
            !(self.input().kind_at(self.pos()) is Eof),
        ensures
            text@ == self.input().source_text(self.pos()),
    {
        let span = self.tokens[self.position].span;
        proof {
            self.lexer.reader.lemma_bounds();
        }
        let from = span.offset as usize;
        let to = from + span.len as usize;
        text_of(self.lexer.reader.full(), from, to)
    }
}

} // verus!

//! The lexer: turns the bytes of a source into tokens, one at a time.
//!
//! Tokens are kept small. What a string, a number, a duration, a date-time or a uuid
//! holds is put into a table of the lexer, and the token says where.

use vstd::prelude::*;
use vstd::utf8::encode_utf8;
use crate::reader::BytesReader;
use crate::reader::CharError;
use crate::time::Datetime;
use crate::time::Duration;
use crate::token::DataIndex;
use crate::token::Span;
use crate::token::Token;
use crate::token::TokenKind;
use crate::value::Uuid;

pub mod byte;
pub mod char;
pub mod datetime;
pub mod duration;
pub mod ident;
pub mod number;
pub mod strand;
pub mod uuid;

verus! {

/// Why a token could not be lexed.
#[derive(Clone, Copy, PartialEq, Eq, Structural, Debug)]
pub enum Error {
    /// Lexer encountered an unexpected character.
    UnexpectedCharacter(char),
    /// The character behind a backslash starts no escape sequence.
    InvalidEscapeCharacter(char),
    /// Lexer encountered unexpected end of source characters.
    UnexpectedEof,
    /// The source was not valid UTF-8.
    InvalidUtf8,
    /// The token should have ended with this character.
    ExpectedEnd(char),
    /// Failed to lex a date-time.
    DateTime,
    /// Failed to lex a uuid.
    Uuid,
    /// Failed to lex a duration.
    Duration,
    /// Failed to lex a number.
    Number,
    /// A table of the lexer is full.
    TooManyValues,
}

impl Error {
    /// The lexer's error for a fault met while a character was read.
    pub fn from_char_error(value: CharError) -> (error: Error)
        ensures
            error == match value {
                CharError::Eof => Error::UnexpectedEof,
                CharError::Unicode => Error::InvalidUtf8,
            },
    {
        match value {
            CharError::Eof => Error::UnexpectedEof,
            CharError::Unicode => Error::InvalidUtf8,
        }
    }
}

/// A number as it is written in the source.
#[derive(Debug)]
pub enum NumberLiteral {
    /// A whole number that fits 64 bits.
    Integer(i64),
    /// A number with a fraction or an exponent: its text, without a suffix.
    Float(String),
    /// A number with the suffix `dec`, or a whole number beyond 64 bits: its text,
    /// without the suffix.
    Decimal(String),
}

/// What a `NumberLiteral` stands for.
pub enum NumberLiteralView {
    Integer(i64),
    Float(Seq<char>),
    Decimal(Seq<char>),
}

impl View for NumberLiteral {
    type V = NumberLiteralView;

    open spec fn view(&self) -> NumberLiteralView {
        match self {
            NumberLiteral::Integer(i) => NumberLiteralView::Integer(*i),
            NumberLiteral::Float(text) => NumberLiteralView::Float(text@),
            NumberLiteral::Decimal(text) => NumberLiteralView::Decimal(text@),
        }
    }
}

/// The most entries that a table of the lexer holds.
pub const TABLE_LIMIT: usize = 0xffff_fffe;

/// The lexer of the query language.
/// Takes a slice of bytes and turns it into tokens.
///
/// The lexer generates tokens lazily. each time next is called on the lexer it will try to lex the
/// next bytes in the give source as a token.
pub struct Lexer<'a> {
    /// The reader for reading the source bytes.
    pub reader: BytesReader<'a>,
    /// The one past the last character of the previous token.
    pub last_offset: u32,
    /// A buffer used to build the value of tokens which can't be read straight from the source.
    /// like for example strings with escape characters.
    pub scratch: String,
    pub numbers: Vec<NumberLiteral>,
    /// Strings build from the source.
    pub strings: Vec<String>,
    pub durations: Vec<Duration>,
    pub datetime: Vec<Datetime>,
    pub uuid: Vec<Uuid>,
    pub error: Option<Error>,
}

/// Whether `sub` is the start of `all`.
pub open spec fn extends<T>(all: Seq<T>, sub: Seq<T>) -> bool {
    sub.len() <= all.len() && forall|i: int| 0 <= i < sub.len() ==> all[i] == sub[i]
}

impl<'a> Lexer<'a> {
    /// The source fits 32 bits, the reader stands within it, and the token being lexed
    /// starts at or before the reader.
    pub open spec fn wf(&self) -> bool {
        &&& self.reader.wf()
        &&& self.reader.source().len() <= u32::MAX
        &&& self.last_offset <= self.reader.position()
        &&& self.scratch@.len() == 0
    }

    /// All bytes of the source.
    pub open spec fn source(&self) -> Seq<u8> {
        self.reader.source()
    }

    /// Whether the token names an entry of the table that holds what it stands for, or
    /// names none where its kind holds nothing.
    pub open spec fn holds(&self, token: Token) -> bool {
        match token.kind {
            TokenKind::Strand | TokenKind::Identifier | TokenKind::Parameter => token.data_index
                matches Some(i) && i.wf() && i.position() < self.strings@.len(),
            TokenKind::Number => token.data_index matches Some(i) && i.wf() && i.position()
                < self.numbers@.len(),
            TokenKind::Duration => token.data_index matches Some(i) && i.wf() && i.position()
                < self.durations@.len(),
            TokenKind::DateTime => token.data_index matches Some(i) && i.wf() && i.position()
                < self.datetime@.len(),
            TokenKind::Uuid => token.data_index matches Some(i) && i.wf() && i.position()
                < self.uuid@.len(),
            _ => token.data_index is None,
        }
    }

    /// The lexer went on from `before`: the same source, and tables that hold what they
    /// held, so that every token that was valid still is.
    pub open spec fn follows(&self, before: &Lexer<'a>) -> bool {
        &&& self.source() == before.source()
        &&& extends(self.strings@, before.strings@)
        &&& extends(self.numbers@, before.numbers@)
        &&& extends(self.durations@, before.durations@)
        &&& extends(self.datetime@, before.datetime@)
        &&& extends(self.uuid@, before.uuid@)
    }

    /// The token spans the bytes from where the lexer stood to where it stands now.
    pub open spec fn spanned(&self, token: Token, from: int) -> bool {
        &&& token.span.offset == from
        &&& token.span.end() == self.reader.position()
        &&& self.last_offset == self.reader.position()
    }

    /// A token that named an entry of a table still names it after the lexer went on.
    pub proof fn lemma_holds_after(&self, before: &Lexer<'a>, token: Token)
        requires
            self.follows(before),
            before.holds(token),
        ensures
            self.holds(token),
    {
    }

    /// Create a new lexer.
    ///
    /// The source must not be longer than `u32::MAX` bytes.
    pub fn new(source: &'a str) -> (lexer: Lexer<'a>)
        requires
            encode_utf8(source@).len() <= u32::MAX,
        ensures
            lexer.wf(),
            lexer.source() == encode_utf8(source@),
            lexer.reader.position() == 0,
            lexer.last_offset == 0,
            lexer.strings@.len() == 0,
            lexer.numbers@.len() == 0,
            lexer.durations@.len() == 0,
            lexer.datetime@.len() == 0,
            lexer.uuid@.len() == 0,
            lexer.error is None,
    {
        let reader = BytesReader::new(source.as_bytes());
        Lexer {
            reader,
            last_offset: 0,
            scratch: String::new(),
            numbers: Vec::new(),
            strings: Vec::new(),
            datetime: Vec::new(),
            durations: Vec::new(),
            uuid: Vec::new(),
            error: None,
        }
    }

    /// Creates the eof token.
    ///
    /// An eof token has tokenkind Eof and an span which points to the last character of the
    /// source.
    pub fn eof_token(&mut self) -> (token: Token)
        ensures
            *final(self) == *old(self),
            token.kind == TokenKind::Eof,
            token.data_index is None,
            token.span.len == 1,
            token.span.offset == if old(self).last_offset == 0 {
                0
            } else {
                old(self).last_offset - 1
            },
    {
        Token {
            kind: TokenKind::Eof,
            span: Span {
                offset: if self.last_offset == 0 {
                    0
                } else {
                    self.last_offset - 1
                },
                len: 1,
            },
            data_index: None,
        }
    }

    /// Skip the last consumed bytes in the reader.
    ///
    /// The bytes consumed before this point won't be part of the span.
    pub fn skip_offset(&mut self)
        requires
            old(self).wf(),
        ensures
            final(self).wf(),
            final(self).follows(old(self)),
            final(self).reader == old(self).reader,
            final(self).last_offset == old(self).reader.position(),
            final(self).error == old(self).error,
            final(self).strings == old(self).strings,
            final(self).numbers == old(self).numbers,
            final(self).durations == old(self).durations,
            final(self).datetime == old(self).datetime,
            final(self).uuid == old(self).uuid,
    {
        proof {
            self.reader.lemma_bounds();
        }
        self.last_offset = self.reader.offset() as u32;
    }

    // Returns the span for the current token being lexed.
    pub fn current_span(&self) -> (span: Span)
        requires
            self.wf(),
        ensures
            span.offset == self.last_offset,
            span.end() == self.reader.position(),
    {
        proof {
            self.reader.lemma_bounds();
        }
        let new_offset = self.reader.offset() as u32;
        let len = new_offset - self.last_offset;
        Span { offset: self.last_offset, len }
    }

    /// Builds a token from an TokenKind.
    ///
    /// Attaches a span to the token and returns, updates the new offset.
    pub fn finish_token(&mut self, kind: TokenKind, data_index: Option<DataIndex>) -> (token: Token)
        requires
            old(self).wf(),
        ensures
            final(self).wf(),
            final(self).follows(old(self)),
            final(self).reader == old(self).reader,
            final(self).error == old(self).error,
            final(self).strings == old(self).strings,
            final(self).numbers == old(self).numbers,
            final(self).durations == old(self).durations,
            final(self).datetime == old(self).datetime,
            final(self).uuid == old(self).uuid,
            token.kind == kind,
            token.data_index == data_index,
            final(self).spanned(token, old(self).last_offset as int),
    {
        let span = self.current_span();
        proof {
            self.reader.lemma_bounds();
        }
        self.last_offset = self.reader.offset() as u32;
        Token { kind, span, data_index }
    }

    /// Return an invalid token.
    pub fn invalid_token(&mut self, error: Error) -> (token: Token)
        requires
            old(self).wf(),
        ensures
            final(self).wf(),
            final(self).follows(old(self)),
            final(self).reader == old(self).reader,
            final(self).error == Some(error),
            final(self).strings == old(self).strings,
            final(self).numbers == old(self).numbers,
            final(self).durations == old(self).durations,
            final(self).datetime == old(self).datetime,
            final(self).uuid == old(self).uuid,
            token.kind == TokenKind::Invalid,
            token.data_index is None,
            final(self).spanned(token, old(self).last_offset as int),
    {
        self.error = Some(error);
        self.finish_token(TokenKind::Invalid, None)
    }

    /// Finish a token which contains a string like value.
    ///
    /// Puts `text` into the table of strings and attaches its place to the token. Where the
    /// table is full, the token is invalid.
    pub fn finish_string_token(&mut self, kind: TokenKind, text: String) -> (token: Token)
        requires
            old(self).wf(),
            kind is Strand || kind is Identifier || kind is Parameter,
        ensures
            final(self).wf(),
            final(self).follows(old(self)),
            final(self).reader == old(self).reader,
            final(self).numbers == old(self).numbers,
            final(self).durations == old(self).durations,
            final(self).datetime == old(self).datetime,
            final(self).uuid == old(self).uuid,
            final(self).spanned(token, old(self).last_offset as int),
            final(self).holds(token),
            old(self).strings@.len() < TABLE_LIMIT ==> {
                &&& token.kind == kind
                &&& final(self).strings@ == old(self).strings@.push(text)
                &&& token.data_index == Some(DataIndex::from_index_spec(old(self).strings@.len() as u32))
                &&& final(self).error == old(self).error
            },
            old(self).strings@.len() >= TABLE_LIMIT ==> {
                &&& token.kind == TokenKind::Invalid
                &&& final(self).strings == old(self).strings
                &&& final(self).error == Some(Error::TooManyValues)
            },
    {
        if self.strings.len() >= TABLE_LIMIT {
            return self.invalid_token(Error::TooManyValues);
        }
        let id = self.strings.len() as u32;
        self.strings.push(text);
        self.finish_token(kind, Some(DataIndex::from_index(id)))
    }

    /// Puts `number` into the table of numbers and attaches its place to a number token.
    pub fn finish_number_token(&mut self, number: NumberLiteral) -> (token: Token)
        requires
            old(self).wf(),
        ensures
            final(self).wf(),
            final(self).follows(old(self)),
            final(self).reader == old(self).reader,
            final(self).strings == old(self).strings,
            final(self).durations == old(self).durations,
            final(self).datetime == old(self).datetime,
            final(self).uuid == old(self).uuid,
            final(self).spanned(token, old(self).last_offset as int),
            final(self).holds(token),
            old(self).numbers@.len() < TABLE_LIMIT ==> {
                &&& token.kind == TokenKind::Number
                &&& final(self).numbers@ == old(self).numbers@.push(number)
                &&& token.data_index == Some(DataIndex::from_index_spec(old(self).numbers@.len() as u32))
                &&& final(self).error == old(self).error
            },
            old(self).numbers@.len() >= TABLE_LIMIT ==> {
                &&& token.kind == TokenKind::Invalid
                &&& final(self).numbers == old(self).numbers
                &&& final(self).error == Some(Error::TooManyValues)
            },
    {
        if self.numbers.len() >= TABLE_LIMIT {
            return self.invalid_token(Error::TooManyValues);
        }
        let id = self.numbers.len() as u32;
        self.numbers.push(number);
        self.finish_token(TokenKind::Number, Some(DataIndex::from_index(id)))
    }

    /// Moves the lexer state back to before the give span.
    ///
    /// # Warning
    /// Moving the lexer into a state where the next byte is within a multibyte character will
    /// result in spurious errors.
    pub fn backup_before(&mut self, span: Span)
        requires
            old(self).wf(),
            span.offset <= old(self).reader.position(),
        ensures
            final(self).wf(),
            final(self).follows(old(self)),
            final(self).reader.position() == span.offset,
            final(self).last_offset == span.offset,
    {
        self.reader.backup(span.offset as usize);
        self.last_offset = span.offset;
    }

    /// Moves the lexer state to after the give span.
    ///
    /// # Warning
    /// Moving the lexer into a state where the next byte is within a multibyte character will
    /// result in spurious errors.
    pub fn backup_after(&mut self, span: Span)
        requires
            old(self).wf(),
            span.end() <= old(self).reader.position(),
        ensures
            final(self).wf(),
            final(self).follows(old(self)),
            final(self).reader.position() == span.end(),
            final(self).last_offset == span.end(),
    {
        proof {
            self.reader.lemma_bounds();
        }
        let offset = span.offset + span.len;
        self.reader.backup(offset as usize);
        self.last_offset = offset;
    }

    /// Checks if the next byte is the give byte, if it is it consumes the byte and returns true.
    /// Otherwise returns false.
    ///
    /// Also returns false if there is no next character.
    pub fn eat(&mut self, byte: u8) -> (eaten: bool)
        requires
            old(self).wf(),
        ensures
            final(self).wf(),
            final(self).follows(old(self)),
            final(self).last_offset == old(self).last_offset,
            final(self).error == old(self).error,
            final(self).strings == old(self).strings,
            final(self).numbers == old(self).numbers,
            final(self).durations == old(self).durations,
            final(self).datetime == old(self).datetime,
            final(self).uuid == old(self).uuid,
            eaten == (old(self).reader.rest().len() > 0 && old(self).reader.rest()[0] == byte),
            final(self).reader.position() == old(self).reader.position() + if eaten {
                1int
            } else {
                0int
            },
    {
        proof {
            self.reader.lemma_bounds();
        }
        match self.reader.peek() {
            Some(next) => {
                if next == byte {
                    self.reader.next();
                    true
                } else {
                    false
                }
            },
            None => false,
        }
    }

    /// Checks if the closure returns true when given the next byte, if it is it consumes the byte
    /// and returns true. Otherwise returns false.
    ///
    /// Also returns false if there is no next character.
    pub fn eat_when<F: FnOnce(u8) -> bool>(&mut self, f: F) -> (eaten: bool)
        requires
            old(self).wf(),
            forall|b: u8| call_requires(f, (b,)),
        ensures
            final(self).wf(),
            final(self).follows(old(self)),
            final(self).last_offset == old(self).last_offset,
            final(self).error == old(self).error,
            final(self).strings == old(self).strings,
            final(self).numbers == old(self).numbers,
            final(self).durations == old(self).durations,
            final(self).datetime == old(self).datetime,
            final(self).uuid == old(self).uuid,
            old(self).reader.rest().len() == 0 ==> !eaten,
            old(self).reader.rest().len() > 0 ==> call_ensures(
                f,
                (old(self).reader.rest()[0],),
                eaten,
            ),
            final(self).reader.position() == old(self).reader.position() + if eaten {
                1int
            } else {
                0int
            },
    {
        proof {
            self.reader.lemma_bounds();
        }
        match self.reader.peek() {
            Some(next) => {
                if f(next) {
                    self.reader.next();
                    true
                } else {
                    false
                }
            },
            None => false,
        }
    }
}

} // verus!

//! Tokens that start with a character beyond ASCII: the mathematical operators, and
//! identifiers between angle brackets.

use vstd::prelude::*;
use crate::lexer::Error;
use crate::lexer::Lexer;
use crate::lexer::TABLE_LIMIT;
use crate::reader::first_char;
use crate::reader::first_char_read;
use crate::reader::CharError;
use crate::strings::push_char;
use crate::token::DataIndex;
use crate::token::Operator;
use crate::token::Token;
use crate::token::TokenKind;

verus! {

/// The kind of the token that is written as this one character.
pub open spec fn char_kind(c: char) -> Option<TokenKind> {
    if c == '∋' {
        Some(TokenKind::Operator(Operator::Contains))
    } else if c == '∌' {
        Some(TokenKind::Operator(Operator::NotContains))
    } else if c == '∈' {
        Some(TokenKind::Operator(Operator::Inside))
    } else if c == '∉' {
        Some(TokenKind::Operator(Operator::NotInside))
    } else if c == '⊇' {
        Some(TokenKind::Operator(Operator::ContainsAll))
    } else if c == '⊃' {
        Some(TokenKind::Operator(Operator::ContainsAny))
    } else if c == '⊅' {
        Some(TokenKind::Operator(Operator::ContainsNone))
    } else if c == '⊆' {
        Some(TokenKind::Operator(Operator::AllInside))
    } else if c == '⊂' {
        Some(TokenKind::Operator(Operator::AnyInside))
    } else if c == '⊄' {
        Some(TokenKind::Operator(Operator::NoneInside))
    } else if c == '×' {
        Some(TokenKind::Operator(Operator::Mult))
    } else if c == '÷' {
        Some(TokenKind::Operator(Operator::Divide))
    } else {
        None
    }
}

/// The characters of the identifier that goes on at `at`, behind those read already, up to
/// the character `close`, and where the identifier ends, behind `close`; or why it is no
/// identifier.
pub open spec fn surrounded_at(src: Seq<u8>, at: int, close: char, read: Seq<char>) -> Result<
    (Seq<char>, int),
    Error,
>
    decreases src.len() - at,
{
    if at < 0 || at >= src.len() {
        Err(Error::ExpectedEnd(close))
    } else {
        match first_char(src.skip(at)) {
            Ok(c) => if c == close {
                Ok((read, at + 1 + first_char_read(src.skip(at))))
            } else {
                surrounded_at(src, at + 1 + first_char_read(src.skip(at)), close, read.push(c))
            },
            Err(CharError::Eof) => Err(Error::UnexpectedEof),
            Err(CharError::Unicode) => Err(Error::InvalidUtf8),
        }
    }
}

/// What holds where the lexer lexed the identifier between delimiters whose text starts
/// at `at`: the token is an identifier where one is written there and the table has room,
/// and then the table holds, at its end, the text between the delimiters. Else
/// the token is invalid and the fault is kept.
pub open spec fn surrounded_lexed(
    before: &Lexer,
    after: &Lexer,
    token: Token,
    at: int,
    close: char,
) -> bool {
    let lexed = surrounded_at(before.source(), at, close, Seq::empty());
    &&& (token.kind is Identifier || token.kind is Invalid)
    &&& token.kind is Identifier <==> lexed is Ok && before.strings@.len() < TABLE_LIMIT
    &&& token.kind is Identifier ==> {
        &&& token.span.end() == lexed->Ok_0.1
        &&& after.error == before.error
        &&& after.strings@.len() == before.strings@.len() + 1
        &&& after.strings@.last()@ == lexed->Ok_0.0
        &&& token.data_index == Some(DataIndex::from_index_spec(before.strings@.len() as u32))
    }
    &&& token.kind is Invalid ==> after.strings == before.strings && after.error == Some(
        match lexed {
            Ok(_) => Error::TooManyValues,
            Err(e) => e,
        },
    )
}

/// What holds where the lexer lexed the token that starts at `from` with a byte beyond
/// ASCII. Where the source ends inside the first character, where the bytes are no
/// character, or where no token starts with the character, the token is invalid and the
/// fault is kept.
pub open spec fn char_lexed(before: &Lexer, after: &Lexer, token: Token, from: int) -> bool {
    let src = before.source();
    let read = from + 1 + first_char_read(src.skip(from));
    match first_char(src.skip(from)) {
        Err(CharError::Eof) => token.kind is Invalid && after.error == Some(
            Error::UnexpectedEof,
        ) && after.strings == before.strings && token.span.end() == read,
        Err(CharError::Unicode) => token.kind is Invalid && after.error == Some(
            Error::InvalidUtf8,
        ) && after.strings == before.strings && token.span.end() == read,
        Ok(c) => if c == '⟨' {
            surrounded_lexed(before, after, token, read, '⟩')
        } else {
            &&& after.strings == before.strings
            &&& token.span.end() == read
            &&& match char_kind(c) {
                Some(kind) => token.kind == kind && after.error == before.error,
                None => token.kind is Invalid && after.error == Some(
                    Error::UnexpectedCharacter(c),
                ),
            }
        },
    }
}

/// The kind of the token that is written as this one character.
pub fn kind_of_char(c: char) -> (kind: Option<TokenKind>)
    ensures
        kind == char_kind(c),
{
    if c == '∋' {
        Some(TokenKind::Operator(Operator::Contains))
    } else if c == '∌' {
        Some(TokenKind::Operator(Operator::NotContains))
    } else if c == '∈' {
        Some(TokenKind::Operator(Operator::Inside))
    } else if c == '∉' {
        Some(TokenKind::Operator(Operator::NotInside))
    } else if c == '⊇' {
        Some(TokenKind::Operator(Operator::ContainsAll))
    } else if c == '⊃' {
        Some(TokenKind::Operator(Operator::ContainsAny))
    } else if c == '⊅' {
        Some(TokenKind::Operator(Operator::ContainsNone))
    } else if c == '⊆' {
        Some(TokenKind::Operator(Operator::AllInside))
    } else if c == '⊂' {
        Some(TokenKind::Operator(Operator::AnyInside))
    } else if c == '⊄' {
        Some(TokenKind::Operator(Operator::NoneInside))
    } else if c == '×' {
        Some(TokenKind::Operator(Operator::Mult))
    } else if c == '÷' {
        Some(TokenKind::Operator(Operator::Divide))
    } else {
        None
    }
}

impl<'a> Lexer<'a> {
    /// Lexes the identifier between delimiters whose opening delimiter was read last, up
    /// to the character `close`.
    pub fn lex_surrounded_ident(&mut self, close: char) -> (token: Token)
        requires
            old(self).wf(),
        ensures
            final(self).wf(),
            final(self).follows(old(self)),
            final(self).holds(token),
            final(self).spanned(token, old(self).last_offset as int),
            final(self).numbers == old(self).numbers,
            final(self).durations == old(self).durations,
            final(self).datetime == old(self).datetime,
            final(self).uuid == old(self).uuid,
            surrounded_lexed(
                old(self),
                final(self),
                token,
                old(self).reader.position(),
                close,
            ),
            final(self).reader.position() >= old(self).reader.position(),
    {
        let mut text = String::new();
        let ghost src = self.source();
        let ghost start = self.reader.position();
        loop
            invariant
                self.wf(),
                self.follows(old(self)),
                self.source() == src,
                src == old(self).source(),
                self.last_offset == old(self).last_offset,
                self.error == old(self).error,
                self.strings == old(self).strings,
                self.numbers == old(self).numbers,
                self.durations == old(self).durations,
                self.datetime == old(self).datetime,
                self.uuid == old(self).uuid,
                start == old(self).reader.position(),
                start <= self.reader.position(),
                surrounded_at(src, start, close, Seq::empty()) == surrounded_at(
                    src,
                    self.reader.position(),
                    close,
                    text@,
                ),
            decreases src.len() - self.reader.position(),
        {
            let ghost at = self.reader.position();
            proof {
                self.reader.lemma_bounds();
            }
            let byte = match self.reader.next() {
                Some(byte) => byte,
                None => return self.invalid_token(Error::ExpectedEnd(close)),
            };
            proof {
                assert(seq![byte] + self.reader.rest() =~= src.skip(at));
            }
            match self.reader.complete_char(byte) {
                Ok(c) => {
                    proof {
                        self.reader.lemma_bounds();
                    }
                    if c == close {
                        return self.finish_string_token(TokenKind::Identifier, text);
                    }
                    push_char(&mut text, c);
                },
                Err(e) => return self.invalid_token(Error::from_char_error(e)),
            }
        }
    }

    /// Lexes the token whose first byte, `byte`, is beyond ASCII and was read last.
    pub fn lex_char(&mut self, byte: u8) -> (token: Token)
        requires
            old(self).wf(),
            old(self).reader.position() == old(self).last_offset + 1,
            old(self).source()[old(self).last_offset as int] == byte,
        ensures
            final(self).wf(),
            final(self).follows(old(self)),
            final(self).holds(token),
            !(token.kind is Eof) ==> final(self).spanned(token, old(self).last_offset as int),
            final(self).numbers == old(self).numbers,
            final(self).durations == old(self).durations,
            final(self).datetime == old(self).datetime,
            final(self).uuid == old(self).uuid,
            char_lexed(old(self), final(self), token, old(self).last_offset as int),
            final(self).reader.position() > old(self).last_offset,
    {
        proof {
            self.reader.lemma_bounds();
            assert(seq![byte] + self.reader.rest() =~= self.source().skip(
                self.last_offset as int,
            ));
        }
        let c = match self.reader.complete_char(byte) {
            Ok(c) => c,
            Err(e) => return self.invalid_token(Error::from_char_error(e)),
        };
        if c == '⟨' {
            return self.lex_surrounded_ident('⟩');
        }
        match kind_of_char(c) {
            Some(kind) => self.finish_token(kind, None),
            None => self.invalid_token(Error::UnexpectedCharacter(c)),
        }
    }
}

} // verus!

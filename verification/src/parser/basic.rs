//! The productions of one token: identifiers, durations and numbers.

use vstd::prelude::*;
use crate::ast::Ident;
use crate::lexer::NumberLiteral;
use crate::lexer::NumberLiteralView;
use crate::parser::Expected;
use crate::parser::Input;
use crate::parser::ParseResult;
use crate::parser::Parsed;
use crate::parser::Parser;
use crate::time::Duration;
use crate::token::TokenKind;

verus! {

impl Input {
    /// An identifier at `pos`: an identifier token, whose text the table of strings
    /// holds, or a reserved word, whose text is as the source spells it.
    pub open spec fn ident(self, pos: nat) -> Parsed<Seq<char>> {
        match self.kind_at(pos) {
            TokenKind::Identifier => Ok((self.strings[self.index_at(pos)], pos + 1)),
            TokenKind::Keyword(_) | TokenKind::Language(_) | TokenKind::Algorithm(_) => Ok(
                (self.source_text(pos), pos + 1),
            ),
            _ => Err(self.unexpected(pos, Expected::Identifier)),
        }
    }

    /// A duration at `pos`.
    pub open spec fn duration(self, pos: nat) -> Parsed<(u64, u32)> {
        match self.kind_at(pos) {
            TokenKind::Duration => Ok((self.durations[self.index_at(pos)], pos + 1)),
            _ => Err(self.unexpected(pos, Expected::Duration)),
        }
    }

    /// A number at `pos`.
    pub open spec fn number(self, pos: nat) -> Parsed<NumberLiteralView> {
        match self.kind_at(pos) {
            TokenKind::Number => Ok((self.numbers[self.index_at(pos)], pos + 1)),
            _ => Err(self.unexpected(pos, Expected::Number)),
        }
    }
}

impl NumberLiteral {
    /// A copy of the number.
    pub fn duplicate(&self) -> (copy: NumberLiteral)
        ensures
            copy@ == self@,
    {
        match self {
            NumberLiteral::Integer(i) => NumberLiteral::Integer(*i),
            NumberLiteral::Float(text) => NumberLiteral::Float(text.clone()),
            NumberLiteral::Decimal(text) => NumberLiteral::Decimal(text.clone()),
        }
    }
}

impl<'a> Parser<'a> {
    /// The text that the next token holds in the table of strings.
    pub fn token_string(&self) -> (text: String)
        requires
            self.wf(),
            self.input().kind_at(self.pos()) is Identifier || self.input().kind_at(
                self.pos(),
            ) is Strand || self.input().kind_at(self.pos()) is Parameter,
        ensures
            text@ == self.input().strings[self.input().index_at(self.pos())],
    {
        let token = self.peek();
        assert(self.pos() < self.tokens@.len());
        assert(self.input().tokens[self.pos() as int] == token);
        let index = token.data_index.unwrap().index() as usize;
        self.lexer.strings[index].clone()
    }

    /// Parses an identifier.
    pub fn parse_ident(&mut self) -> (result: ParseResult<Ident>)
        requires
            old(self).wf(),
        ensures
            final(self).wf(),
            final(self).input() == old(self).input(),
            match result {
                Ok(name) => old(self).input().ident(old(self).pos()) == Ok::<
                    (Seq<char>, nat),
                    crate::parser::ParseError,
                >((name@, final(self).pos())),
                Err(e) => old(self).input().ident(old(self).pos()) == Err::<
                    (Seq<char>, nat),
                    crate::parser::ParseError,
                >(e) && final(self).pos() == old(self).pos(),
            },
    {
        match self.peek_kind() {
            TokenKind::Identifier => {
                let text = self.token_string();
                self.pop_peek();
                Ok(Ident(text))
            },
            TokenKind::Keyword(_) | TokenKind::Language(_) | TokenKind::Algorithm(_) => {
                let text = self.source_text();
                self.pop_peek();
                Ok(Ident(text))
            },
            _ => Err(self.unexpected(Expected::Identifier)),
        }
    }

    /// Parses an identifier as it is written: the text of the identifier.
    pub fn parse_raw_ident(&mut self) -> (result: ParseResult<String>)
        requires
            old(self).wf(),
        ensures
            final(self).wf(),
            final(self).input() == old(self).input(),
            match result {
                Ok(name) => old(self).input().ident(old(self).pos()) == Ok::<
                    (Seq<char>, nat),
                    crate::parser::ParseError,
                >((name@, final(self).pos())),
                Err(e) => old(self).input().ident(old(self).pos()) == Err::<
                    (Seq<char>, nat),
                    crate::parser::ParseError,
                >(e) && final(self).pos() == old(self).pos(),
            },
    {
        match self.parse_ident() {
            Ok(name) => Ok(name.0),
            Err(e) => Err(e),
        }
    }

    /// Parses a duration.
    pub fn parse_duration(&mut self) -> (result: ParseResult<Duration>)
        requires
            old(self).wf(),
        ensures
            final(self).wf(),
            final(self).input() == old(self).input(),
            match result {
                Ok(duration) => old(self).input().duration(old(self).pos()) == Ok::<
                    ((u64, u32), nat),
                    crate::parser::ParseError,
                >((duration@, final(self).pos())),
                Err(e) => old(self).input().duration(old(self).pos()) == Err::<
                    ((u64, u32), nat),
                    crate::parser::ParseError,
                >(e) && final(self).pos() == old(self).pos(),
            },
    {
        match self.peek_kind() {
            TokenKind::Duration => {
                let token = self.peek();
                assert(self.input().tokens[self.pos() as int] == token);
                let index = token.data_index.unwrap().index() as usize;
                let duration = self.lexer.durations[index];
                self.pop_peek();
                Ok(duration)
            },
            _ => Err(self.unexpected(Expected::Duration)),
        }
    }

    /// Parses a number.
    pub fn parse_number(&mut self) -> (result: ParseResult<NumberLiteral>)
        requires
            old(self).wf(),
        ensures
            final(self).wf(),
            final(self).input() == old(self).input(),
            match result {
                Ok(number) => old(self).input().number(old(self).pos()) == Ok::<
                    (NumberLiteralView, nat),
                    crate::parser::ParseError,
                >((number@, final(self).pos())),
                Err(e) => old(self).input().number(old(self).pos()) == Err::<
                    (NumberLiteralView, nat),
                    crate::parser::ParseError,
                >(e) && final(self).pos() == old(self).pos(),
            },
    {
        match self.peek_kind() {
            TokenKind::Number => {
                let token = self.peek();
                assert(self.input().tokens[self.pos() as int] == token);
                let index = token.data_index.unwrap().index() as usize;
                let number = self.lexer.numbers[index].duplicate();
                self.pop_peek();
                Ok(number)
            },
            _ => Err(self.unexpected(Expected::Number)),
        }
    }
}

} // verus!

//! Values: literals, parameters, paths, record ids, arrays, objects, and expressions
//! over them.
//!
//! An operator binds its operands with a strength to each side. An expression takes up
//! the operators that follow it as long as they bind at least as strongly as the least
//! strength asked for; what binds more strongly is grouped first.

use vstd::prelude::*;
use crate::ast::Expr;
use crate::ast::ExprView;
use crate::ast::Id;
use crate::ast::IdView;
use crate::ast::Operator;
use crate::ast::exprs_view;
use crate::ast::fields_view;
use crate::lexer::NumberLiteral;
use crate::lexer::NumberLiteralView;
use crate::parser::Expected;
use crate::parser::Input;
use crate::parser::ParseError;
use crate::parser::ParseErrorKind;
use crate::parser::ParseResult;
use crate::parser::Parsed;
use crate::parser::Parser;
use crate::parser::MAX_DEPTH;
use crate::token::Delim;
use crate::token::Keyword;
use crate::token::TokenKind;

verus! {

/// The strength with which an operator before a value binds it.
pub const UNARY_STRENGTH: u8 = 15;

/// The operator between two values that a token of this kind is, and the strengths with
/// which it binds the value on its left and the value on its right.
pub open spec fn binary_op(kind: TokenKind) -> Option<(Operator, u8, u8)> {
    match kind {
        TokenKind::Operator(crate::token::Operator::Or) => Some((Operator::Or, 1, 2)),
        TokenKind::Keyword(Keyword::Or) => Some((Operator::Or, 1, 2)),
        TokenKind::Operator(crate::token::Operator::And) => Some((Operator::And, 3, 4)),
        TokenKind::Keyword(Keyword::And) => Some((Operator::And, 3, 4)),
        TokenKind::Operator(crate::token::Operator::Tco) => Some((Operator::Tco, 5, 6)),
        TokenKind::Operator(crate::token::Operator::Nco) => Some((Operator::Nco, 5, 6)),
        TokenKind::Operator(crate::token::Operator::Equal) => Some((Operator::Equal, 7, 8)),
        TokenKind::Operator(crate::token::Operator::Exact) => Some((Operator::Exact, 7, 8)),
        TokenKind::Operator(crate::token::Operator::NotEqual) => Some(
            (Operator::NotEqual, 7, 8),
        ),
        TokenKind::Operator(crate::token::Operator::AllEqual) => Some(
            (Operator::AllEqual, 7, 8),
        ),
        TokenKind::Operator(crate::token::Operator::AnyEqual) => Some(
            (Operator::AnyEqual, 7, 8),
        ),
        TokenKind::Operator(crate::token::Operator::Like) => Some((Operator::Like, 7, 8)),
        TokenKind::Operator(crate::token::Operator::NotLike) => Some((Operator::NotLike, 7, 8)),
        TokenKind::Operator(crate::token::Operator::AllLike) => Some((Operator::AllLike, 7, 8)),
        TokenKind::Operator(crate::token::Operator::AnyLike) => Some((Operator::AnyLike, 7, 8)),
        TokenKind::Operator(crate::token::Operator::LessEqual) => Some(
            (Operator::LessThanOrEqual, 7, 8),
        ),
        TokenKind::Operator(crate::token::Operator::GreaterEqual) => Some(
            (Operator::MoreThanOrEqual, 7, 8),
        ),
        TokenKind::LeftChefron => Some((Operator::LessThan, 7, 8)),
        TokenKind::RightChefron => Some((Operator::MoreThan, 7, 8)),
        TokenKind::Operator(crate::token::Operator::Contains) => Some(
            (Operator::Contain, 7, 8),
        ),
        TokenKind::Operator(crate::token::Operator::NotContains) => Some(
            (Operator::NotContain, 7, 8),
        ),
        TokenKind::Operator(crate::token::Operator::ContainsAll) => Some(
            (Operator::ContainAll, 7, 8),
        ),
        TokenKind::Operator(crate::token::Operator::ContainsAny) => Some(
            (Operator::ContainAny, 7, 8),
        ),
        TokenKind::Operator(crate::token::Operator::ContainsNone) => Some(
            (Operator::ContainNone, 7, 8),
        ),
        TokenKind::Operator(crate::token::Operator::Inside) => Some((Operator::Inside, 7, 8)),
        TokenKind::Keyword(Keyword::In) => Some((Operator::Inside, 7, 8)),
        TokenKind::Operator(crate::token::Operator::NotInside) => Some(
            (Operator::NotInside, 7, 8),
        ),
        TokenKind::Operator(crate::token::Operator::AllInside) => Some(
            (Operator::AllInside, 7, 8),
        ),
        TokenKind::Operator(crate::token::Operator::AnyInside) => Some(
            (Operator::AnyInside, 7, 8),
        ),
        TokenKind::Operator(crate::token::Operator::NoneInside) => Some(
            (Operator::NoneInside, 7, 8),
        ),
        TokenKind::Operator(crate::token::Operator::Add) => Some((Operator::Add, 9, 10)),
        TokenKind::Operator(crate::token::Operator::Subtract) => Some((Operator::Sub, 9, 10)),
        TokenKind::Star => Some((Operator::Mul, 11, 12)),
        TokenKind::Operator(crate::token::Operator::Mult) => Some((Operator::Mul, 11, 12)),
        TokenKind::ForwardSlash => Some((Operator::Div, 11, 12)),
        TokenKind::Operator(crate::token::Operator::Divide) => Some((Operator::Div, 11, 12)),
        TokenKind::Percent => Some((Operator::Rem, 11, 12)),
        TokenKind::Operator(crate::token::Operator::Power) => Some((Operator::Pow, 14, 13)),
        _ => None,
    }
}

/// The operator between two values that a token of this kind is.
pub fn operator_of(kind: TokenKind) -> (found: Option<(Operator, u8, u8)>)
    ensures
        found == binary_op(kind),
{
    match kind {
        TokenKind::Operator(crate::token::Operator::Or) => Some((Operator::Or, 1, 2)),
        TokenKind::Keyword(Keyword::Or) => Some((Operator::Or, 1, 2)),
        TokenKind::Operator(crate::token::Operator::And) => Some((Operator::And, 3, 4)),
        TokenKind::Keyword(Keyword::And) => Some((Operator::And, 3, 4)),
        TokenKind::Operator(crate::token::Operator::Tco) => Some((Operator::Tco, 5, 6)),
        TokenKind::Operator(crate::token::Operator::Nco) => Some((Operator::Nco, 5, 6)),
        TokenKind::Operator(crate::token::Operator::Equal) => Some((Operator::Equal, 7, 8)),
        TokenKind::Operator(crate::token::Operator::Exact) => Some((Operator::Exact, 7, 8)),
        TokenKind::Operator(crate::token::Operator::NotEqual) => Some(
            (Operator::NotEqual, 7, 8),
        ),
        TokenKind::Operator(crate::token::Operator::AllEqual) => Some(
            (Operator::AllEqual, 7, 8),
        ),
        TokenKind::Operator(crate::token::Operator::AnyEqual) => Some(
            (Operator::AnyEqual, 7, 8),
        ),
        TokenKind::Operator(crate::token::Operator::Like) => Some((Operator::Like, 7, 8)),
        TokenKind::Operator(crate::token::Operator::NotLike) => Some((Operator::NotLike, 7, 8)),
        TokenKind::Operator(crate::token::Operator::AllLike) => Some((Operator::AllLike, 7, 8)),
        TokenKind::Operator(crate::token::Operator::AnyLike) => Some((Operator::AnyLike, 7, 8)),
        TokenKind::Operator(crate::token::Operator::LessEqual) => Some(
            (Operator::LessThanOrEqual, 7, 8),
        ),
        TokenKind::Operator(crate::token::Operator::GreaterEqual) => Some(
            (Operator::MoreThanOrEqual, 7, 8),
        ),
        TokenKind::LeftChefron => Some((Operator::LessThan, 7, 8)),
        TokenKind::RightChefron => Some((Operator::MoreThan, 7, 8)),
        TokenKind::Operator(crate::token::Operator::Contains) => Some(
            (Operator::Contain, 7, 8),
        ),
        TokenKind::Operator(crate::token::Operator::NotContains) => Some(
            (Operator::NotContain, 7, 8),
        ),
        TokenKind::Operator(crate::token::Operator::ContainsAll) => Some(
            (Operator::ContainAll, 7, 8),
        ),
        TokenKind::Operator(crate::token::Operator::ContainsAny) => Some(
            (Operator::ContainAny, 7, 8),
        ),
        TokenKind::Operator(crate::token::Operator::ContainsNone) => Some(
            (Operator::ContainNone, 7, 8),
        ),
        TokenKind::Operator(crate::token::Operator::Inside) => Some((Operator::Inside, 7, 8)),
        TokenKind::Keyword(Keyword::In) => Some((Operator::Inside, 7, 8)),
        TokenKind::Operator(crate::token::Operator::NotInside) => Some(
            (Operator::NotInside, 7, 8),
        ),
        TokenKind::Operator(crate::token::Operator::AllInside) => Some(
            (Operator::AllInside, 7, 8),
        ),
        TokenKind::Operator(crate::token::Operator::AnyInside) => Some(
            (Operator::AnyInside, 7, 8),
        ),
        TokenKind::Operator(crate::token::Operator::NoneInside) => Some(
            (Operator::NoneInside, 7, 8),
        ),
        TokenKind::Operator(crate::token::Operator::Add) => Some((Operator::Add, 9, 10)),
        TokenKind::Operator(crate::token::Operator::Subtract) => Some((Operator::Sub, 9, 10)),
        TokenKind::Star => Some((Operator::Mul, 11, 12)),
        TokenKind::Operator(crate::token::Operator::Mult) => Some((Operator::Mul, 11, 12)),
        TokenKind::ForwardSlash => Some((Operator::Div, 11, 12)),
        TokenKind::Operator(crate::token::Operator::Divide) => Some((Operator::Div, 11, 12)),
        TokenKind::Percent => Some((Operator::Rem, 11, 12)),
        TokenKind::Operator(crate::token::Operator::Power) => Some((Operator::Pow, 14, 13)),
        _ => None,
    }
}

impl Input {
    /// The value that the one token at `pos` stands for, if it stands for one.
    pub open spec fn literal(self, pos: nat) -> Option<ExprView> {
        match self.kind_at(pos) {
            TokenKind::Number => Some(ExprView::Number(self.numbers[self.index_at(pos)])),
            TokenKind::Strand => Some(ExprView::Strand(self.strings[self.index_at(pos)])),
            TokenKind::Parameter => Some(ExprView::Param(self.strings[self.index_at(pos)])),
            TokenKind::Duration => Some(
                ExprView::Duration(
                    self.durations[self.index_at(pos)].0,
                    self.durations[self.index_at(pos)].1,
                ),
            ),
            TokenKind::DateTime => Some(
                ExprView::Datetime(
                    self.datetimes[self.index_at(pos)].0,
                    self.datetimes[self.index_at(pos)].1,
                ),
            ),
            TokenKind::Uuid => Some(ExprView::Uuid(self.uuids[self.index_at(pos)])),
            TokenKind::Keyword(Keyword::True) => Some(ExprView::Bool(true)),
            TokenKind::Keyword(Keyword::False) => Some(ExprView::Bool(false)),
            TokenKind::Keyword(Keyword::NoneWord) => Some(ExprView::Nothing),
            TokenKind::Keyword(Keyword::Null) => Some(ExprView::Null),
            _ => None,
        }
    }

    /// The key of a record at `pos`, behind the colon: a name or a whole number.
    pub open spec fn record_key(self, pos: nat) -> Option<IdView> {
        match self.kind_at(pos) {
            TokenKind::Number => match self.numbers[self.index_at(pos)] {
                NumberLiteralView::Integer(i) => Some(IdView::Number(i)),
                _ => None,
            },
            _ => match self.ident(pos) {
                Ok((name, _)) => Some(IdView::String(name)),
                Err(_) => None,
            },
        }
    }

    /// What starts with a name at `pos`: a record id, where a colon and a key follow the
    /// name, else a path.
    pub open spec fn named(self, pos: nat) -> Parsed<ExprView> {
        match self.ident(pos) {
            Err(_) => Err(self.unexpected(pos, Expected::Value)),
            Ok((table, next)) => if self.kind_at(next) == TokenKind::Colon && self.record_key(
                next + 1,
            ) is Some {
                Ok((ExprView::Thing(table, self.record_key(next + 1)->Some_0), next + 2))
            } else {
                match self.idiom(pos) {
                    Ok((idiom, next)) => Ok((ExprView::Idiom(idiom), next)),
                    Err(e) => Err(e),
                }
            },
        }
    }

    /// The key of an entry of an object at `pos`: a name or a string.
    pub open spec fn object_key(self, pos: nat) -> Parsed<Seq<char>> {
        if self.kind_at(pos) == TokenKind::Strand {
            Ok((self.strings[self.index_at(pos)], pos + 1))
        } else {
            match self.ident(pos) {
                Ok(found) => Ok(found),
                Err(_) => Err(self.unexpected(pos, Expected::FieldName)),
            }
        }
    }

    /// A value at `pos` that takes up the operators that bind at least as strongly as
    /// `least`. Values may be nested `depth` deep.
    pub open spec fn expr(self, pos: nat, least: u8, depth: nat) -> Parsed<ExprView>
        decreases depth, self.tokens.len() - pos, 2nat,
    {
        if depth == 0 {
            Err(ParseError { kind: ParseErrorKind::TooDeep, at: self.span_at(pos) })
        } else {
            match self.prefix(pos, depth) {
                Err(e) => Err(e),
                Ok((left, next)) => if pos < next <= self.tokens.len() {
                    self.infix(next, left, least, depth)
                } else {
                    Ok((left, next))
                },
            }
        }
    }

    /// A value at `pos` before any operator that follows it: an operator and its operand,
    /// a value between parentheses, an array, an object, a literal, a record id or a path.
    pub open spec fn prefix(self, pos: nat, depth: nat) -> Parsed<ExprView>
        decreases depth, self.tokens.len() - pos, 1nat,
    {
        if depth == 0 {
            Err(ParseError { kind: ParseErrorKind::TooDeep, at: self.span_at(pos) })
        } else if self.kind_at(pos) == TokenKind::Operator(crate::token::Operator::Not) {
            match self.expr(pos + 1, UNARY_STRENGTH, (depth - 1) as nat) {
                Ok((operand, next)) => Ok(
                    (ExprView::Unary(Operator::Not, Box::new(operand)), next),
                ),
                Err(e) => Err(e),
            }
        } else if self.kind_at(pos) == TokenKind::Operator(crate::token::Operator::Subtract) {
            match self.expr(pos + 1, UNARY_STRENGTH, (depth - 1) as nat) {
                Ok((operand, next)) => Ok(
                    (ExprView::Unary(Operator::Neg, Box::new(operand)), next),
                ),
                Err(e) => Err(e),
            }
        } else if self.kind_at(pos) == TokenKind::Operator(crate::token::Operator::Add) {
            self.expr(pos + 1, UNARY_STRENGTH, (depth - 1) as nat)
        } else if self.kind_at(pos) == TokenKind::OpenDelim(Delim::Paren) {
            match self.expr(pos + 1, 0, (depth - 1) as nat) {
                Ok((inner, next)) => if self.kind_at(next) == TokenKind::CloseDelim(
                    Delim::Paren,
                ) {
                    Ok((inner, next + 1))
                } else {
                    Err(self.unexpected(next, Expected::CloseParen))
                },
                Err(e) => Err(e),
            }
        } else if self.kind_at(pos) == TokenKind::OpenDelim(Delim::Bracket) {
            if self.kind_at(pos + 1) == TokenKind::CloseDelim(Delim::Bracket) {
                Ok((ExprView::Array(Seq::empty()), pos + 2))
            } else {
                match self.items(pos + 1, Seq::empty(), (depth - 1) as nat) {
                    Ok((items, next)) => Ok((ExprView::Array(items), next)),
                    Err(e) => Err(e),
                }
            }
        } else if self.kind_at(pos) == TokenKind::OpenDelim(Delim::Brace) {
            if self.kind_at(pos + 1) == TokenKind::CloseDelim(Delim::Brace) {
                Ok((ExprView::Object(Seq::empty()), pos + 2))
            } else {
                match self.entries(pos + 1, Seq::empty(), (depth - 1) as nat) {
                    Ok((entries, next)) => Ok((ExprView::Object(entries), next)),
                    Err(e) => Err(e),
                }
            }
        } else {
            match self.literal(pos) {
                Some(value) => Ok((value, pos + 1)),
                None => self.named(pos),
            }
        }
    }

    /// The operators and operands that follow the value `left`, which ends at `pos`, as
    /// far as the operators bind at least as strongly as `least`.
    pub open spec fn infix(self, pos: nat, left: ExprView, least: u8, depth: nat) -> Parsed<
        ExprView,
    >
        decreases depth, self.tokens.len() - pos, 0nat,
    {
        match binary_op(self.kind_at(pos)) {
            None => Ok((left, pos)),
            Some((op, left_strength, right_strength)) => if left_strength < least || depth == 0
                || pos >= self.tokens.len() {
                Ok((left, pos))
            } else {
                match self.expr(pos + 1, right_strength, (depth - 1) as nat) {
                    Err(e) => Err(e),
                    Ok((right, next)) => if pos < next <= self.tokens.len() {
                        self.infix(
                            next,
                            ExprView::Binary(Box::new(left), op, Box::new(right)),
                            least,
                            depth,
                        )
                    } else {
                        Ok((ExprView::Binary(Box::new(left), op, Box::new(right)), next))
                    },
                }
            },
        }
    }

    /// The items of an array behind those read already, from `pos` on: values with commas
    /// between them, and the closing bracket. A comma may stand before the bracket.
    pub open spec fn items(self, pos: nat, read: Seq<ExprView>, depth: nat) -> Parsed<
        Seq<ExprView>,
    >
        decreases depth, self.tokens.len() - pos, 3nat,
    {
        match self.expr(pos, 0, depth) {
            Err(e) => Err(e),
            Ok((item, next)) => if self.kind_at(next) == TokenKind::Comma && pos < next
                < self.tokens.len() {
                if self.kind_at(next + 1) == TokenKind::CloseDelim(Delim::Bracket) {
                    Ok((read.push(item), next + 2))
                } else {
                    self.items(next + 1, read.push(item), depth)
                }
            } else if self.kind_at(next) == TokenKind::CloseDelim(Delim::Bracket) {
                Ok((read.push(item), next + 1))
            } else {
                Err(self.unexpected(next, Expected::CloseBracket))
            },
        }
    }

    /// The entries of an object behind those read already, from `pos` on: keys and values
    /// with a colon between them and commas between the entries, and the closing brace. A
    /// comma may stand before the brace.
    pub open spec fn entries(
        self,
        pos: nat,
        read: Seq<(Seq<char>, ExprView)>,
        depth: nat,
    ) -> Parsed<Seq<(Seq<char>, ExprView)>>
        decreases depth, self.tokens.len() - pos, 3nat,
    {
        match self.object_key(pos) {
            Err(e) => Err(e),
            Ok((key, colon)) => if self.kind_at(colon) != TokenKind::Colon {
                Err(self.unexpected(colon, Expected::Colon))
            } else if !(pos < colon < self.tokens.len()) {
                Err(self.unexpected(colon, Expected::Colon))
            } else {
                match self.expr(colon + 1, 0, depth) {
                    Err(e) => Err(e),
                    Ok((value, next)) => if self.kind_at(next) == TokenKind::Comma && colon
                        < next < self.tokens.len() {
                        if self.kind_at(next + 1) == TokenKind::CloseDelim(Delim::Brace) {
                            Ok((read.push((key, value)), next + 2))
                        } else {
                            self.entries(next + 1, read.push((key, value)), depth)
                        }
                    } else if self.kind_at(next) == TokenKind::CloseDelim(Delim::Brace) {
                        Ok((read.push((key, value)), next + 1))
                    } else {
                        Err(self.unexpected(next, Expected::CloseBrace))
                    },
                }
            },
        }
    }

    /// A value at `pos`.
    pub open spec fn value(self, pos: nat) -> Parsed<ExprView> {
        self.expr(pos, 0, MAX_DEPTH as nat)
    }

    /// Values with commas between them, behind those read already, from `pos` on.
    pub open spec fn values(self, pos: nat, read: Seq<ExprView>) -> Parsed<Seq<ExprView>>
        decreases self.tokens.len() - pos,
    {
        match self.value(pos) {
            Err(e) => Err(e),
            Ok((value, next)) => if self.kind_at(next) == TokenKind::Comma && pos < next
                < self.tokens.len() {
                self.values(next + 1, read.push(value))
            } else {
                Ok((read.push(value), next))
            },
        }
    }
}

impl<'a> Parser<'a> {
    /// Parses the value that the next token stands for, if it stands for one.
    fn parse_literal(&mut self) -> (found: Option<Expr>)
        requires
            old(self).wf(),
        ensures
            final(self).wf(),
            final(self).input() == old(self).input(),
            match found {
                Some(value) => old(self).input().literal(old(self).pos()) == Some(value@)
                    && final(self).pos() == old(self).pos() + 1,
                None => old(self).input().literal(old(self).pos()) is None && final(self).pos() == old(self).pos(),
            },
    {
        let token = self.peek();
        let value = match token.kind {
            TokenKind::Number => {
                assert(self.input().tokens[self.pos() as int] == token);
                let index = token.data_index.unwrap().index() as usize;
                Expr::Number(self.lexer.numbers[index].duplicate())
            },
            TokenKind::Strand => Expr::Strand(self.token_string()),
            TokenKind::Parameter => Expr::Param(self.token_string()),
            TokenKind::Duration => {
                assert(self.input().tokens[self.pos() as int] == token);
                let index = token.data_index.unwrap().index() as usize;
                Expr::Duration(self.lexer.durations[index])
            },
            TokenKind::DateTime => {
                assert(self.input().tokens[self.pos() as int] == token);
                let index = token.data_index.unwrap().index() as usize;
                Expr::Datetime(self.lexer.datetime[index])
            },
            TokenKind::Uuid => {
                assert(self.input().tokens[self.pos() as int] == token);
                let index = token.data_index.unwrap().index() as usize;
                Expr::Uuid(self.lexer.uuid[index])
            },
            TokenKind::Keyword(Keyword::True) => Expr::Bool(true),
            TokenKind::Keyword(Keyword::False) => Expr::Bool(false),
            TokenKind::Keyword(Keyword::NoneWord) => Expr::Nothing,
            TokenKind::Keyword(Keyword::Null) => Expr::Null,
            _ => return None,
        };
        self.pop_peek();
        Some(value)
    }

    /// Parses the key of a record, behind the colon, if one stands there.
    fn parse_record_key(&mut self) -> (found: Option<Id>)
        requires
            old(self).wf(),
        ensures
            final(self).wf(),
            final(self).input() == old(self).input(),
            match found {
                Some(id) => old(self).input().record_key(old(self).pos()) == Some(id@)
                    && final(self).pos() == old(self).pos() + 1,
                None => old(self).input().record_key(old(self).pos()) is None && final(self).pos() == old(self).pos(),
            },
    {
        let token = self.peek();
        match token.kind {
            TokenKind::Number => {
                assert(self.input().tokens[self.pos() as int] == token);
                let index = token.data_index.unwrap().index() as usize;
                match &self.lexer.numbers[index] {
                    NumberLiteral::Integer(i) => {
                        let id = Id::Number(*i);
                        assert(self.input().record_key(self.pos()) == Some(id@));
                        self.pop_peek();
                        Some(id)
                    },
                    _ => {
                        assert(self.input().record_key(self.pos()) is None);
                        None
                    },
                }
            },
            _ => match self.parse_ident() {
                Ok(name) => {
                    let id = Id::String(name.0);
                    assert(old(self).input().record_key(old(self).pos()) == Some(id@));
                    Some(id)
                },
                Err(_) => {
                    assert(old(self).input().record_key(old(self).pos()) is None);
                    None
                },
            },
        }
    }

    /// Parses what starts with a name: a record id or a path.
    fn parse_named(&mut self) -> (result: ParseResult<Expr>)
        requires
            old(self).wf(),
        ensures
            final(self).wf(),
            final(self).input() == old(self).input(),
            match result {
                Ok(value) => old(self).input().named(old(self).pos()) == Ok::<
                    (ExprView, nat),
                    ParseError,
                >((value@, final(self).pos())) && final(self).pos() > old(self).pos(),
                Err(e) => old(self).input().named(old(self).pos()) == Err::<
                    (ExprView, nat),
                    ParseError,
                >(e),
            },
    {
        let start = self.position;
        let error = self.unexpected(Expected::Value);
        let table = match self.parse_ident() {
            Ok(table) => table,
            Err(_) => return Err(error),
        };
        if self.peek_kind() == TokenKind::Colon {
            let colon = self.position;
            self.pop_peek();
            if let Some(id) = self.parse_record_key() {
                return Ok(Expr::Thing(table, id));
            }
            self.position = colon;
        }
        self.position = start;
        proof {
            self.input().lemma_idiom_advances(self.pos());
        }
        match self.parse_plain_idiom() {
            Ok(idiom) => Ok(Expr::Idiom(idiom)),
            Err(e) => Err(e),
        }
    }

    /// Parses the key of an entry of an object.
    fn parse_object_key(&mut self) -> (result: ParseResult<String>)
        requires
            old(self).wf(),
        ensures
            final(self).wf(),
            final(self).input() == old(self).input(),
            match result {
                Ok(key) => old(self).input().object_key(old(self).pos()) == Ok::<
                    (Seq<char>, nat),
                    ParseError,
                >((key@, final(self).pos())) && final(self).pos() == old(self).pos() + 1,
                Err(e) => old(self).input().object_key(old(self).pos()) == Err::<
                    (Seq<char>, nat),
                    ParseError,
                >(e),
            },
    {
        if self.peek_kind() == TokenKind::Strand {
            let key = self.token_string();
            self.pop_peek();
            return Ok(key);
        }
        let error = self.unexpected(Expected::FieldName);
        match self.parse_ident() {
            Ok(name) => Ok(name.0),
            Err(_) => Err(error),
        }
    }

    /// Parses a value that takes up the operators that bind at least as strongly as
    /// `least`.
    pub fn parse_expr(&mut self, least: u8, depth: usize) -> (result: ParseResult<Expr>)
        requires
            old(self).wf(),
        ensures
            final(self).wf(),
            final(self).input() == old(self).input(),
            match result {
                Ok(value) => old(self).input().expr(old(self).pos(), least, depth as nat)
                    == Ok::<(ExprView, nat), ParseError>((value@, final(self).pos())) && final(self).pos() > old(self).pos(),
                Err(e) => old(self).input().expr(old(self).pos(), least, depth as nat) == Err::<
                    (ExprView, nat),
                    ParseError,
                >(e),
            },
        decreases depth, old(self).tokens@.len() - old(self).pos(), 2nat,
    {
        if depth == 0 {
            return Err(ParseError { kind: ParseErrorKind::TooDeep, at: self.peek().span });
        }
        let left = match self.parse_prefix(depth) {
            Ok(left) => left,
            Err(e) => return Err(e),
        };
        self.parse_infix(left, least, depth)
    }

    /// Parses a value before any operator that follows it.
    fn parse_prefix(&mut self, depth: usize) -> (result: ParseResult<Expr>)
        requires
            old(self).wf(),
            depth > 0,
        ensures
            final(self).wf(),
            final(self).input() == old(self).input(),
            match result {
                Ok(value) => old(self).input().prefix(old(self).pos(), depth as nat) == Ok::<
                    (ExprView, nat),
                    ParseError,
                >((value@, final(self).pos())) && final(self).pos() > old(self).pos(),
                Err(e) => old(self).input().prefix(old(self).pos(), depth as nat) == Err::<
                    (ExprView, nat),
                    ParseError,
                >(e),
            },
        decreases depth, old(self).tokens@.len() - old(self).pos(), 1nat,
    {
        let kind = self.peek_kind();
        if kind == TokenKind::Operator(crate::token::Operator::Not) {
            self.pop_peek();
            match self.parse_expr(UNARY_STRENGTH, depth - 1) {
                Ok(operand) => Ok(Expr::Unary(Operator::Not, Box::new(operand))),
                Err(e) => Err(e),
            }
        } else if kind == TokenKind::Operator(crate::token::Operator::Subtract) {
            self.pop_peek();
            match self.parse_expr(UNARY_STRENGTH, depth - 1) {
                Ok(operand) => Ok(Expr::Unary(Operator::Neg, Box::new(operand))),
                Err(e) => Err(e),
            }
        } else if kind == TokenKind::Operator(crate::token::Operator::Add) {
            self.pop_peek();
            self.parse_expr(UNARY_STRENGTH, depth - 1)
        } else if kind == TokenKind::OpenDelim(Delim::Paren) {
            self.pop_peek();
            let inner = match self.parse_expr(0, depth - 1) {
                Ok(inner) => inner,
                Err(e) => return Err(e),
            };
            match self.expect(TokenKind::CloseDelim(Delim::Paren), Expected::CloseParen) {
                Ok(_) => Ok(inner),
                Err(e) => Err(e),
            }
        } else if kind == TokenKind::OpenDelim(Delim::Bracket) {
            self.pop_peek();
            if self.eat(TokenKind::CloseDelim(Delim::Bracket)) {
                let items: Vec<Expr> = Vec::new();
                proof {
                    assert(exprs_view(items@) =~= Seq::<ExprView>::empty());
                }
                return Ok(Expr::Array(items));
            }
            match self.parse_items(depth - 1) {
                Ok(items) => Ok(Expr::Array(items)),
                Err(e) => Err(e),
            }
        } else if kind == TokenKind::OpenDelim(Delim::Brace) {
            self.pop_peek();
            if self.eat(TokenKind::CloseDelim(Delim::Brace)) {
                let entries: Vec<(String, Expr)> = Vec::new();
                proof {
                    assert(fields_view(entries@) =~= Seq::<(Seq<char>, ExprView)>::empty());
                }
                return Ok(Expr::Object(entries));
            }
            match self.parse_entries(depth - 1) {
                Ok(entries) => Ok(Expr::Object(entries)),
                Err(e) => Err(e),
            }
        } else {
            match self.parse_literal() {
                Some(value) => Ok(value),
                None => self.parse_named(),
            }
        }
    }

    /// Parses the operators and operands that follow the value `left`.
    fn parse_infix(&mut self, left: Expr, least: u8, depth: usize) -> (result: ParseResult<Expr>)
        requires
            old(self).wf(),
            depth > 0,
        ensures
            final(self).wf(),
            final(self).input() == old(self).input(),
            match result {
                Ok(value) => old(self).input().infix(old(self).pos(), left@, least, depth as nat)
                    == Ok::<(ExprView, nat), ParseError>((value@, final(self).pos())) && final(self).pos() >= old(self).pos(),
                Err(e) => old(self).input().infix(old(self).pos(), left@, least, depth as nat)
                    == Err::<(ExprView, nat), ParseError>(e),
            },
        decreases depth, old(self).tokens@.len() - old(self).pos(), 0nat,
    {
        let ghost input = self.input();
        let (op, right_strength) = match operator_of(self.peek_kind()) {
            Some((op, left_strength, right_strength)) => {
                if left_strength < least {
                    return Ok(left);
                }
                (op, right_strength)
            },
            None => return Ok(left),
        };
        let ghost left_view = left@;
        self.pop_peek();
        let right = match self.parse_expr(right_strength, depth - 1) {
            Ok(right) => right,
            Err(e) => return Err(e),
        };
        let ghost right_view = right@;
        let both = Expr::Binary(Box::new(left), op, Box::new(right));
        assert(both@ == ExprView::Binary(Box::new(left_view), op, Box::new(right_view)));
        self.parse_infix(both, least, depth)
    }

    /// Parses the items of an array, behind the opening bracket.
    fn parse_items(&mut self, depth: usize) -> (result: ParseResult<Vec<Expr>>)
        requires
            old(self).wf(),
        ensures
            final(self).wf(),
            final(self).input() == old(self).input(),
            match result {
                Ok(items) => old(self).input().items(
                    old(self).pos(),
                    Seq::empty(),
                    depth as nat,
                ) == Ok::<(Seq<ExprView>, nat), ParseError>(
                    (exprs_view(items@), final(self).pos()),
                ) && final(self).pos() > old(self).pos(),
                Err(e) => old(self).input().items(old(self).pos(), Seq::empty(), depth as nat)
                    == Err::<(Seq<ExprView>, nat), ParseError>(e),
            },
        decreases depth, old(self).tokens@.len() - old(self).pos(), 4nat,
    {
        let ghost input = self.input();
        let ghost start = self.pos();
        let mut items: Vec<Expr> = Vec::new();
        proof {
            assert(exprs_view(items@) =~= Seq::<ExprView>::empty());
        }
        loop
            invariant
                self.wf(),
                self.input() == input,
                input == old(self).input(),
                start == old(self).pos(),
                start <= self.pos(),
                input.items(start, Seq::empty(), depth as nat) == input.items(
                    self.pos(),
                    exprs_view(items@),
                    depth as nat,
                ),
            decreases input.tokens.len() - self.pos(),
        {
            let ghost read = exprs_view(items@);
            let ghost held = items@;
            let item = match self.parse_expr(0, depth) {
                Ok(item) => item,
                Err(e) => return Err(e),
            };
            let ghost item_view = item@;
            items.push(item);
            proof {
                assert(items@.drop_last() =~= held);
                assert(exprs_view(items@) == read.push(item_view));
            }
            if self.eat(TokenKind::Comma) {
                if self.eat(TokenKind::CloseDelim(Delim::Bracket)) {
                    return Ok(items);
                }
                continue ;
            }
            return match self.expect(
                TokenKind::CloseDelim(Delim::Bracket),
                Expected::CloseBracket,
            ) {
                Ok(_) => Ok(items),
                Err(e) => Err(e),
            };
        }
    }

    /// Parses the entries of an object, behind the opening brace.
    fn parse_entries(&mut self, depth: usize) -> (result: ParseResult<Vec<(String, Expr)>>)
        requires
            old(self).wf(),
        ensures
            final(self).wf(),
            final(self).input() == old(self).input(),
            match result {
                Ok(entries) => old(self).input().entries(
                    old(self).pos(),
                    Seq::empty(),
                    depth as nat,
                ) == Ok::<(Seq<(Seq<char>, ExprView)>, nat), ParseError>(
                    (fields_view(entries@), final(self).pos()),
                ) && final(self).pos() > old(self).pos(),
                Err(e) => old(self).input().entries(
                    old(self).pos(),
                    Seq::empty(),
                    depth as nat,
                ) == Err::<(Seq<(Seq<char>, ExprView)>, nat), ParseError>(e),
            },
        decreases depth, old(self).tokens@.len() - old(self).pos(), 4nat,
    {
        let ghost input = self.input();
        let ghost start = self.pos();
        let mut entries: Vec<(String, Expr)> = Vec::new();
        proof {
            assert(fields_view(entries@) =~= Seq::<(Seq<char>, ExprView)>::empty());
        }
        loop
            invariant
                self.wf(),
                self.input() == input,
                input == old(self).input(),
                start == old(self).pos(),
                start <= self.pos(),
                input.entries(start, Seq::empty(), depth as nat) == input.entries(
                    self.pos(),
                    fields_view(entries@),
                    depth as nat,
                ),
            decreases input.tokens.len() - self.pos(),
        {
            let ghost read = fields_view(entries@);
            let ghost held = entries@;
            let key = match self.parse_object_key() {
                Ok(key) => key,
                Err(e) => return Err(e),
            };
            match self.expect(TokenKind::Colon, Expected::Colon) {
                Ok(_) => {},
                Err(e) => return Err(e),
            }
            let value = match self.parse_expr(0, depth) {
                Ok(value) => value,
                Err(e) => return Err(e),
            };
            let ghost entry_view = (key@, value@);
            entries.push((key, value));
            proof {
                assert(entries@.drop_last() =~= held);
                assert(fields_view(entries@) == read.push(entry_view));
            }
            if self.eat(TokenKind::Comma) {
                if self.eat(TokenKind::CloseDelim(Delim::Brace)) {
                    return Ok(entries);
                }
                continue ;
            }
            return match self.expect(TokenKind::CloseDelim(Delim::Brace), Expected::CloseBrace) {
                Ok(_) => Ok(entries),
                Err(e) => Err(e),
            };
        }
    }

    /// Parses a value.
    pub fn parse_value(&mut self) -> (result: ParseResult<Expr>)
        requires
            old(self).wf(),
        ensures
            final(self).wf(),
            final(self).input() == old(self).input(),
            match result {
                Ok(value) => old(self).input().value(old(self).pos()) == Ok::<
                    (ExprView, nat),
                    ParseError,
                >((value@, final(self).pos())) && final(self).pos() > old(self).pos(),
                Err(e) => old(self).input().value(old(self).pos()) == Err::<
                    (ExprView, nat),
                    ParseError,
                >(e),
            },
    {
        self.parse_expr(0, MAX_DEPTH)
    }

    /// Parses the values that a statement works on: values with commas between them.
    pub fn parse_what_list(&mut self) -> (result: ParseResult<Vec<Expr>>)
        requires
            old(self).wf(),
        ensures
            final(self).wf(),
            final(self).input() == old(self).input(),
            match result {
                Ok(values) => old(self).input().values(old(self).pos(), Seq::empty()) == Ok::<
                    (Seq<ExprView>, nat),
                    ParseError,
                >((exprs_view(values@), final(self).pos())) && final(self).pos() > old(self).pos(),
                Err(e) => old(self).input().values(old(self).pos(), Seq::empty()) == Err::<
                    (Seq<ExprView>, nat),
                    ParseError,
                >(e),
            },
    {
        let ghost input = self.input();
        let ghost start = self.pos();
        let mut values: Vec<Expr> = Vec::new();
        proof {
            assert(exprs_view(values@) =~= Seq::<ExprView>::empty());
        }
        loop
            invariant
                self.wf(),
                self.input() == input,
                input == old(self).input(),
                start == old(self).pos(),
                start <= self.pos(),
                input.values(start, Seq::empty()) == input.values(
                    self.pos(),
                    exprs_view(values@),
                ),
            decreases input.tokens.len() - self.pos(),
        {
            let ghost read = exprs_view(values@);
            let ghost held = values@;
            let value = match self.parse_value() {
                Ok(value) => value,
                Err(e) => return Err(e),
            };
            let ghost value_view = value@;
            values.push(value);
            proof {
                assert(values@.drop_last() =~= held);
                assert(exprs_view(values@) == read.push(value_view));
            }
            if !self.eat(TokenKind::Comma) {
                return Ok(values);
            }
        }
    }
}

} // verus!

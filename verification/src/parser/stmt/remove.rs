//! The `REMOVE FIELD` statement.

use vstd::prelude::*;
use crate::ast::PartView;
use crate::parser::Expected;
use crate::parser::Input;
use crate::parser::ParseError;
use crate::parser::ParseResult;
use crate::parser::Parsed;
use crate::parser::Parser;
use crate::statements::RemoveFieldStatement;
use crate::token::Keyword;
use crate::token::TokenKind;

verus! {

impl Input {
    /// A `REMOVE FIELD` statement at `pos`: the words `REMOVE FIELD`, the path of the
    /// field, the word `ON`, the word `TABLE` or not, and the name of the table.
    pub open spec fn remove_field_stmt(self, pos: nat) -> Parsed<(Seq<PartView>, Seq<char>)> {
        if self.kind_at(pos) != TokenKind::Keyword(Keyword::Remove) {
            Err(self.unexpected(pos, Expected::Remove))
        } else if self.kind_at(self.after(pos)) != TokenKind::Keyword(Keyword::Field) {
            Err(self.unexpected(self.after(pos), Expected::Field))
        } else {
            match self.idiom(self.after(self.after(pos))) {
                Err(e) => Err(e),
                Ok((name, at_on)) => if self.kind_at(at_on) != TokenKind::Keyword(Keyword::On) {
                    Err(self.unexpected(at_on, Expected::On))
                } else {
                    let at_table = self.after(at_on);
                    let at_what = if self.kind_at(at_table) == TokenKind::Keyword(
                        Keyword::Table,
                    ) {
                        self.after(at_table)
                    } else {
                        at_table
                    };
                    match self.ident(at_what) {
                        Ok((what, next)) => Ok(((name, what), next)),
                        Err(e) => Err(e),
                    }
                },
            }
        }
    }
}

impl<'a> Parser<'a> {
    /// Parses a `REMOVE FIELD` statement.
    pub fn parse_remove_field_stmt(&mut self) -> (result: ParseResult<RemoveFieldStatement>)
        requires
            old(self).wf(),
        ensures
            final(self).wf(),
            final(self).input() == old(self).input(),
            match result {
                Ok(statement) => old(self).input().remove_field_stmt(old(self).pos()) == Ok::<
                    ((Seq<PartView>, Seq<char>), nat),
                    ParseError,
                >((statement@, final(self).pos())),
                Err(e) => old(self).input().remove_field_stmt(old(self).pos()) == Err::<
                    ((Seq<PartView>, Seq<char>), nat),
                    ParseError,
                >(e),
            },
    {
        match self.expect(TokenKind::Keyword(Keyword::Remove), Expected::Remove) {
            Ok(_) => {},
            Err(e) => return Err(e),
        }
        match self.expect(TokenKind::Keyword(Keyword::Field), Expected::Field) {
            Ok(_) => {},
            Err(e) => return Err(e),
        }
        let name = match self.parse_plain_idiom() {
            Ok(name) => name,
            Err(e) => return Err(e),
        };
        match self.expect(TokenKind::Keyword(Keyword::On), Expected::On) {
            Ok(_) => {},
            Err(e) => return Err(e),
        }
        let _ = self.eat(TokenKind::Keyword(Keyword::Table));
        match self.parse_ident() {
            Ok(what) => Ok(RemoveFieldStatement { name, what }),
            Err(e) => Err(e),
        }
    }
}

} // verus!

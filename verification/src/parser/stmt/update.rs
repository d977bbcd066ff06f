//! The `UPDATE` statement.

use vstd::prelude::*;
use crate::ast::UpdateStatement;
use crate::ast::UpdateStatementView;
use crate::ast::Values;
use crate::parser::Expected;
use crate::parser::Input;
use crate::parser::ParseError;
use crate::parser::ParseResult;
use crate::parser::Parsed;
use crate::parser::Parser;
use crate::token::Keyword;
use crate::token::TokenKind;

verus! {

impl Input {
    /// An `UPDATE` statement at `pos`: the word `UPDATE`, `ONLY` where one record is
    /// meant, what is updated, and then, where they are given and in this order, how the
    /// records are changed, a condition, what is returned, a timeout, and `PARALLEL`.
    pub open spec fn update_stmt(self, pos: nat) -> Parsed<UpdateStatementView> {
        if self.kind_at(pos) != TokenKind::Keyword(Keyword::Update) {
            Err(self.unexpected(pos, Expected::Update))
        } else {
            let only = self.kind_at(pos + 1) == TokenKind::Keyword(Keyword::Only);
            let at_what = if only {
                pos + 2
            } else {
                pos + 1
            };
            match self.values(at_what, Seq::empty()) {
                Err(e) => Err(e),
                Ok((what, at_data)) => match self.data(at_data) {
                    Err(e) => Err(e),
                    Ok((data, at_cond)) => match self.condition(at_cond) {
                        Err(e) => Err(e),
                        Ok((cond, at_output)) => match self.output(at_output) {
                            Err(e) => Err(e),
                            Ok((output, at_timeout)) => match self.timeout(at_timeout) {
                                Err(e) => Err(e),
                                Ok((timeout, at_parallel)) => {
                                    let parallel = self.kind_at(at_parallel)
                                        == TokenKind::Keyword(Keyword::Parallel);
                                    Ok(
                                        (
                                            UpdateStatementView {
                                                only,
                                                what,
                                                data,
                                                cond,
                                                output,
                                                timeout,
                                                parallel,
                                            },
                                            if parallel {
                                                at_parallel + 1
                                            } else {
                                                at_parallel
                                            },
                                        ),
                                    )
                                },
                            },
                        },
                    },
                },
            }
        }
    }
}

impl<'a> Parser<'a> {
    pub fn parse_update_stmt(&mut self) -> (result: ParseResult<UpdateStatement>)
        requires
            old(self).wf(),
        ensures
            final(self).wf(),
            final(self).input() == old(self).input(),
            match result {
                Ok(statement) => old(self).input().update_stmt(old(self).pos()) == Ok::<
                    (UpdateStatementView, nat),
                    ParseError,
                >((statement@, final(self).pos())),
                Err(e) => old(self).input().update_stmt(old(self).pos()) == Err::<
                    (UpdateStatementView, nat),
                    ParseError,
                >(e),
            },
    {
        match self.expect(TokenKind::Keyword(Keyword::Update), Expected::Update) {
            Ok(_) => {},
            Err(e) => return Err(e),
        }
        let only = self.eat(TokenKind::Keyword(Keyword::Only));
        let what = match self.parse_what_list() {
            Ok(what) => Values(what),
            Err(e) => return Err(e),
        };
        let data = match self.try_parse_data() {
            Ok(data) => data,
            Err(e) => return Err(e),
        };
        let cond = match self.try_parse_condition() {
            Ok(cond) => cond,
            Err(e) => return Err(e),
        };
        let output = match self.try_parse_output() {
            Ok(output) => output,
            Err(e) => return Err(e),
        };
        let timeout = match self.try_parse_timeout() {
            Ok(timeout) => timeout,
            Err(e) => return Err(e),
        };
        let parallel = self.eat(TokenKind::Keyword(Keyword::Parallel));
        Ok(UpdateStatement { only, what, data, cond, output, timeout, parallel })
    }
}

} // verus!

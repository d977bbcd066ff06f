//! Contains parsing code for smaller common parts of statements.

use vstd::prelude::*;
use vstd::string::StringExecFns;
use crate::ast::Base;
use crate::ast::BaseView;
use crate::ast::ChangeFeed;
use crate::ast::Cond;
use crate::ast::Data;
use crate::ast::DataView;
use crate::ast::Distance;
use crate::ast::DistanceView;
use crate::ast::Expr;
use crate::ast::ExprView;
use crate::ast::Fetch;
use crate::ast::Fetchs;
use crate::ast::Field;
use crate::ast::FieldView;
use crate::ast::Fields;
use crate::ast::Group;
use crate::ast::Groups;
use crate::ast::Ident;
use crate::ast::Idiom;
use crate::ast::Operator;
use crate::ast::Output;
use crate::ast::OutputView;
use crate::ast::PartView;
use crate::ast::Permission;
use crate::ast::PermissionView;
use crate::ast::Permissions;
use crate::ast::PermissionsView;
use crate::ast::Table;
use crate::ast::TableView;
use crate::ast::Tables;
use crate::ast::Timeout;
use crate::ast::ViewView;
use crate::parser::Expected;
use crate::parser::Input;
use crate::parser::ParseError;
use crate::parser::ParseResult;
use crate::parser::Parsed;
use crate::parser::Parser;
use crate::token::DistanceKind;
use crate::token::Keyword;
use crate::token::TokenKind;

verus! {

/// The operator of an assignment that a token of this kind is.
pub open spec fn assign_op(kind: TokenKind) -> Option<Operator> {
    match kind {
        TokenKind::Operator(crate::token::Operator::Equal) => Some(Operator::Equal),
        TokenKind::Operator(crate::token::Operator::Inc) => Some(Operator::Inc),
        TokenKind::Operator(crate::token::Operator::Dec) => Some(Operator::Dec),
        TokenKind::Operator(crate::token::Operator::Ext) => Some(Operator::Ext),
        _ => None,
    }
}

impl Input {
    /// A field at `pos`: a star for all fields, or a value and, behind `AS`, the path
    /// under which it is returned.
    pub open spec fn field(self, pos: nat) -> Parsed<FieldView> {
        if self.kind_at(pos) == TokenKind::Star {
            Ok((FieldView::All, pos + 1))
        } else {
            match self.value(pos) {
                Err(e) => Err(e),
                Ok((expr, next)) => if self.kind_at(next) == TokenKind::Keyword(Keyword::As) {
                    match self.idiom(next + 1) {
                        Ok((alias, end)) => Ok(
                            (FieldView::Single { expr, alias: Some(alias) }, end),
                        ),
                        Err(e) => Err(e),
                    }
                } else {
                    Ok((FieldView::Single { expr, alias: None }, next))
                },
            }
        }
    }

    /// Fields with commas between them, behind those read already, from `pos` on.
    pub open spec fn fields(self, pos: nat, read: Seq<FieldView>) -> Parsed<Seq<FieldView>>
        decreases self.tokens.len() - pos,
    {
        match self.field(pos) {
            Err(e) => Err(e),
            Ok((field, next)) => if self.kind_at(next) == TokenKind::Comma && pos < next
                < self.tokens.len() {
                self.fields(next + 1, read.push(field))
            } else {
                Ok((read.push(field), next))
            },
        }
    }

    /// One assignment at `pos`: a path, an operator of assignment and a value.
    pub open spec fn assignment(self, pos: nat) -> Parsed<(Seq<PartView>, Operator, ExprView)> {
        match self.idiom(pos) {
            Err(e) => Err(e),
            Ok((idiom, at_op)) => match assign_op(self.kind_at(at_op)) {
                None => Err(self.unexpected(at_op, Expected::AssignOperator)),
                Some(op) => match self.value(at_op + 1) {
                    Err(e) => Err(e),
                    Ok((value, next)) => Ok(((idiom, op, value), next)),
                },
            },
        }
    }

    /// Assignments with commas between them, behind those read already, from `pos` on.
    pub open spec fn assignments(
        self,
        pos: nat,
        read: Seq<(Seq<PartView>, Operator, ExprView)>,
    ) -> Parsed<Seq<(Seq<PartView>, Operator, ExprView)>>
        decreases self.tokens.len() - pos,
    {
        match self.assignment(pos) {
            Err(e) => Err(e),
            Ok((set, next)) => if self.kind_at(next) == TokenKind::Comma && pos < next
                < self.tokens.len() {
                self.assignments(next + 1, read.push(set))
            } else {
                Ok((read.push(set), next))
            },
        }
    }

    /// How the records are changed, where a word at `pos` says so: `SET`, `UNSET`,
    /// `PATCH`, `MERGE`, `REPLACE` or `CONTENT`, and what belongs to it. Else nothing, and
    /// no token is taken.
    pub open spec fn data(self, pos: nat) -> Parsed<Option<DataView>> {
        match self.kind_at(pos) {
            TokenKind::Keyword(Keyword::SetWord) => match self.assignments(pos + 1, Seq::empty()) {
                Ok((list, next)) => Ok((Some(DataView::SetExpression(list)), next)),
                Err(e) => Err(e),
            },
            TokenKind::Keyword(Keyword::Unset) => match self.idioms(pos + 1, Seq::empty()) {
                Ok((list, next)) => Ok((Some(DataView::UnsetExpression(list)), next)),
                Err(e) => Err(e),
            },
            TokenKind::Keyword(Keyword::Patch) => match self.value(pos + 1) {
                Ok((value, next)) => Ok((Some(DataView::PatchExpression(value)), next)),
                Err(e) => Err(e),
            },
            TokenKind::Keyword(Keyword::Merge) => match self.value(pos + 1) {
                Ok((value, next)) => Ok((Some(DataView::MergeExpression(value)), next)),
                Err(e) => Err(e),
            },
            TokenKind::Keyword(Keyword::Replace) => match self.value(pos + 1) {
                Ok((value, next)) => Ok((Some(DataView::ReplaceExpression(value)), next)),
                Err(e) => Err(e),
            },
            TokenKind::Keyword(Keyword::Content) => match self.value(pos + 1) {
                Ok((value, next)) => Ok((Some(DataView::ContentExpression(value)), next)),
                Err(e) => Err(e),
            },
            _ => Ok((None, pos)),
        }
    }

    /// What is returned of each record, where `RETURN` at `pos` says so: `NONE`, `NULL`,
    /// `DIFF`, `AFTER`, `BEFORE`, or fields. Else nothing, and no token is taken.
    pub open spec fn output(self, pos: nat) -> Parsed<Option<OutputView>> {
        if self.kind_at(pos) != TokenKind::Keyword(Keyword::Return) {
            Ok((None, pos))
        } else {
            match self.kind_at(pos + 1) {
                TokenKind::Keyword(Keyword::NoneWord) => Ok((Some(OutputView::Nothing), pos + 2)),
                TokenKind::Keyword(Keyword::Null) => Ok((Some(OutputView::Null), pos + 2)),
                TokenKind::Keyword(Keyword::Diff) => Ok((Some(OutputView::Diff), pos + 2)),
                TokenKind::Keyword(Keyword::After) => Ok((Some(OutputView::After), pos + 2)),
                TokenKind::Keyword(Keyword::Before) => Ok((Some(OutputView::Before), pos + 2)),
                _ => match self.fields(pos + 1, Seq::empty()) {
                    Ok((fields, next)) => Ok((Some(OutputView::Fields(fields)), next)),
                    Err(e) => Err(e),
                },
            }
        }
    }

    /// How long the statement may take, where `TIMEOUT` at `pos` says so.
    pub open spec fn timeout(self, pos: nat) -> Parsed<Option<(u64, u32)>> {
        if self.kind_at(pos) != TokenKind::Keyword(Keyword::Timeout) {
            Ok((None, pos))
        } else {
            match self.duration(pos + 1) {
                Ok((duration, next)) => Ok((Some(duration), next)),
                Err(e) => Err(e),
            }
        }
    }

    /// The paths whose records are fetched, where `FETCH` at `pos` says so.
    pub open spec fn fetch(self, pos: nat) -> Parsed<Option<Seq<Seq<PartView>>>> {
        if self.kind_at(pos) != TokenKind::Keyword(Keyword::Fetch) {
            Ok((None, pos))
        } else {
            match self.idioms(pos + 1, Seq::empty()) {
                Ok((idioms, next)) => Ok((Some(idioms), next)),
                Err(e) => Err(e),
            }
        }
    }

    /// The condition that records must meet, where `WHERE` at `pos` says so.
    pub open spec fn condition(self, pos: nat) -> Parsed<Option<ExprView>> {
        if self.kind_at(pos) != TokenKind::Keyword(Keyword::Where) {
            Ok((None, pos))
        } else {
            match self.value(pos + 1) {
                Ok((value, next)) => Ok((Some(value), next)),
                Err(e) => Err(e),
            }
        }
    }

    /// The paths by which records are grouped, where `GROUP` at `pos` says so: no paths
    /// behind `ALL`, else paths, before which `BY` may stand.
    pub open spec fn group(self, pos: nat) -> Parsed<Option<Seq<Seq<PartView>>>> {
        if self.kind_at(pos) != TokenKind::Keyword(Keyword::Group) {
            Ok((None, pos))
        } else if self.kind_at(pos + 1) == TokenKind::Keyword(Keyword::All) {
            Ok((Some(Seq::empty()), pos + 2))
        } else {
            let from = if self.kind_at(pos + 1) == TokenKind::Keyword(Keyword::By) {
                pos + 2
            } else {
                pos + 1
            };
            match self.idioms(from, Seq::empty()) {
                Ok((idioms, next)) => Ok((Some(idioms), next)),
                Err(e) => Err(e),
            }
        }
    }

    /// Who may run a kind of statement, at `pos`: `NONE`, `FULL`, or `WHERE` and a
    /// condition.
    pub open spec fn permission_value(self, pos: nat) -> Parsed<PermissionView> {
        match self.kind_at(pos) {
            TokenKind::Keyword(Keyword::NoneWord) => Ok((PermissionView::Nothing, pos + 1)),
            TokenKind::Keyword(Keyword::Full) => Ok((PermissionView::Full, pos + 1)),
            TokenKind::Keyword(Keyword::Where) => match self.value(pos + 1) {
                Ok((value, next)) => Ok((PermissionView::Specific(value), next)),
                Err(e) => Err(e),
            },
            _ => Err(self.unexpected(pos, Expected::PermissionValue)),
        }
    }

    /// The permissions `before` with the permission for one kind of statement set anew:
    /// at `pos` stands `SELECT`, `CREATE`, `UPDATE` or `DELETE`, and who may run it.
    pub open spec fn specific_permission(self, pos: nat, before: PermissionsView) -> Parsed<
        PermissionsView,
    > {
        match self.kind_at(pos) {
            TokenKind::Keyword(Keyword::Select) => match self.permission_value(pos + 1) {
                Ok((value, next)) => Ok((PermissionsView { select: value, ..before }, next)),
                Err(e) => Err(e),
            },
            TokenKind::Keyword(Keyword::Create) => match self.permission_value(pos + 1) {
                Ok((value, next)) => Ok((PermissionsView { create: value, ..before }, next)),
                Err(e) => Err(e),
            },
            TokenKind::Keyword(Keyword::Update) => match self.permission_value(pos + 1) {
                Ok((value, next)) => Ok((PermissionsView { update: value, ..before }, next)),
                Err(e) => Err(e),
            },
            TokenKind::Keyword(Keyword::Delete) => match self.permission_value(pos + 1) {
                Ok((value, next)) => Ok((PermissionsView { delete: value, ..before }, next)),
                Err(e) => Err(e),
            },
            _ => Err(self.unexpected(pos, Expected::PermissionFor)),
        }
    }

    /// The permissions `before` with each permission set anew that is given from `pos`
    /// on, with commas between them.
    pub open spec fn specific_permissions(self, pos: nat, before: PermissionsView) -> Parsed<
        PermissionsView,
    >
        decreases self.tokens.len() - pos,
    {
        match self.specific_permission(pos, before) {
            Err(e) => Err(e),
            Ok((permissions, next)) => if self.kind_at(next) == TokenKind::Comma && pos < next
                < self.tokens.len() {
                self.specific_permissions(next + 1, permissions)
            } else {
                Ok((permissions, next))
            },
        }
    }

    /// Permissions at `pos`, behind `PERMISSIONS`: `NONE`, `FULL`, or `FOR` and the
    /// permissions that differ from everybody being allowed everything.
    pub open spec fn permission(self, pos: nat) -> Parsed<PermissionsView> {
        match self.kind_at(pos) {
            TokenKind::Keyword(Keyword::NoneWord) => Ok((PermissionsView::none(), pos + 1)),
            TokenKind::Keyword(Keyword::Full) => Ok((PermissionsView::full(), pos + 1)),
            TokenKind::Keyword(Keyword::For) => self.specific_permissions(
                pos + 1,
                PermissionsView::full(),
            ),
            _ => Err(self.unexpected(pos, Expected::PermissionsKind)),
        }
    }

    /// A level at `pos`: `NAMESPACE`, `DATABASE`, `ROOT`, or, where a scope is allowed,
    /// `SCOPE` and its name.
    pub open spec fn base(self, pos: nat, scope_allowed: bool) -> Parsed<BaseView> {
        match self.kind_at(pos) {
            TokenKind::Keyword(Keyword::Namespace) => Ok((BaseView::Ns, pos + 1)),
            TokenKind::Keyword(Keyword::Database) => Ok((BaseView::Db, pos + 1)),
            TokenKind::Keyword(Keyword::Root) => Ok((BaseView::Root, pos + 1)),
            TokenKind::Keyword(Keyword::Scope) => if !scope_allowed {
                Err(self.unexpected(pos, Expected::ScopeNotAllowed))
            } else {
                match self.ident(pos + 1) {
                    Ok((name, next)) => Ok((BaseView::Sc(name), next)),
                    Err(e) => Err(e),
                }
            },
            _ => Err(
                self.unexpected(
                    pos,
                    if scope_allowed {
                        Expected::BaseWithScope
                    } else {
                        Expected::BaseWithoutScope
                    },
                ),
            ),
        }
    }

    /// Names of tables with commas between them, behind those read already, from `pos` on.
    pub open spec fn tables(self, pos: nat, read: Seq<Seq<char>>) -> Parsed<Seq<Seq<char>>>
        decreases self.tokens.len() - pos,
    {
        match self.ident(pos) {
            Err(e) => Err(e),
            Ok((name, next)) => if self.kind_at(next) == TokenKind::Comma && pos < next
                < self.tokens.len() {
                self.tables(next + 1, read.push(name))
            } else {
                Ok((read.push(name), next))
            },
        }
    }

    /// A computed table at `pos`: `SELECT`, fields, `FROM`, tables, and then a condition
    /// and groups, where they are given.
    pub open spec fn view(self, pos: nat) -> Parsed<ViewView> {
        if self.kind_at(pos) != TokenKind::Keyword(Keyword::Select) {
            Err(self.unexpected(pos, Expected::Select))
        } else {
            match self.fields(pos + 1, Seq::empty()) {
                Err(e) => Err(e),
                Ok((expr, at_from)) => if self.kind_at(at_from) != TokenKind::Keyword(
                    Keyword::From,
                ) {
                    Err(self.unexpected(at_from, Expected::From))
                } else {
                    match self.tables(at_from + 1, Seq::empty()) {
                        Err(e) => Err(e),
                        Ok((what, at_cond)) => match self.condition(at_cond) {
                            Err(e) => Err(e),
                            Ok((cond, at_group)) => match self.group(at_group) {
                                Err(e) => Err(e),
                                Ok((group, next)) => Ok(
                                    (ViewView { expr, what, cond, group }, next),
                                ),
                            },
                        },
                    }
                },
            }
        }
    }

    /// How distance is measured, where `DISTANCE` at `pos` says so: a measure, and for
    /// `MINKOWSKI` its order.
    pub open spec fn distance(self, pos: nat) -> Parsed<Option<DistanceView>> {
        if self.kind_at(pos) != TokenKind::Keyword(Keyword::Distance) {
            Ok((None, pos))
        } else {
            match self.kind_at(pos + 1) {
                TokenKind::Distance(DistanceKind::Euclidean) => Ok(
                    (Some(DistanceView::Euclidean), pos + 2),
                ),
                TokenKind::Distance(DistanceKind::Manhattan) => Ok(
                    (Some(DistanceView::Manhattan), pos + 2),
                ),
                TokenKind::Distance(DistanceKind::Cosine) => Ok(
                    (Some(DistanceView::Cosine), pos + 2),
                ),
                TokenKind::Distance(DistanceKind::Hamming) => Ok(
                    (Some(DistanceView::Hamming), pos + 2),
                ),
                TokenKind::Distance(DistanceKind::Mahalanobis) => Ok(
                    (Some(DistanceView::Mahalanobis), pos + 2),
                ),
                TokenKind::Distance(DistanceKind::Minkowski) => match self.number(pos + 2) {
                    Ok((order, next)) => Ok((Some(DistanceView::Minkowski(order)), next)),
                    Err(e) => Err(e),
                },
                _ => Err(self.unexpected(pos + 1, Expected::DistanceMeasure)),
            }
        }
    }

    /// The parts of the name of a function behind those read already, from `pos` on:
    /// each behind two colons, which stay in the name.
    pub open spec fn function_name_parts(self, pos: nat, read: Seq<char>) -> Parsed<Seq<char>>
        decreases self.tokens.len() - pos,
    {
        if self.kind_at(pos) != TokenKind::PathSeperator {
            Ok((read, pos))
        } else {
            match self.ident(pos + 1) {
                Err(e) => Err(e),
                Ok((part, next)) => if pos < next <= self.tokens.len() {
                    self.function_name_parts(next, read + "::"@ + part)
                } else {
                    Ok((read + "::"@ + part, next))
                },
            }
        }
    }

    /// The name of a function of the user at `pos`: `fn`, two colons, and the parts of the
    /// name with two colons between them.
    pub open spec fn custom_function_name(self, pos: nat) -> Parsed<Seq<char>> {
        if self.kind_at(pos) != TokenKind::Keyword(Keyword::Fn) {
            Err(self.unexpected(pos, Expected::Function))
        } else if self.kind_at(pos + 1) != TokenKind::PathSeperator {
            Err(self.unexpected(pos + 1, Expected::PathSeparator))
        } else {
            match self.ident(pos + 2) {
                Err(e) => Err(e),
                Ok((name, next)) => self.function_name_parts(next, name),
            }
        }
    }
}

impl<'a> Parser<'a> {
    /// Parses a field.
    pub fn parse_field(&mut self) -> (result: ParseResult<Field>)
        requires
            old(self).wf(),
        ensures
            final(self).wf(),
            final(self).input() == old(self).input(),
            match result {
                Ok(field) => old(self).input().field(old(self).pos()) == Ok::<
                    (FieldView, nat),
                    ParseError,
                >((field@, final(self).pos())) && final(self).pos() > old(self).pos(),
                Err(e) => old(self).input().field(old(self).pos()) == Err::<
                    (FieldView, nat),
                    ParseError,
                >(e),
            },
    {
        if self.eat(TokenKind::Star) {
            return Ok(Field::All);
        }
        let expr = match self.parse_value() {
            Ok(expr) => expr,
            Err(e) => return Err(e),
        };
        if self.eat(TokenKind::Keyword(Keyword::As)) {
            match self.parse_plain_idiom() {
                Ok(alias) => Ok(Field::Single { expr, alias: Some(alias) }),
                Err(e) => Err(e),
            }
        } else {
            Ok(Field::Single { expr, alias: None })
        }
    }

    /// Parses fields with commas between them.
    pub fn parse_fields(&mut self) -> (result: ParseResult<Fields>)
        requires
            old(self).wf(),
        ensures
            final(self).wf(),
            final(self).input() == old(self).input(),
            match result {
                Ok(fields) => old(self).input().fields(old(self).pos(), Seq::empty()) == Ok::<
                    (Seq<FieldView>, nat),
                    ParseError,
                >((fields@, final(self).pos())) && final(self).pos() > old(self).pos(),
                Err(e) => old(self).input().fields(old(self).pos(), Seq::empty()) == Err::<
                    (Seq<FieldView>, nat),
                    ParseError,
                >(e),
            },
    {
        let ghost input = self.input();
        let ghost start = self.pos();
        let mut fields: Vec<Field> = Vec::new();
        proof {
            assert(fields@.map_values(|field: Field| field@) =~= Seq::<FieldView>::empty());
        }
        loop
            invariant
                self.wf(),
                self.input() == input,
                input == old(self).input(),
                start == old(self).pos(),
                start <= self.pos(),
                fields@.len() > 0 ==> start < self.pos(),
                input.fields(start, Seq::empty()) == input.fields(
                    self.pos(),
                    fields@.map_values(|field: Field| field@),
                ),
            decreases input.tokens.len() - self.pos(),
        {
            let ghost read = fields@.map_values(|field: Field| field@);
            let field = match self.parse_field() {
                Ok(field) => field,
                Err(e) => return Err(e),
            };
            let ghost field_view = field@;
            fields.push(field);
            proof {
                assert(fields@.map_values(|field: Field| field@) =~= read.push(field_view));
            }
            if !self.eat(TokenKind::Comma) {
                return Ok(Fields(fields));
            }
        }
    }

    /// Parses one assignment: a path, an operator of assignment and a value.
    fn parse_assignment(&mut self) -> (result: ParseResult<(Idiom, Operator, Expr)>)
        requires
            old(self).wf(),
        ensures
            final(self).wf(),
            final(self).input() == old(self).input(),
            match result {
                Ok(set) => old(self).input().assignment(old(self).pos()) == Ok::<
                    ((Seq<PartView>, Operator, ExprView), nat),
                    ParseError,
                >(((set.0@, set.1, set.2@), final(self).pos())) && final(self).pos() > old(self).pos(),
                Err(e) => old(self).input().assignment(old(self).pos()) == Err::<
                    ((Seq<PartView>, Operator, ExprView), nat),
                    ParseError,
                >(e),
            },
    {
        let idiom = match self.parse_plain_idiom() {
            Ok(idiom) => idiom,
            Err(e) => return Err(e),
        };
        let operator = match self.peek_kind() {
            TokenKind::Operator(crate::token::Operator::Equal) => Operator::Equal,
            TokenKind::Operator(crate::token::Operator::Inc) => Operator::Inc,
            TokenKind::Operator(crate::token::Operator::Dec) => Operator::Dec,
            TokenKind::Operator(crate::token::Operator::Ext) => Operator::Ext,
            _ => return Err(self.unexpected(Expected::AssignOperator)),
        };
        self.pop_peek();
        match self.parse_value() {
            Ok(value) => Ok((idiom, operator, value)),
            Err(e) => Err(e),
        }
    }

    /// Parses assignments with commas between them.
    fn parse_assignments(&mut self) -> (result: ParseResult<Vec<(Idiom, Operator, Expr)>>)
        requires
            old(self).wf(),
        ensures
            final(self).wf(),
            final(self).input() == old(self).input(),
            match result {
                Ok(list) => old(self).input().assignments(old(self).pos(), Seq::empty()) == Ok::<
                    (Seq<(Seq<PartView>, Operator, ExprView)>, nat),
                    ParseError,
                >(
                    (
                        list@.map_values(|set: (Idiom, Operator, Expr)| (set.0@, set.1, set.2@)),
                        final(self).pos(),
                    ),
                ),
                Err(e) => old(self).input().assignments(old(self).pos(), Seq::empty()) == Err::<
                    (Seq<(Seq<PartView>, Operator, ExprView)>, nat),
                    ParseError,
                >(e),
            },
    {
        let ghost input = self.input();
        let ghost start = self.pos();
        let mut list: Vec<(Idiom, Operator, Expr)> = Vec::new();
        proof {
            assert(list@.map_values(|set: (Idiom, Operator, Expr)| (set.0@, set.1, set.2@))
                =~= Seq::<(Seq<PartView>, Operator, ExprView)>::empty());
        }
        loop
            invariant
                self.wf(),
                self.input() == input,
                input == old(self).input(),
                start == old(self).pos(),
                input.assignments(start, Seq::empty()) == input.assignments(
                    self.pos(),
                    list@.map_values(|set: (Idiom, Operator, Expr)| (set.0@, set.1, set.2@)),
                ),
            decreases input.tokens.len() - self.pos(),
        {
            let ghost read = list@.map_values(
                |set: (Idiom, Operator, Expr)| (set.0@, set.1, set.2@),
            );
            let set = match self.parse_assignment() {
                Ok(set) => set,
                Err(e) => return Err(e),
            };
            let ghost set_view = (set.0@, set.1, set.2@);
            list.push(set);
            proof {
                assert(list@.map_values(|set: (Idiom, Operator, Expr)| (set.0@, set.1, set.2@))
                    =~= read.push(set_view));
            }
            if !self.eat(TokenKind::Comma) {
                return Ok(list);
            }
        }
    }

    /// Parses a data production if the next token is a data keyword.
    /// Otherwise returns None
    pub fn try_parse_data(&mut self) -> (result: ParseResult<Option<Data>>)
        requires
            old(self).wf(),
        ensures
            final(self).wf(),
            final(self).input() == old(self).input(),
            match result {
                Ok(data) => old(self).input().data(old(self).pos()) == Ok::<
                    (Option<DataView>, nat),
                    ParseError,
                >(
                    (
                        match data {
                            Some(data) => Some(data@),
                            None => None,
                        },
                        final(self).pos(),
                    ),
                ),
                Err(e) => old(self).input().data(old(self).pos()) == Err::<
                    (Option<DataView>, nat),
                    ParseError,
                >(e),
            },
    {
        let res = match self.peek_kind() {
            TokenKind::Keyword(Keyword::SetWord) => {
                self.pop_peek();
                match self.parse_assignments() {
                    Ok(list) => Data::SetExpression(list),
                    Err(e) => return Err(e),
                }
            },
            TokenKind::Keyword(Keyword::Unset) => {
                self.pop_peek();
                match self.parse_idiom_list() {
                    Ok(list) => Data::UnsetExpression(list),
                    Err(e) => return Err(e),
                }
            },
            TokenKind::Keyword(Keyword::Patch) => {
                self.pop_peek();
                match self.parse_value() {
                    Ok(value) => Data::PatchExpression(value),
                    Err(e) => return Err(e),
                }
            },
            TokenKind::Keyword(Keyword::Merge) => {
                self.pop_peek();
                match self.parse_value() {
                    Ok(value) => Data::MergeExpression(value),
                    Err(e) => return Err(e),
                }
            },
            TokenKind::Keyword(Keyword::Replace) => {
                self.pop_peek();
                match self.parse_value() {
                    Ok(value) => Data::ReplaceExpression(value),
                    Err(e) => return Err(e),
                }
            },
            TokenKind::Keyword(Keyword::Content) => {
                self.pop_peek();
                match self.parse_value() {
                    Ok(value) => Data::ContentExpression(value),
                    Err(e) => return Err(e),
                }
            },
            _ => return Ok(None),
        };
        Ok(Some(res))
    }

    pub fn try_parse_output(&mut self) -> (result: ParseResult<Option<Output>>)
        requires
            old(self).wf(),
        ensures
            final(self).wf(),
            final(self).input() == old(self).input(),
            match result {
                Ok(output) => old(self).input().output(old(self).pos()) == Ok::<
                    (Option<OutputView>, nat),
                    ParseError,
                >(
                    (
                        match output {
                            Some(output) => Some(output@),
                            None => None,
                        },
                        final(self).pos(),
                    ),
                ),
                Err(e) => old(self).input().output(old(self).pos()) == Err::<
                    (Option<OutputView>, nat),
                    ParseError,
                >(e),
            },
    {
        if !self.eat(TokenKind::Keyword(Keyword::Return)) {
            return Ok(None);
        }
        let res = match self.peek_kind() {
            TokenKind::Keyword(Keyword::NoneWord) => {
                self.pop_peek();
                Output::Nothing
            },
            TokenKind::Keyword(Keyword::Null) => {
                self.pop_peek();
                Output::Null
            },
            TokenKind::Keyword(Keyword::Diff) => {
                self.pop_peek();
                Output::Diff
            },
            TokenKind::Keyword(Keyword::After) => {
                self.pop_peek();
                Output::After
            },
            TokenKind::Keyword(Keyword::Before) => {
                self.pop_peek();
                Output::Before
            },
            _ => match self.parse_fields() {
                Ok(fields) => Output::Fields(fields),
                Err(e) => return Err(e),
            },
        };
        Ok(Some(res))
    }

    pub fn try_parse_timeout(&mut self) -> (result: ParseResult<Option<Timeout>>)
        requires
            old(self).wf(),
        ensures
            final(self).wf(),
            final(self).input() == old(self).input(),
            match result {
                Ok(timeout) => old(self).input().timeout(old(self).pos()) == Ok::<
                    (Option<(u64, u32)>, nat),
                    ParseError,
                >(
                    (
                        match timeout {
                            Some(timeout) => Some(timeout@),
                            None => None,
                        },
                        final(self).pos(),
                    ),
                ),
                Err(e) => old(self).input().timeout(old(self).pos()) == Err::<
                    (Option<(u64, u32)>, nat),
                    ParseError,
                >(e),
            },
    {
        if !self.eat(TokenKind::Keyword(Keyword::Timeout)) {
            return Ok(None);
        }
        match self.parse_duration() {
            Ok(duration) => Ok(Some(Timeout(duration))),
            Err(e) => Err(e),
        }
    }

    pub fn try_parse_fetch(&mut self) -> (result: ParseResult<Option<Fetchs>>)
        requires
            old(self).wf(),
        ensures
            final(self).wf(),
            final(self).input() == old(self).input(),
            match result {
                Ok(fetch) => old(self).input().fetch(old(self).pos()) == Ok::<
                    (Option<Seq<Seq<PartView>>>, nat),
                    ParseError,
                >(
                    (
                        match fetch {
                            Some(fetch) => Some(fetch@),
                            None => None,
                        },
                        final(self).pos(),
                    ),
                ),
                Err(e) => old(self).input().fetch(old(self).pos()) == Err::<
                    (Option<Seq<Seq<PartView>>>, nat),
                    ParseError,
                >(e),
            },
    {
        if !self.eat(TokenKind::Keyword(Keyword::Fetch)) {
            return Ok(None);
        }
        let idioms = match self.parse_idiom_list() {
            Ok(idioms) => idioms,
            Err(e) => return Err(e),
        };
        Ok(Some(Fetchs(wrap_fetchs(idioms))))
    }

    pub fn try_parse_condition(&mut self) -> (result: ParseResult<Option<Cond>>)
        requires
            old(self).wf(),
        ensures
            final(self).wf(),
            final(self).input() == old(self).input(),
            match result {
                Ok(cond) => old(self).input().condition(old(self).pos()) == Ok::<
                    (Option<ExprView>, nat),
                    ParseError,
                >(
                    (
                        match cond {
                            Some(cond) => Some(cond@),
                            None => None,
                        },
                        final(self).pos(),
                    ),
                ),
                Err(e) => old(self).input().condition(old(self).pos()) == Err::<
                    (Option<ExprView>, nat),
                    ParseError,
                >(e),
            },
    {
        if !self.eat(TokenKind::Keyword(Keyword::Where)) {
            return Ok(None);
        }
        match self.parse_value() {
            Ok(v) => Ok(Some(Cond(v))),
            Err(e) => Err(e),
        }
    }

    pub fn try_parse_group(&mut self) -> (result: ParseResult<Option<Groups>>)
        requires
            old(self).wf(),
        ensures
            final(self).wf(),
            final(self).input() == old(self).input(),
            match result {
                Ok(group) => old(self).input().group(old(self).pos()) == Ok::<
                    (Option<Seq<Seq<PartView>>>, nat),
                    ParseError,
                >(
                    (
                        match group {
                            Some(group) => Some(group@),
                            None => None,
                        },
                        final(self).pos(),
                    ),
                ),
                Err(e) => old(self).input().group(old(self).pos()) == Err::<
                    (Option<Seq<Seq<PartView>>>, nat),
                    ParseError,
                >(e),
            },
    {
        if !self.eat(TokenKind::Keyword(Keyword::Group)) {
            return Ok(None);
        }
        if self.eat(TokenKind::Keyword(Keyword::All)) {
            let groups = Groups(Vec::new());
            proof {
                assert(groups@ =~= Seq::<Seq<PartView>>::empty());
            }
            return Ok(Some(groups));
        }
        self.eat(TokenKind::Keyword(Keyword::By));
        let idioms = match self.parse_idiom_list() {
            Ok(idioms) => idioms,
            Err(e) => return Err(e),
        };
        Ok(Some(Groups(wrap_groups(idioms))))
    }

    /// Parse a permissions production
    ///
    /// # Parser State
    /// Expects the parser to have just eaten the `PERMISSIONS` keyword.
    pub fn parse_permission(&mut self) -> (result: ParseResult<Permissions>)
        requires
            old(self).wf(),
        ensures
            final(self).wf(),
            final(self).input() == old(self).input(),
            match result {
                Ok(permissions) => old(self).input().permission(old(self).pos()) == Ok::<
                    (PermissionsView, nat),
                    ParseError,
                >((permissions@, final(self).pos())),
                Err(e) => old(self).input().permission(old(self).pos()) == Err::<
                    (PermissionsView, nat),
                    ParseError,
                >(e),
            },
    {
        match self.peek_kind() {
            TokenKind::Keyword(Keyword::NoneWord) => {
                self.pop_peek();
                Ok(Permissions::none())
            },
            TokenKind::Keyword(Keyword::Full) => {
                self.pop_peek();
                Ok(Permissions::full())
            },
            TokenKind::Keyword(Keyword::For) => {
                self.pop_peek();
                let mut permission = Permissions::default();
                let ghost input = self.input();
                let ghost start = self.pos();
                loop
                    invariant
                        self.wf(),
                        self.input() == input,
                        input == old(self).input(),
                        start == old(self).pos() + 1,
                        old(self).input().kind_at(old(self).pos()) == TokenKind::Keyword(
                            Keyword::For,
                        ),
                        input.specific_permissions(start, PermissionsView::full())
                            == input.specific_permissions(self.pos(), permission@),
                    decreases input.tokens.len() - self.pos(),
                {
                    let ghost pos = self.pos();
                    match self.parse_specific_permission(&mut permission) {
                        Ok(_) => {},
                        Err(e) => return Err(e),
                    }
                    if !self.eat(TokenKind::Comma) {
                        return Ok(permission);
                    }
                }
            },
            _ => Err(self.unexpected(Expected::PermissionsKind)),
        }
    }

    /// Parse a specific permission for a type of query
    ///
    /// Sets the permission for a specific query on the given permission keyword.
    ///
    /// # Parser State
    /// Expects the parser to just have eaten the `FOR` keyword.
    pub fn parse_specific_permission(&mut self, permissions: &mut Permissions) -> (result:
        ParseResult<()>)
        requires
            old(self).wf(),
        ensures
            final(self).wf(),
            final(self).input() == old(self).input(),
            match result {
                Ok(_) => old(self).input().specific_permission(
                    old(self).pos(),
                    old(permissions)@,
                ) == Ok::<(PermissionsView, nat), ParseError>(
                    (final(permissions)@, final(self).pos()),
                ) && final(self).pos() > old(self).pos(),
                Err(e) => old(self).input().specific_permission(
                    old(self).pos(),
                    old(permissions)@,
                ) == Err::<(PermissionsView, nat), ParseError>(e) && final(permissions)@ == old(permissions)@,
            },
    {
        match self.peek_kind() {
            TokenKind::Keyword(Keyword::Select) => {
                self.pop_peek();
                match self.parse_permission_value() {
                    Ok(value) => {
                        permissions.select = value;
                    },
                    Err(e) => return Err(e),
                }
            },
            TokenKind::Keyword(Keyword::Create) => {
                self.pop_peek();
                match self.parse_permission_value() {
                    Ok(value) => {
                        permissions.create = value;
                    },
                    Err(e) => return Err(e),
                }
            },
            TokenKind::Keyword(Keyword::Update) => {
                self.pop_peek();
                match self.parse_permission_value() {
                    Ok(value) => {
                        permissions.update = value;
                    },
                    Err(e) => return Err(e),
                }
            },
            TokenKind::Keyword(Keyword::Delete) => {
                self.pop_peek();
                match self.parse_permission_value() {
                    Ok(value) => {
                        permissions.delete = value;
                    },
                    Err(e) => return Err(e),
                }
            },
            _ => return Err(self.unexpected(Expected::PermissionFor)),
        }
        Ok(())
    }

    /// Parses a the value for a permission for a type of query
    ///
    /// # Parser State
    ///
    /// Expects the parser to just have eaten either `SELECT`, `CREATE`, `UPDATE` or `DELETE`.
    pub fn parse_permission_value(&mut self) -> (result: ParseResult<Permission>)
        requires
            old(self).wf(),
        ensures
            final(self).wf(),
            final(self).input() == old(self).input(),
            match result {
                Ok(permission) => old(self).input().permission_value(old(self).pos()) == Ok::<
                    (PermissionView, nat),
                    ParseError,
                >((permission@, final(self).pos())) && final(self).pos() > old(self).pos(),
                Err(e) => old(self).input().permission_value(old(self).pos()) == Err::<
                    (PermissionView, nat),
                    ParseError,
                >(e),
            },
    {
        match self.peek_kind() {
            TokenKind::Keyword(Keyword::NoneWord) => {
                self.pop_peek();
                Ok(Permission::Nothing)
            },
            TokenKind::Keyword(Keyword::Full) => {
                self.pop_peek();
                Ok(Permission::Full)
            },
            TokenKind::Keyword(Keyword::Where) => {
                self.pop_peek();
                match self.parse_value() {
                    Ok(value) => Ok(Permission::Specific(value)),
                    Err(e) => Err(e),
                }
            },
            _ => Err(self.unexpected(Expected::PermissionValue)),
        }
    }

    /// Parses a base
    ///
    /// So either `NAMESPACE`, ~DATABASE`, `ROOT`, or `SCOPE` if `scope_allowed` is true.
    ///
    /// # Parser state
    /// Expects the next keyword to be a base.
    pub fn parse_base(&mut self, scope_allowed: bool) -> (result: ParseResult<Base>)
        requires
            old(self).wf(),
        ensures
            final(self).wf(),
            final(self).input() == old(self).input(),
            match result {
                Ok(base) => old(self).input().base(old(self).pos(), scope_allowed) == Ok::<
                    (BaseView, nat),
                    ParseError,
                >((base@, final(self).pos())),
                Err(e) => old(self).input().base(old(self).pos(), scope_allowed) == Err::<
                    (BaseView, nat),
                    ParseError,
                >(e),
            },
    {
        match self.peek_kind() {
            TokenKind::Keyword(Keyword::Namespace) => {
                self.pop_peek();
                Ok(Base::Ns)
            },
            TokenKind::Keyword(Keyword::Database) => {
                self.pop_peek();
                Ok(Base::Db)
            },
            TokenKind::Keyword(Keyword::Root) => {
                self.pop_peek();
                Ok(Base::Root)
            },
            TokenKind::Keyword(Keyword::Scope) => {
                if !scope_allowed {
                    return Err(self.unexpected(Expected::ScopeNotAllowed));
                }
                self.pop_peek();
                match self.parse_ident() {
                    Ok(name) => Ok(Base::Sc(name)),
                    Err(e) => Err(e),
                }
            },
            _ => {
                if scope_allowed {
                    Err(self.unexpected(Expected::BaseWithScope))
                } else {
                    Err(self.unexpected(Expected::BaseWithoutScope))
                }
            },
        }
    }

    /// Parses a changefeed production
    ///
    /// # Parser State
    /// Expects the parser to have already eating the `CHANGEFEED` keyword
    pub fn parse_changefeed(&mut self) -> (result: ParseResult<ChangeFeed>)
        requires
            old(self).wf(),
        ensures
            final(self).wf(),
            final(self).input() == old(self).input(),
            match result {
                Ok(feed) => old(self).input().duration(old(self).pos()) == Ok::<
                    ((u64, u32), nat),
                    ParseError,
                >((feed@, final(self).pos())),
                Err(e) => old(self).input().duration(old(self).pos()) == Err::<
                    ((u64, u32), nat),
                    ParseError,
                >(e),
            },
    {
        match self.parse_duration() {
            Ok(expiry) => Ok(ChangeFeed { expiry }),
            Err(e) => Err(e),
        }
    }

    /// Parses names of tables with commas between them.
    fn parse_tables(&mut self) -> (result: ParseResult<Tables>)
        requires
            old(self).wf(),
        ensures
            final(self).wf(),
            final(self).input() == old(self).input(),
            match result {
                Ok(tables) => old(self).input().tables(old(self).pos(), Seq::empty()) == Ok::<
                    (Seq<Seq<char>>, nat),
                    ParseError,
                >((tables@, final(self).pos())),
                Err(e) => old(self).input().tables(old(self).pos(), Seq::empty()) == Err::<
                    (Seq<Seq<char>>, nat),
                    ParseError,
                >(e),
            },
    {
        let ghost input = self.input();
        let ghost start = self.pos();
        let mut from: Vec<Table> = Vec::new();
        proof {
            assert(from@.map_values(|table: Table| table.0@) =~= Seq::<Seq<char>>::empty());
        }
        loop
            invariant
                self.wf(),
                self.input() == input,
                input == old(self).input(),
                start == old(self).pos(),
                input.tables(start, Seq::empty()) == input.tables(
                    self.pos(),
                    from@.map_values(|table: Table| table.0@),
                ),
            decreases input.tokens.len() - self.pos(),
        {
            let ghost read = from@.map_values(|table: Table| table.0@);
            let name = match self.parse_raw_ident() {
                Ok(name) => name,
                Err(e) => return Err(e),
            };
            let ghost name_view = name@;
            from.push(Table(name));
            proof {
                assert(from@.map_values(|table: Table| table.0@) =~= read.push(name_view));
            }
            if !self.eat(TokenKind::Comma) {
                return Ok(Tables(from));
            }
        }
    }

    /// Parses a view production
    ///
    /// # Parse State
    /// Expects the parser to have already eaten the possible `(` if the view was wrapped in
    /// parens. Expects the next keyword to be `SELECT`.
    pub fn parse_view(&mut self) -> (result: ParseResult<TableView>)
        requires
            old(self).wf(),
        ensures
            final(self).wf(),
            final(self).input() == old(self).input(),
            match result {
                Ok(view) => old(self).input().view(old(self).pos()) == Ok::<
                    (ViewView, nat),
                    ParseError,
                >((view@, final(self).pos())),
                Err(e) => old(self).input().view(old(self).pos()) == Err::<
                    (ViewView, nat),
                    ParseError,
                >(e),
            },
    {
        match self.expect(TokenKind::Keyword(Keyword::Select), Expected::Select) {
            Ok(_) => {},
            Err(e) => return Err(e),
        }
        let fields = match self.parse_fields() {
            Ok(fields) => fields,
            Err(e) => return Err(e),
        };
        match self.expect(TokenKind::Keyword(Keyword::From), Expected::From) {
            Ok(_) => {},
            Err(e) => return Err(e),
        }
        let from = match self.parse_tables() {
            Ok(from) => from,
            Err(e) => return Err(e),
        };
        let cond = match self.try_parse_condition() {
            Ok(cond) => cond,
            Err(e) => return Err(e),
        };
        let group = match self.try_parse_group() {
            Ok(group) => group,
            Err(e) => return Err(e),
        };
        Ok(TableView { expr: fields, what: from, cond, group })
    }

    pub fn try_parse_distance(&mut self) -> (result: ParseResult<Option<Distance>>)
        requires
            old(self).wf(),
        ensures
            final(self).wf(),
            final(self).input() == old(self).input(),
            match result {
                Ok(distance) => old(self).input().distance(old(self).pos()) == Ok::<
                    (Option<DistanceView>, nat),
                    ParseError,
                >(
                    (
                        match distance {
                            Some(distance) => Some(distance@),
                            None => None,
                        },
                        final(self).pos(),
                    ),
                ),
                Err(e) => old(self).input().distance(old(self).pos()) == Err::<
                    (Option<DistanceView>, nat),
                    ParseError,
                >(e),
            },
    {
        if !self.eat(TokenKind::Keyword(Keyword::Distance)) {
            return Ok(None);
        }
        let dist = match self.peek_kind() {
            TokenKind::Distance(x) => {
                self.pop_peek();
                match x {
                    DistanceKind::Euclidean => Distance::Euclidean,
                    DistanceKind::Manhattan => Distance::Manhattan,
                    DistanceKind::Cosine => Distance::Cosine,
                    DistanceKind::Hamming => Distance::Hamming,
                    DistanceKind::Mahalanobis => Distance::Mahalanobis,
                    DistanceKind::Minkowski => {
                        match self.parse_number() {
                            Ok(distance) => Distance::Minkowski(distance),
                            Err(e) => return Err(e),
                        }
                    },
                }
            },
            _ => return Err(self.unexpected(Expected::DistanceMeasure)),
        };
        Ok(Some(dist))
    }

    pub fn parse_custom_function_name(&mut self) -> (result: ParseResult<Ident>)
        requires
            old(self).wf(),
        ensures
            final(self).wf(),
            final(self).input() == old(self).input(),
            match result {
                Ok(name) => old(self).input().custom_function_name(old(self).pos()) == Ok::<
                    (Seq<char>, nat),
                    ParseError,
                >((name@, final(self).pos())),
                Err(e) => old(self).input().custom_function_name(old(self).pos()) == Err::<
                    (Seq<char>, nat),
                    ParseError,
                >(e),
            },
    {
        match self.expect(TokenKind::Keyword(Keyword::Fn), Expected::Function) {
            Ok(_) => {},
            Err(e) => return Err(e),
        }
        match self.expect(TokenKind::PathSeperator, Expected::PathSeparator) {
            Ok(_) => {},
            Err(e) => return Err(e),
        }
        let mut name = match self.parse_ident() {
            Ok(name) => name,
            Err(e) => return Err(e),
        };
        let ghost input = self.input();
        let ghost start = self.pos();
        let ghost first = name@;
        loop
            invariant
                self.wf(),
                self.input() == input,
                input == old(self).input(),
                input.custom_function_name(old(self).pos()) == input.function_name_parts(
                    start,
                    first,
                ),
                input.function_name_parts(start, first) == input.function_name_parts(
                    self.pos(),
                    name@,
                ),
            decreases input.tokens.len() - self.pos(),
        {
            if !self.eat(TokenKind::PathSeperator) {
                return Ok(name);
            }
            let part = match self.parse_ident() {
                Ok(part) => part,
                Err(e) => return Err(e),
            };
            name.0.append("::");
            name.0.append(part.as_str());
        }
    }
}

/// Takes the path at `index` out of `idioms` and leaves an empty path in its place.
fn take_idiom(idioms: &mut Vec<Idiom>, index: usize) -> (idiom: Idiom)
    requires
        index < old(idioms)@.len(),
    ensures
        idiom@ == old(idioms)@[index as int]@,
        final(idioms)@.len() == old(idioms)@.len(),
        forall|j: int|
            0 <= j < final(idioms)@.len() && j != index ==> final(idioms)@[j] == old(idioms)@[j],
{
    let mut taken = Idiom(Vec::new());
    std::mem::swap(&mut idioms[index], &mut taken);
    taken
}

/// The paths as paths to fetch.
fn wrap_fetchs(idioms: Vec<Idiom>) -> (fetchs: Vec<Fetch>)
    ensures
        fetchs@.map_values(|fetch: Fetch| fetch.0@) == idioms@.map_values(
            |idiom: Idiom| idiom@,
        ),
{
    let ghost all = idioms@.map_values(|idiom: Idiom| idiom@);
    let mut left = idioms;
    let mut fetchs: Vec<Fetch> = Vec::new();
    let mut i: usize = 0;
    while i < left.len()
        invariant
            i <= left@.len(),
            left@.len() == all.len(),
            fetchs@.len() == i,
            forall|j: int| 0 <= j < i ==> (#[trigger] fetchs@[j]).0@ == all[j],
            forall|j: int| i <= j < left@.len() ==> (#[trigger] left@[j])@ == all[j],
        decreases left@.len() - i,
    {
        let idiom = take_idiom(&mut left, i);
        fetchs.push(Fetch(idiom));
        i += 1;
    }
    assert(fetchs@.map_values(|fetch: Fetch| fetch.0@) =~= all);
    fetchs
}

/// The paths as paths to group by.
fn wrap_groups(idioms: Vec<Idiom>) -> (groups: Vec<Group>)
    ensures
        groups@.map_values(|group: Group| group.0@) == idioms@.map_values(
            |idiom: Idiom| idiom@,
        ),
{
    let ghost all = idioms@.map_values(|idiom: Idiom| idiom@);
    let mut left = idioms;
    let mut groups: Vec<Group> = Vec::new();
    let mut i: usize = 0;
    while i < left.len()
        invariant
            i <= left@.len(),
            left@.len() == all.len(),
            groups@.len() == i,
            forall|j: int| 0 <= j < i ==> (#[trigger] groups@[j]).0@ == all[j],
            forall|j: int| i <= j < left@.len() ==> (#[trigger] left@[j])@ == all[j],
        decreases left@.len() - i,
    {
        let idiom = take_idiom(&mut left, i);
        groups.push(Group(idiom));
        i += 1;
    }
    assert(groups@.map_values(|group: Group| group.0@) =~= all);
    groups
}

} // verus!

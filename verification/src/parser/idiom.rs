//! Paths through a record.

use vstd::prelude::*;
use crate::ast::Dir;
use crate::ast::Ident;
use crate::ast::Idiom;
use crate::ast::Part;
use crate::ast::PartView;
use crate::lexer::NumberLiteral;
use crate::lexer::NumberLiteralView;
use crate::parser::Expected;
use crate::parser::Input;
use crate::parser::ParseError;
use crate::parser::ParseResult;
use crate::parser::Parsed;
use crate::parser::Parser;
use crate::token::Delim;
use crate::token::TokenKind;

verus! {

impl Input {
    /// The names between braces behind those read already, from `pos` on: names with
    /// commas between them, and the closing brace.
    pub open spec fn names(self, pos: nat, read: Seq<Seq<char>>) -> Parsed<Seq<Seq<char>>>
        decreases self.tokens.len() - pos,
    {
        match self.ident(pos) {
            Err(e) => Err(e),
            Ok((name, next)) => if self.kind_at(next) == TokenKind::Comma && pos < next
                < self.tokens.len() {
                self.names(next + 1, read.push(name))
            } else if self.kind_at(next) == TokenKind::CloseDelim(Delim::Brace) {
                Ok((read.push(name), next + 1))
            } else {
                Err(self.unexpected(next, Expected::CloseBrace))
            },
        }
    }

    /// What stands between brackets at `pos`: a whole number that is not negative, a star
    /// for all items, or a dollar sign for the last; and the closing bracket behind it.
    pub open spec fn bracketed(self, pos: nat) -> Parsed<PartView> {
        let part = match self.kind_at(pos) {
            TokenKind::Number => match self.numbers[self.index_at(pos)] {
                NumberLiteralView::Integer(i) => if i >= 0 {
                    Some(PartView::Index(i as u64))
                } else {
                    None
                },
                _ => None,
            },
            TokenKind::Star => Some(PartView::All),
            TokenKind::Dollar => Some(PartView::Last),
            _ => None,
        };
        match part {
            None => Err(self.unexpected(pos, Expected::Index)),
            Some(part) => if self.kind_at(pos + 1) == TokenKind::CloseDelim(Delim::Bracket) {
                Ok((part, pos + 2))
            } else {
                Err(self.unexpected(pos + 1, Expected::CloseBracket))
            },
        }
    }

    /// The way along the graph that the token at `pos` stands for.
    pub open spec fn dir_at(self, pos: nat) -> Option<Dir> {
        match self.kind_at(pos) {
            TokenKind::ArrowRight => Some(Dir::Out),
            TokenKind::ArrowLeft => Some(Dir::In),
            TokenKind::BiArrow => Some(Dir::Both),
            _ => None,
        }
    }

    /// The step of a path that starts at `pos`, if one starts there: a point and a name or
    /// names between braces, something between brackets, or an arrow and a table.
    pub open spec fn part(self, pos: nat) -> Option<Parsed<PartView>> {
        if self.kind_at(pos) == TokenKind::Dot {
            Some(
                if self.kind_at(pos + 1) == TokenKind::OpenDelim(Delim::Brace) {
                    match self.names(pos + 2, Seq::empty()) {
                        Ok((names, next)) => Ok((PartView::Destructure(names), next)),
                        Err(e) => Err(e),
                    }
                } else {
                    match self.ident(pos + 1) {
                        Ok((name, next)) => Ok((PartView::Field(name), next)),
                        Err(_) => Err(self.unexpected(pos + 1, Expected::FieldName)),
                    }
                },
            )
        } else if self.kind_at(pos) == TokenKind::OpenDelim(Delim::Bracket) {
            Some(self.bracketed(pos + 1))
        } else {
            match self.dir_at(pos) {
                Some(dir) => Some(
                    match self.ident(pos + 1) {
                        Ok((table, next)) => Ok((PartView::Graph(dir, table), next)),
                        Err(e) => Err(e),
                    },
                ),
                None => None,
            }
        }
    }

    /// The steps of a path behind those read already, from `pos` on.
    pub open spec fn parts(self, pos: nat, read: Seq<PartView>) -> Parsed<Seq<PartView>>
        decreases self.tokens.len() - pos,
    {
        match self.part(pos) {
            None => Ok((read, pos)),
            Some(Err(e)) => Err(e),
            Some(Ok((part, next))) => if pos < next <= self.tokens.len() {
                self.parts(next, read.push(part))
            } else {
                Ok((read.push(part), next))
            },
        }
    }

    /// A path at `pos`: a name, and the steps behind it.
    pub open spec fn idiom(self, pos: nat) -> Parsed<Seq<PartView>> {
        match self.ident(pos) {
            Ok((name, next)) => self.parts(next, seq![PartView::Field(name)]),
            Err(e) => Err(e),
        }
    }

    /// Paths with commas between them, behind those read already, from `pos` on.
    pub open spec fn idioms(self, pos: nat, read: Seq<Seq<PartView>>) -> Parsed<
        Seq<Seq<PartView>>,
    >
        decreases self.tokens.len() - pos,
    {
        match self.idiom(pos) {
            Err(e) => Err(e),
            Ok((idiom, next)) => if self.kind_at(next) == TokenKind::Comma && pos < next
                < self.tokens.len() {
                self.idioms(next + 1, read.push(idiom))
            } else {
                Ok((read.push(idiom), next))
            },
        }
    }

    /// The names between braces end within the tokens, behind where they started.
    pub proof fn lemma_names_advance(self, pos: nat, read: Seq<Seq<char>>)
        ensures
            self.names(pos, read) matches Ok((_, next)) ==> pos < next <= self.tokens.len(),
        decreases self.tokens.len() - pos,
    {
        if let Ok((name, next)) = self.ident(pos) {
            if self.kind_at(next) == TokenKind::Comma && pos < next < self.tokens.len() {
                self.lemma_names_advance(next + 1, read.push(name));
            }
        }
    }

    /// A step of a path ends within the tokens, behind where it started.
    pub proof fn lemma_part_advances(self, pos: nat)
        ensures
            self.part(pos) matches Some(Ok((_, next))) ==> pos < next <= self.tokens.len(),
    {
        self.lemma_names_advance(pos + 2, Seq::empty());
    }

    /// The steps of a path end within the tokens.
    pub proof fn lemma_parts_advance(self, pos: nat, read: Seq<PartView>)
        requires
            pos <= self.tokens.len(),
        ensures
            self.parts(pos, read) matches Ok((_, next)) ==> pos <= next <= self.tokens.len(),
        decreases self.tokens.len() - pos,
    {
        self.lemma_part_advances(pos);
        if let Some(Ok((part, next))) = self.part(pos) {
            self.lemma_parts_advance(next, read.push(part));
        }
    }

    /// A path ends within the tokens, behind where it started.
    pub proof fn lemma_idiom_advances(self, pos: nat)
        ensures
            self.idiom(pos) matches Ok((_, next)) ==> pos < next <= self.tokens.len(),
    {
        if let Ok((name, next)) = self.ident(pos) {
            self.lemma_parts_advance(next, seq![PartView::Field(name)]);
        }
    }

    /// Paths end within the tokens, behind where they started.
    pub proof fn lemma_idioms_advance(self, pos: nat, read: Seq<Seq<PartView>>)
        ensures
            self.idioms(pos, read) matches Ok((_, next)) ==> pos < next <= self.tokens.len(),
        decreases self.tokens.len() - pos,
    {
        self.lemma_idiom_advances(pos);
        if let Ok((idiom, next)) = self.idiom(pos) {
            if self.kind_at(next) == TokenKind::Comma && pos < next < self.tokens.len() {
                self.lemma_idioms_advance(next + 1, read.push(idiom));
            }
        }
    }
}

impl<'a> Parser<'a> {
    /// Parses the names between braces, behind the opening brace.
    fn parse_names(&mut self) -> (result: ParseResult<Vec<Ident>>)
        requires
            old(self).wf(),
        ensures
            final(self).wf(),
            final(self).input() == old(self).input(),
            match result {
                Ok(names) => old(self).input().names(old(self).pos(), Seq::empty()) == Ok::<
                    (Seq<Seq<char>>, nat),
                    ParseError,
                >((names@.map_values(|name: Ident| name@), final(self).pos())),
                Err(e) => old(self).input().names(old(self).pos(), Seq::empty()) == Err::<
                    (Seq<Seq<char>>, nat),
                    ParseError,
                >(e),
            },
    {
        let mut names: Vec<Ident> = Vec::new();
        let ghost input = self.input();
        let ghost start = self.pos();
        proof {
            assert(names@.map_values(|name: Ident| name@) =~= Seq::<Seq<char>>::empty());
        }
        loop
            invariant
                self.wf(),
                self.input() == input,
                input == old(self).input(),
                start == old(self).pos(),
                input.names(start, Seq::empty()) == input.names(
                    self.pos(),
                    names@.map_values(|name: Ident| name@),
                ),
            decreases input.tokens.len() - self.pos(),
        {
            let ghost read = names@.map_values(|name: Ident| name@);
            let ghost pos = self.pos();
            let name = match self.parse_ident() {
                Ok(name) => name,
                Err(e) => return Err(e),
            };
            let ghost name_view = name@;
            names.push(name);
            proof {
                assert(names@.map_values(|name: Ident| name@) =~= read.push(name_view));
            }
            if self.eat(TokenKind::Comma) {
                continue ;
            }
            if self.eat(TokenKind::CloseDelim(Delim::Brace)) {
                return Ok(names);
            }
            return Err(self.unexpected(Expected::CloseBrace));
        }
    }

    /// Parses what stands between brackets, behind the opening bracket.
    fn parse_bracketed(&mut self) -> (result: ParseResult<Part>)
        requires
            old(self).wf(),
        ensures
            final(self).wf(),
            final(self).input() == old(self).input(),
            match result {
                Ok(part) => old(self).input().bracketed(old(self).pos()) == Ok::<
                    (PartView, nat),
                    ParseError,
                >((part@, final(self).pos())),
                Err(e) => old(self).input().bracketed(old(self).pos()) == Err::<
                    (PartView, nat),
                    ParseError,
                >(e),
            },
    {
        let part = match self.peek_kind() {
            TokenKind::Number => {
                let token = self.peek();
                assert(self.input().tokens[self.pos() as int] == token);
                let index = token.data_index.unwrap().index() as usize;
                match &self.lexer.numbers[index] {
                    NumberLiteral::Integer(i) => {
                        if *i >= 0 {
                            Some(Part::Index(*i as u64))
                        } else {
                            None
                        }
                    },
                    _ => None,
                }
            },
            TokenKind::Star => Some(Part::All),
            TokenKind::Dollar => Some(Part::Last),
            _ => None,
        };
        let part = match part {
            Some(part) => part,
            None => return Err(self.unexpected(Expected::Index)),
        };
        self.pop_peek();
        match self.expect(TokenKind::CloseDelim(Delim::Bracket), Expected::CloseBracket) {
            Ok(_) => Ok(part),
            Err(e) => Err(e),
        }
    }

    /// Parses the step of a path that starts at the next token, if one starts there.
    fn parse_part(&mut self) -> (result: Option<ParseResult<Part>>)
        requires
            old(self).wf(),
        ensures
            final(self).wf(),
            final(self).input() == old(self).input(),
            match result {
                None => old(self).input().part(old(self).pos()) is None && final(self).pos()
                    == old(self).pos(),
                Some(Ok(part)) => old(self).input().part(old(self).pos()) == Some(
                    Ok::<(PartView, nat), ParseError>((part@, final(self).pos())),
                ),
                Some(Err(e)) => old(self).input().part(old(self).pos()) == Some(
                    Err::<(PartView, nat), ParseError>(e),
                ),
            },
    {
        let kind = self.peek_kind();
        if kind == TokenKind::Dot {
            self.pop_peek();
            if self.peek_kind() == TokenKind::OpenDelim(Delim::Brace) {
                self.pop_peek();
                match self.parse_names() {
                    Ok(names) => Some(Ok(Part::Destructure(names))),
                    Err(e) => Some(Err(e)),
                }
            } else {
                let error = self.unexpected(Expected::FieldName);
                match self.parse_ident() {
                    Ok(name) => Some(Ok(Part::Field(name))),
                    Err(_) => Some(Err(error)),
                }
            }
        } else if kind == TokenKind::OpenDelim(Delim::Bracket) {
            self.pop_peek();
            Some(self.parse_bracketed())
        } else {
            let dir = match kind {
                TokenKind::ArrowRight => Dir::Out,
                TokenKind::ArrowLeft => Dir::In,
                TokenKind::BiArrow => Dir::Both,
                _ => return None,
            };
            self.pop_peek();
            match self.parse_ident() {
                Ok(table) => Some(Ok(Part::Graph(dir, table))),
                Err(e) => Some(Err(e)),
            }
        }
    }

    /// Parses the steps of a path behind its first name.
    fn parse_parts(&mut self, first: Ident) -> (result: ParseResult<Idiom>)
        requires
            old(self).wf(),
        ensures
            final(self).wf(),
            final(self).input() == old(self).input(),
            match result {
                Ok(idiom) => old(self).input().parts(
                    old(self).pos(),
                    seq![PartView::Field(first@)],
                ) == Ok::<(Seq<PartView>, nat), ParseError>((idiom@, final(self).pos())),
                Err(e) => old(self).input().parts(
                    old(self).pos(),
                    seq![PartView::Field(first@)],
                ) == Err::<(Seq<PartView>, nat), ParseError>(e),
            },
    {
        let ghost input = self.input();
        let ghost start = self.pos();
        let ghost first_view = first@;
        let mut parts: Vec<Part> = Vec::new();
        parts.push(Part::Field(first));
        proof {
            assert(parts@.map_values(|part: Part| part@) =~= seq![PartView::Field(first_view)]);
        }
        loop
            invariant
                self.wf(),
                self.input() == input,
                input == old(self).input(),
                start == old(self).pos(),
                first_view == first@,
                input.parts(start, seq![PartView::Field(first_view)]) == input.parts(
                    self.pos(),
                    parts@.map_values(|part: Part| part@),
                ),
            decreases input.tokens.len() - self.pos(),
        {
            let ghost read = parts@.map_values(|part: Part| part@);
            let ghost pos = self.pos();
            proof {
                input.lemma_part_advances(self.pos());
            }
            match self.parse_part() {
                None => {
                    assert(input.part(pos) is None);
                    assert(input.parts(pos, read) == Ok::<(Seq<PartView>, nat), ParseError>(
                        (read, pos),
                    ));
                    let idiom = Idiom(parts);
                    assert(idiom@ == read);
                    return Ok(idiom);
                },
                Some(Err(e)) => {
                    assert(input.parts(pos, read) == Err::<(Seq<PartView>, nat), ParseError>(e));
                    return Err(e);
                },
                Some(Ok(part)) => {
                    let ghost part_view = part@;
                    parts.push(part);
                    proof {
                        assert(parts@.map_values(|part: Part| part@) =~= read.push(part_view));
                    }
                },
            }
        }
    }

    /// Parses a path: a name, and the steps behind it.
    pub fn parse_plain_idiom(&mut self) -> (result: ParseResult<Idiom>)
        requires
            old(self).wf(),
        ensures
            final(self).wf(),
            final(self).input() == old(self).input(),
            match result {
                Ok(idiom) => old(self).input().idiom(old(self).pos()) == Ok::<
                    (Seq<PartView>, nat),
                    ParseError,
                >((idiom@, final(self).pos())) && final(self).pos() > old(self).pos(),
                Err(e) => old(self).input().idiom(old(self).pos()) == Err::<
                    (Seq<PartView>, nat),
                    ParseError,
                >(e),
            },
    {
        proof {
            self.input().lemma_idiom_advances(self.pos());
        }
        let first = match self.parse_ident() {
            Ok(first) => first,
            Err(e) => return Err(e),
        };
        self.parse_parts(first)
    }

    /// Parses a path by which records are grouped or fetched.
    pub fn parse_basic_idiom(&mut self) -> (result: ParseResult<Idiom>)
        requires
            old(self).wf(),
        ensures
            final(self).wf(),
            final(self).input() == old(self).input(),
            match result {
                Ok(idiom) => old(self).input().idiom(old(self).pos()) == Ok::<
                    (Seq<PartView>, nat),
                    ParseError,
                >((idiom@, final(self).pos())) && final(self).pos() > old(self).pos(),
                Err(e) => old(self).input().idiom(old(self).pos()) == Err::<
                    (Seq<PartView>, nat),
                    ParseError,
                >(e),
            },
    {
        self.parse_plain_idiom()
    }

    /// Parses paths with commas between them.
    pub fn parse_idiom_list(&mut self) -> (result: ParseResult<Vec<Idiom>>)
        requires
            old(self).wf(),
        ensures
            final(self).wf(),
            final(self).input() == old(self).input(),
            match result {
                Ok(idioms) => old(self).input().idioms(old(self).pos(), Seq::empty()) == Ok::<
                    (Seq<Seq<PartView>>, nat),
                    ParseError,
                >((idioms@.map_values(|idiom: Idiom| idiom@), final(self).pos())) && final(self).pos() > old(self).pos(),
                Err(e) => old(self).input().idioms(old(self).pos(), Seq::empty()) == Err::<
                    (Seq<Seq<PartView>>, nat),
                    ParseError,
                >(e),
            },
    {
        let ghost input = self.input();
        let ghost start = self.pos();
        let mut idioms: Vec<Idiom> = Vec::new();
        proof {
            input.lemma_idioms_advance(start, Seq::empty());
            assert(idioms@.map_values(|idiom: Idiom| idiom@) =~= Seq::<Seq<PartView>>::empty());
        }
        loop
            invariant
                self.wf(),
                self.input() == input,
                input == old(self).input(),
                start == old(self).pos(),
                input.idioms(start, Seq::empty()) == input.idioms(
                    self.pos(),
                    idioms@.map_values(|idiom: Idiom| idiom@),
                ),
            decreases input.tokens.len() - self.pos(),
        {
            let ghost read = idioms@.map_values(|idiom: Idiom| idiom@);
            proof {
                input.lemma_idiom_advances(self.pos());
            }
            let idiom = match self.parse_plain_idiom() {
                Ok(idiom) => idiom,
                Err(e) => return Err(e),
            };
            let ghost idiom_view = idiom@;
            idioms.push(idiom);
            proof {
                assert(idioms@.map_values(|idiom: Idiom| idiom@) =~= read.push(idiom_view));
            }
            if !self.eat(TokenKind::Comma) {
                proof {
                    input.lemma_idioms_advance(start, Seq::empty());
                }
                return Ok(idioms);
            }
        }
    }
}

} // verus!

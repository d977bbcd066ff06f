//! Tokens that start with an ASCII byte: white space, symbols, and the way to the lexers
//! of identifiers, numbers and quoted values.

use vstd::prelude::*;
use crate::lexer::char::char_lexed;
use crate::lexer::char::surrounded_lexed;
use crate::lexer::datetime::datetime_lexed;
use crate::lexer::duration::duration_lexed;
use crate::lexer::duration::scan_unit;
use crate::lexer::duration::unit_at;
use crate::lexer::ident::ascii_text;
use crate::lexer::ident::ident_lexed;
use crate::lexer::ident::ident_run;
use crate::lexer::ident::ident_start;
use crate::lexer::ident::is_ident_start;
use crate::lexer::number::digit;
use crate::lexer::number::digit_run;
use crate::lexer::number::is_digit;
use crate::lexer::number::number_lexed;
use crate::lexer::number::scan_digits;
use crate::lexer::number::scan_suffix;
use crate::lexer::number::suffix_end;
use crate::lexer::strand::strand_lexed;
use crate::lexer::uuid::uuid_lexed;
use crate::lexer::Error;
use crate::lexer::TABLE_LIMIT;
use crate::token::DataIndex;
use crate::lexer::Lexer;
use crate::token::Delim;
use crate::token::Operator;
use crate::token::Token;
use crate::token::TokenKind;

verus! {

/// Whether the byte is white space: a blank, a tab, a line feed, a vertical tab, a form
/// feed or a carriage return.
pub open spec fn is_white(b: u8) -> bool {
    b == ' ' as u8 || (0x09 <= b <= 0x0d)
}

/// How many bytes at the front are white space.
pub open spec fn white_run(bytes: Seq<u8>) -> nat
    decreases bytes.len(),
{
    if bytes.len() > 0 && is_white(bytes[0]) {
        1 + white_run(bytes.skip(1))
    } else {
        0
    }
}

/// Whether `bytes` start with `b`.
pub open spec fn starts(bytes: Seq<u8>, b: char) -> bool {
    bytes.len() > 0 && bytes[0] == b as u8
}

/// Whether `bytes` start with `b` and then `c`.
pub open spec fn starts_two(bytes: Seq<u8>, b: char, c: char) -> bool {
    bytes.len() > 1 && bytes[0] == b as u8 && bytes[1] == c as u8
}

/// The symbol that starts with the byte `first`, followed by `rest`: its kind, and how
/// many bytes of `rest` belong to it. The longest symbol is taken.
pub open spec fn symbol(first: u8, rest: Seq<u8>) -> Option<(TokenKind, int)> {
    if first == '(' as u8 {
        Some((TokenKind::OpenDelim(Delim::Paren), 0))
    } else if first == ')' as u8 {
        Some((TokenKind::CloseDelim(Delim::Paren), 0))
    } else if first == '[' as u8 {
        Some((TokenKind::OpenDelim(Delim::Bracket), 0))
    } else if first == ']' as u8 {
        Some((TokenKind::CloseDelim(Delim::Bracket), 0))
    } else if first == '{' as u8 {
        Some((TokenKind::OpenDelim(Delim::Brace), 0))
    } else if first == '}' as u8 {
        Some((TokenKind::CloseDelim(Delim::Brace), 0))
    } else if first == ';' as u8 {
        Some((TokenKind::SemiColon, 0))
    } else if first == ',' as u8 {
        Some((TokenKind::Comma, 0))
    } else if first == '@' as u8 {
        Some((TokenKind::At, 0))
    } else if first == '/' as u8 {
        Some((TokenKind::ForwardSlash, 0))
    } else if first == '%' as u8 {
        Some((TokenKind::Percent, 0))
    } else if first == '~' as u8 {
        Some((TokenKind::Operator(Operator::Like), 0))
    } else if first == '.' as u8 {
        if starts_two(rest, '.', '.') {
            Some((TokenKind::DotDotDot, 2))
        } else if starts(rest, '.') {
            Some((TokenKind::DotDot, 1))
        } else {
            Some((TokenKind::Dot, 0))
        }
    } else if first == ':' as u8 {
        if starts(rest, ':') {
            Some((TokenKind::PathSeperator, 1))
        } else {
            Some((TokenKind::Colon, 0))
        }
    } else if first == '*' as u8 {
        if starts(rest, '*') {
            Some((TokenKind::Operator(Operator::Power), 1))
        } else if starts(rest, '=') {
            Some((TokenKind::Operator(Operator::AllEqual), 1))
        } else if starts(rest, '~') {
            Some((TokenKind::Operator(Operator::AllLike), 1))
        } else {
            Some((TokenKind::Star, 0))
        }
    } else if first == '=' as u8 {
        if starts(rest, '=') {
            Some((TokenKind::Operator(Operator::Exact), 1))
        } else {
            Some((TokenKind::Operator(Operator::Equal), 0))
        }
    } else if first == '!' as u8 {
        if starts(rest, '=') {
            Some((TokenKind::Operator(Operator::NotEqual), 1))
        } else if starts(rest, '~') {
            Some((TokenKind::Operator(Operator::NotLike), 1))
        } else {
            Some((TokenKind::Operator(Operator::Not), 0))
        }
    } else if first == '?' as u8 {
        if starts(rest, '?') {
            Some((TokenKind::Operator(Operator::Tco), 1))
        } else if starts(rest, ':') {
            Some((TokenKind::Operator(Operator::Nco), 1))
        } else if starts(rest, '=') {
            Some((TokenKind::Operator(Operator::AnyEqual), 1))
        } else if starts(rest, '~') {
            Some((TokenKind::Operator(Operator::AnyLike), 1))
        } else {
            Some((TokenKind::Question, 0))
        }
    } else if first == '+' as u8 {
        if starts(rest, '=') {
            Some((TokenKind::Operator(Operator::Inc), 1))
        } else if starts_two(rest, '?', '=') {
            Some((TokenKind::Operator(Operator::Ext), 2))
        } else {
            Some((TokenKind::Operator(Operator::Add), 0))
        }
    } else if first == '-' as u8 {
        if starts(rest, '>') {
            Some((TokenKind::ArrowRight, 1))
        } else if starts(rest, '=') {
            Some((TokenKind::Operator(Operator::Dec), 1))
        } else {
            Some((TokenKind::Operator(Operator::Subtract), 0))
        }
    } else if first == '<' as u8 {
        if starts(rest, '=') {
            Some((TokenKind::Operator(Operator::LessEqual), 1))
        } else if starts_two(rest, '-', '>') {
            Some((TokenKind::BiArrow, 2))
        } else if starts(rest, '-') {
            Some((TokenKind::ArrowLeft, 1))
        } else {
            Some((TokenKind::LeftChefron, 0))
        }
    } else if first == '>' as u8 {
        if starts(rest, '=') {
            Some((TokenKind::Operator(Operator::GreaterEqual), 1))
        } else {
            Some((TokenKind::RightChefron, 0))
        }
    } else if first == '|' as u8 {
        if starts(rest, '|') {
            Some((TokenKind::Operator(Operator::Or), 1))
        } else {
            Some((TokenKind::Vert, 0))
        }
    } else if first == '&' as u8 {
        if starts(rest, '&') {
            Some((TokenKind::Operator(Operator::And), 1))
        } else {
            None
        }
    } else {
        None
    }
}

/// Whether the byte is a quote that strings stand between.
pub open spec fn is_quote(b: u8) -> bool {
    b == '"' as u8 || b == '\'' as u8
}

/// Whether the digits that start at `from` start a duration: a unit follows them, and not
/// the suffix `dec`.
pub open spec fn duration_starts(src: Seq<u8>, from: int) -> bool {
    let digits_end = from + digit_run(src.skip(from));
    unit_at(src, digits_end) is Some && suffix_end(src, digits_end) != digits_end + 3
}

/// What holds where the lexer lexed what starts at `from` with a dollar sign: a parameter,
/// where an identifier follows the sign, whose text the table of strings then holds at its
/// end; else the sign alone.
pub open spec fn param_lexed(before: &Lexer, after: &Lexer, token: Token, from: int) -> bool {
    let src = before.source();
    let run = ident_run(src.skip(from + 1));
    &&& token.span.end() == from + 1 + run
    &&& if run == 0 {
        token.kind is Dollar && after.error == before.error && after.strings == before.strings
    } else if before.strings@.len() >= TABLE_LIMIT {
        token.kind is Invalid && after.error == Some(Error::TooManyValues) && after.strings
            == before.strings
    } else {
        &&& token.kind is Parameter
        &&& after.error == before.error
        &&& after.strings@.len() == before.strings@.len() + 1
        &&& after.strings@.last()@ == ascii_text(src.subrange(from + 1, from + 1 + run))
        &&& token.data_index == Some(DataIndex::from_index_spec(before.strings@.len() as u32))
    }
}

/// What holds where the lexer lexed the symbol that starts at `from`, or found none
/// there.
pub open spec fn symbol_lexed(before: &Lexer, after: &Lexer, token: Token, from: int) -> bool {
    let src = before.source();
    &&& after.strings == before.strings
    &&& match symbol(src[from], src.skip(from + 1)) {
        Some((kind, more)) => token.kind == kind && token.span.end() == from + 1 + more
            && after.error == before.error,
        None => token.kind is Invalid && token.span.end() == from + 1 && after.error == Some(
            Error::UnexpectedCharacter(src[from] as char),
        ),
    }
}

/// What holds where the lexer lexed the token that starts at `from` with an ASCII byte.
/// A quote starts a string, a backtick an identifier between backticks, a digit a duration
/// or a number, a sign before a digit a number, the letters `d` and `u` before a quote a
/// date-time and a uuid, a letter or an underscore an identifier, and a dollar sign a
/// parameter. Anything else is a symbol, or starts no token.
pub open spec fn ascii_lexed(before: &Lexer, after: &Lexer, token: Token, from: int) -> bool {
    let src = before.source();
    let first = src[from];
    let rest = src.skip(from + 1);
    if is_quote(first) {
        strand_lexed(before, after, token, from, first)
    } else if first == '`' as u8 {
        surrounded_lexed(before, after, token, from + 1, '`')
    } else if is_digit(first) {
        if duration_starts(src, from) {
            duration_lexed(before, after, token, from)
        } else {
            number_lexed(before, after, token, from)
        }
    } else if (first == '+' as u8 || first == '-' as u8) && rest.len() > 0 && is_digit(rest[0]) {
        number_lexed(before, after, token, from)
    } else if first == 'd' as u8 && rest.len() > 0 && is_quote(rest[0]) {
        datetime_lexed(before, after, token, from, rest[0])
    } else if first == 'u' as u8 && rest.len() > 0 && is_quote(rest[0]) {
        uuid_lexed(before, after, token, from, rest[0])
    } else if is_ident_start(first) {
        ident_lexed(before, after, token, from)
    } else if first == '$' as u8 {
        param_lexed(before, after, token, from)
    } else {
        symbol_lexed(before, after, token, from)
    }
}

/// What holds of the token that the lexer lexed next, and of the lexer behind it. White
/// space before the token is passed over. At the end of the source the token is the end
/// of the source, and the lexer stays as it is.
pub open spec fn token_lexed(before: &Lexer, after: &Lexer, token: Token) -> bool {
    let src = before.source();
    let from = before.reader.position() + white_run(before.reader.rest());
    if from >= src.len() {
        &&& token.kind is Eof
        &&& token.span.len == 1
        &&& token.span.offset == if from == 0 {
            0
        } else {
            from - 1
        }
        &&& after.error == before.error
        &&& after.strings == before.strings
        &&& after.reader.position() == src.len()
    } else if src[from] >= 0x80 {
        char_lexed(before, after, token, from)
    } else {
        ascii_lexed(before, after, token, from)
    }
}

/// What holds of one step of the lexer, from the lexer before it to the lexer behind it:
/// the token is the next token of the source, it spans the bytes that were read for it,
/// and the tables hold what they held and what the token stands for.
pub open spec fn stepped<'a>(before: &Lexer<'a>, after: &Lexer<'a>, token: Token) -> bool {
    &&& after.follows(before)
    &&& after.holds(token)
    &&& tables_kept(before, after, token)
    &&& token_lexed(before, after, token)
    &&& !(token.kind is Eof) ==> after.spanned(
        token,
        before.reader.position() + white_run(before.reader.rest()),
    )
}

/// Whether the lexer stands at the start of the source and has lexed nothing yet.
pub open spec fn fresh(lexer: &Lexer) -> bool {
    &&& lexer.reader.position() == 0
    &&& lexer.last_offset == 0
    &&& lexer.strings@.len() == 0
    &&& lexer.numbers@.len() == 0
    &&& lexer.durations@.len() == 0
    &&& lexer.datetime@.len() == 0
    &&& lexer.uuid@.len() == 0
    &&& lexer.error is None
}

/// Whether the lexer came by `states` to `tokens`: it started afresh, each token is the
/// next token behind the one before it, and the tokens stop with the first that is the
/// end of the source or invalid.
pub open spec fn lexing<'a>(states: Seq<Lexer<'a>>, tokens: Seq<Token>) -> bool {
    &&& tokens.len() > 0
    &&& states.len() == tokens.len() + 1
    &&& fresh(&states[0])
    &&& forall|i: int|
        0 <= i < tokens.len() ==> stepped(&states[i], &states[i + 1], #[trigger] tokens[i])
    &&& forall|i: int|
        0 <= i < tokens.len() - 1 ==> !((#[trigger] tokens[i]).kind is Eof) && !(tokens[i].kind
            is Invalid)
    &&& (tokens.last().kind is Eof || tokens.last().kind is Invalid)
}

/// Each table holds what it held, but the one that takes what the token stands for.
pub open spec fn tables_kept(before: &Lexer, after: &Lexer, token: Token) -> bool {
    &&& token.kind is Strand || token.kind is Identifier || token.kind is Parameter
        || after.strings == before.strings
    &&& token.kind is Number || after.numbers == before.numbers
    &&& token.kind is Duration || after.durations == before.durations
    &&& token.kind is DateTime || after.datetime == before.datetime
    &&& token.kind is Uuid || after.uuid == before.uuid
}

/// Whether the byte is white space.
pub fn white(b: u8) -> (is: bool)
    ensures
        is == is_white(b),
{
    b == ' ' as u8 || (0x09 <= b && b <= 0x0d)
}

/// A symbol holds nothing in a table.
pub proof fn lemma_symbol_holds_nothing(first: u8, rest: Seq<u8>)
    ensures
        symbol(first, rest) matches Some((kind, _)) ==> !(kind is Strand || kind is Identifier
            || kind is Parameter || kind is Number || kind is Duration || kind is DateTime
            || kind is Uuid),
{
}

impl<'a> Lexer<'a> {
    /// Whether the next two bytes are `b` and `c`; if so, both are read.
    fn eat_two(&mut self, b: char, c: char) -> (eaten: bool)
        requires
            old(self).wf(),
            b as u32 <= 0x7f,
            c as u32 <= 0x7f,
        ensures
            final(self).wf(),
            final(self).follows(old(self)),
            final(self).last_offset == old(self).last_offset,
            final(self).error == old(self).error,
            final(self).strings == old(self).strings,
            final(self).numbers == old(self).numbers,
            final(self).durations == old(self).durations,
            final(self).datetime == old(self).datetime,
            final(self).uuid == old(self).uuid,
            eaten == starts_two(old(self).reader.rest(), b, c),
            final(self).reader.position() == old(self).reader.position() + if eaten {
                2int
            } else {
                0int
            },
    {
        let at = self.reader.offset();
        proof {
            self.reader.lemma_bounds();
        }
        if !self.eat(b as u8) {
            return false;
        }
        proof {
            self.reader.lemma_bounds();
            assert(self.reader.rest().len() > 0 ==> self.reader.rest()[0] == old(self).reader.rest()[1]);
        }
        if self.eat(c as u8) {
            true
        } else {
            self.reader.backup(at);
            false
        }
    }

    /// Whether the next byte is `b`; if so, it is read.
    fn eat_char(&mut self, b: char) -> (eaten: bool)
        requires
            old(self).wf(),
            b as u32 <= 0x7f,
        ensures
            final(self).wf(),
            final(self).follows(old(self)),
            final(self).last_offset == old(self).last_offset,
            final(self).error == old(self).error,
            final(self).strings == old(self).strings,
            final(self).numbers == old(self).numbers,
            final(self).durations == old(self).durations,
            final(self).datetime == old(self).datetime,
            final(self).uuid == old(self).uuid,
            eaten == starts(old(self).reader.rest(), b),
            final(self).reader.position() == old(self).reader.position() + if eaten {
                1int
            } else {
                0int
            },
    {
        self.eat(b as u8)
    }

    /// Reads the bytes of the symbol that starts with `first`, which was read last, and
    /// returns its kind.
    pub fn read_symbol(&mut self, first: u8) -> (kind: Option<TokenKind>)
        requires
            old(self).wf(),
        ensures
            final(self).wf(),
            final(self).follows(old(self)),
            final(self).last_offset == old(self).last_offset,
            final(self).error == old(self).error,
            final(self).strings == old(self).strings,
            final(self).numbers == old(self).numbers,
            final(self).durations == old(self).durations,
            final(self).datetime == old(self).datetime,
            final(self).uuid == old(self).uuid,
            match kind {
                Some(k) => symbol(first, old(self).reader.rest()) matches Some((spec_kind, more))
                    && k == spec_kind && final(self).reader.position() == old(self).reader.position() + more,
                None => symbol(first, old(self).reader.rest()) is None && final(self).reader.position() == old(self).reader.position(),
            },
    {
        if first == '(' as u8 {
            Some(TokenKind::OpenDelim(Delim::Paren))
        } else if first == ')' as u8 {
            Some(TokenKind::CloseDelim(Delim::Paren))
        } else if first == '[' as u8 {
            Some(TokenKind::OpenDelim(Delim::Bracket))
        } else if first == ']' as u8 {
            Some(TokenKind::CloseDelim(Delim::Bracket))
        } else if first == '{' as u8 {
            Some(TokenKind::OpenDelim(Delim::Brace))
        } else if first == '}' as u8 {
            Some(TokenKind::CloseDelim(Delim::Brace))
        } else if first == ';' as u8 {
            Some(TokenKind::SemiColon)
        } else if first == ',' as u8 {
            Some(TokenKind::Comma)
        } else if first == '@' as u8 {
            Some(TokenKind::At)
        } else if first == '/' as u8 {
            Some(TokenKind::ForwardSlash)
        } else if first == '%' as u8 {
            Some(TokenKind::Percent)
        } else if first == '~' as u8 {
            Some(TokenKind::Operator(Operator::Like))
        } else if first == '.' as u8 {
            if self.eat_two('.', '.') {
                Some(TokenKind::DotDotDot)
            } else if self.eat_char('.') {
                Some(TokenKind::DotDot)
            } else {
                Some(TokenKind::Dot)
            }
        } else if first == ':' as u8 {
            if self.eat_char(':') {
                Some(TokenKind::PathSeperator)
            } else {
                Some(TokenKind::Colon)
            }
        } else if first == '*' as u8 {
            if self.eat_char('*') {
                Some(TokenKind::Operator(Operator::Power))
            } else if self.eat_char('=') {
                Some(TokenKind::Operator(Operator::AllEqual))
            } else if self.eat_char('~') {
                Some(TokenKind::Operator(Operator::AllLike))
            } else {
                Some(TokenKind::Star)
            }
        } else if first == '=' as u8 {
            if self.eat_char('=') {
                Some(TokenKind::Operator(Operator::Exact))
            } else {
                Some(TokenKind::Operator(Operator::Equal))
            }
        } else if first == '!' as u8 {
            if self.eat_char('=') {
                Some(TokenKind::Operator(Operator::NotEqual))
            } else if self.eat_char('~') {
                Some(TokenKind::Operator(Operator::NotLike))
            } else {
                Some(TokenKind::Operator(Operator::Not))
            }
        } else if first == '?' as u8 {
            if self.eat_char('?') {
                Some(TokenKind::Operator(Operator::Tco))
            } else if self.eat_char(':') {
                Some(TokenKind::Operator(Operator::Nco))
            } else if self.eat_char('=') {
                Some(TokenKind::Operator(Operator::AnyEqual))
            } else if self.eat_char('~') {
                Some(TokenKind::Operator(Operator::AnyLike))
            } else {
                Some(TokenKind::Question)
            }
        } else if first == '+' as u8 {
            if self.eat_char('=') {
                Some(TokenKind::Operator(Operator::Inc))
            } else if self.eat_two('?', '=') {
                Some(TokenKind::Operator(Operator::Ext))
            } else {
                Some(TokenKind::Operator(Operator::Add))
            }
        } else if first == '-' as u8 {
            if self.eat_char('>') {
                Some(TokenKind::ArrowRight)
            } else if self.eat_char('=') {
                Some(TokenKind::Operator(Operator::Dec))
            } else {
                Some(TokenKind::Operator(Operator::Subtract))
            }
        } else if first == '<' as u8 {
            if self.eat_char('=') {
                Some(TokenKind::Operator(Operator::LessEqual))
            } else if self.eat_two('-', '>') {
                Some(TokenKind::BiArrow)
            } else if self.eat_char('-') {
                Some(TokenKind::ArrowLeft)
            } else {
                Some(TokenKind::LeftChefron)
            }
        } else if first == '>' as u8 {
            if self.eat_char('=') {
                Some(TokenKind::Operator(Operator::GreaterEqual))
            } else {
                Some(TokenKind::RightChefron)
            }
        } else if first == '|' as u8 {
            if self.eat_char('|') {
                Some(TokenKind::Operator(Operator::Or))
            } else {
                Some(TokenKind::Vert)
            }
        } else if first == '&' as u8 {
            if self.eat_char('&') {
                Some(TokenKind::Operator(Operator::And))
            } else {
                None
            }
        } else {
            None
        }
    }

    /// Lexes the parameter or the dollar sign whose dollar sign was read last.
    pub fn lex_param(&mut self) -> (token: Token)
        requires
            old(self).wf(),
            old(self).reader.position() == old(self).last_offset + 1,
        ensures
            final(self).wf(),
            final(self).follows(old(self)),
            final(self).holds(token),
            final(self).spanned(token, old(self).last_offset as int),
            final(self).numbers == old(self).numbers,
            final(self).durations == old(self).durations,
            final(self).datetime == old(self).datetime,
            final(self).uuid == old(self).uuid,
            param_lexed(old(self), final(self), token, old(self).last_offset as int),
            final(self).reader.position() > old(self).last_offset,
    {
        let ghost rest = self.reader.rest();
        let mut text = String::new();
        let mut upper = String::new();
        let from = self.reader.offset();
        proof {
            self.reader.lemma_bounds();
            crate::lexer::ident::lemma_ident_run_bound(rest);
        }
        self.read_ident_run(&mut text, &mut upper);
        proof {
            assert(text@ =~= ascii_text(rest.take(ident_run(rest) as int)));
            assert(rest.take(ident_run(rest) as int) =~= self.source().subrange(
                from as int,
                from + ident_run(rest),
            ));
        }
        if self.reader.offset() == from {
            self.finish_token(TokenKind::Dollar, None)
        } else {
            self.finish_string_token(TokenKind::Parameter, text)
        }
    }

    /// Whether the digits from `from` start a duration.
    fn starts_duration(&self, from: usize) -> (starts: bool)
        requires
            self.wf(),
            from <= self.source().len(),
        ensures
            starts == duration_starts(self.source(), from as int),
    {
        let bytes = self.reader.full();
        let digits_end = scan_digits(bytes, from);
        scan_unit(bytes, digits_end).is_some() && scan_suffix(bytes, digits_end) - digits_end != 3
    }

    /// Lexes the token whose first byte, `byte`, is an ASCII byte and was read last.
    pub fn lex_ascii(&mut self, byte: u8) -> (token: Token)
        requires
            old(self).wf(),
            old(self).reader.position() == old(self).last_offset + 1,
            old(self).source()[old(self).last_offset as int] == byte,
            byte < 0x80,
        ensures
            final(self).wf(),
            final(self).follows(old(self)),
            final(self).holds(token),
            final(self).spanned(token, old(self).last_offset as int),
            tables_kept(old(self), final(self), token),
            ascii_lexed(old(self), final(self), token, old(self).last_offset as int),
            final(self).reader.position() > old(self).last_offset,
    {
        proof {
            self.reader.lemma_bounds();
        }
        let ghost src = self.source();
        let ghost from = self.last_offset as int;
        let ghost rest = src.skip(from + 1);
        assert(rest == self.reader.rest());
        let next = self.reader.peek();
        if byte == '"' as u8 || byte == '\'' as u8 {
            self.lex_strand(byte)
        } else if byte == '`' as u8 {
            self.lex_surrounded_ident('`')
        } else if digit(byte) {
            if self.starts_duration(self.last_offset as usize) {
                self.lex_duration()
            } else {
                self.lex_number()
            }
        } else if (byte == '+' as u8 || byte == '-' as u8) && next.is_some() && digit(
            next.unwrap(),
        ) {
            self.lex_number()
        } else if byte == 'd' as u8 && (next == Some('"' as u8) || next == Some('\'' as u8)) {
            self.reader.next();
            self.lex_datetime(next.unwrap())
        } else if byte == 'u' as u8 && (next == Some('"' as u8) || next == Some('\'' as u8)) {
            self.reader.next();
            self.lex_uuid(next.unwrap())
        } else if ident_start(byte) {
            self.lex_ident(byte)
        } else if byte == '$' as u8 {
            self.lex_param()
        } else {
            match self.read_symbol(byte) {
                Some(kind) => {
                    proof {
                        lemma_symbol_holds_nothing(byte, rest);
                    }
                    self.finish_token(kind, None)
                },
                None => self.invalid_token(Error::UnexpectedCharacter(byte as char)),
            }
        }
    }

    /// Returns the next token, driving the lexer forward.
    ///
    /// If the lexer is at the end the source it will always return the Eof token.
    pub fn next_token(&mut self) -> (token: Token)
        requires
            old(self).wf(),
        ensures
            final(self).wf(),
            final(self).follows(old(self)),
            final(self).holds(token),
            !(token.kind is Eof) ==> final(self).spanned(
                token,
                old(self).reader.position() + white_run(old(self).reader.rest()),
            ),
            tables_kept(old(self), final(self), token),
            token_lexed(old(self), final(self), token),
            !(token.kind is Eof) ==> final(self).reader.position() > old(self).reader.position(),
            final(self).reader.position() >= old(self).reader.position(),
    {
        self.eat_whitespace();
        self.skip_offset();
        proof {
            self.reader.lemma_bounds();
        }
        let byte = match self.reader.next() {
            Some(byte) => byte,
            None => return self.eof_token(),
        };
        if byte < 0x80 {
            self.lex_ascii(byte)
        } else {
            self.lex_char(byte)
        }
    }

    /// The next token, or nothing at the end of the source.
    pub fn next(&mut self) -> (token: Option<Token>)
        requires
            old(self).wf(),
        ensures
            final(self).wf(),
            final(self).follows(old(self)),
            match token {
                Some(token) => !(token.kind is Eof) && final(self).holds(token) && token_lexed(
                    old(self),
                    final(self),
                    token,
                ),
                None => exists|eof: Token| eof.kind is Eof && token_lexed(
                    old(self),
                    final(self),
                    eof,
                ),
            },
    {
        let token = self.next_token();
        if token.is_eof() {
            return None;
        }
        Some(token)
    }

    /// Reads the white space at the front.
    pub fn eat_whitespace(&mut self)
        requires
            old(self).wf(),
        ensures
            final(self).wf(),
            final(self).follows(old(self)),
            final(self).last_offset == old(self).last_offset,
            final(self).error == old(self).error,
            final(self).strings == old(self).strings,
            final(self).numbers == old(self).numbers,
            final(self).durations == old(self).durations,
            final(self).datetime == old(self).datetime,
            final(self).uuid == old(self).uuid,
            final(self).reader.position() == old(self).reader.position() + white_run(
                old(self).reader.rest(),
            ),
    {
        let ghost rest = self.reader.rest();
        let ghost from = self.reader.position();
        let ghost mut n: int = 0;
        proof {
            self.reader.lemma_bounds();
            assert(rest.skip(0) =~= rest);
        }
        loop
            invariant
                self.wf(),
                self.follows(old(self)),
                self.source() == old(self).source(),
                self.last_offset == old(self).last_offset,
                self.error == old(self).error,
                self.strings == old(self).strings,
                self.numbers == old(self).numbers,
                self.durations == old(self).durations,
                self.datetime == old(self).datetime,
                self.uuid == old(self).uuid,
                rest == self.source().skip(from),
                rest == old(self).reader.rest(),
                0 <= from <= self.source().len(),
                0 <= n <= rest.len(),
                self.reader.position() == from + n,
                white_run(rest) == n + white_run(rest.skip(n)),
            ensures
                white_run(rest.skip(n)) == 0,
            decreases rest.len() - n,
        {
            proof {
                self.reader.lemma_bounds();
            }
            let byte = match self.reader.peek() {
                Some(b) => b,
                None => {
                    break ;
                },
            };
            assert(rest.skip(n)[0] == byte);
            if !white(byte) {
                break ;
            }
            self.reader.next();
            proof {
                assert(rest.skip(n).skip(1) =~= rest.skip(n + 1));
                n = n + 1;
            }
        }
    }
}

} // verus!

//! Identifiers, and the reserved words among them.

use vstd::prelude::*;
use crate::lexer::Error;
use crate::lexer::Lexer;
use crate::lexer::TABLE_LIMIT;
use crate::strings::push_char;
use crate::token::Algorithm;
use crate::token::DataIndex;
use crate::token::DistanceKind;
use crate::token::GeometryName;
use crate::token::Keyword;
use crate::token::Language;
use crate::token::Token;
use crate::token::TokenKind;

verus! {

/// Whether an identifier may start with this byte: a letter or an underscore.
pub open spec fn is_ident_start(b: u8) -> bool {
    (0x61 <= b <= 0x7a) || (0x41 <= b <= 0x5a) || b == 0x5f
}

/// Whether an identifier may go on with this byte: a letter, a digit or an underscore.
pub open spec fn is_ident_byte(b: u8) -> bool {
    is_ident_start(b) || (0x30 <= b <= 0x39)
}

/// How many bytes at the front may go on an identifier.
pub open spec fn ident_run(bytes: Seq<u8>) -> nat
    decreases bytes.len(),
{
    if bytes.len() > 0 && is_ident_byte(bytes[0]) {
        1 + ident_run(bytes.skip(1))
    } else {
        0
    }
}

/// The characters that ASCII bytes stand for.
pub open spec fn ascii_text(bytes: Seq<u8>) -> Seq<char> {
    Seq::new(bytes.len(), |i: int| bytes[i] as char)
}

/// The byte in upper case, where it is a lower-case letter.
pub open spec fn upper_byte(b: u8) -> u8 {
    if 0x61 <= b <= 0x7a {
        (b - 32) as u8
    } else {
        b
    }
}

/// The characters that ASCII bytes stand for, letters in upper case.
pub open spec fn upper_text(bytes: Seq<u8>) -> Seq<char> {
    Seq::new(bytes.len(), |i: int| upper_byte(bytes[i]) as char)
}

/// The kind of token that an identifier is: the reserved word, distance, geometry,
/// algorithm or language that it spells, in that order and whatever the case of its
/// letters, or a plain identifier.
pub open spec fn classified(upper: Seq<char>, kind: TokenKind) -> bool {
    match kind {
        TokenKind::Keyword(k) => k.text() == upper,
        TokenKind::Distance(d) => d.upper_text() == upper && forall|k: Keyword|
            k.text() != upper,
        TokenKind::Geometry(g) => g.upper_text() == upper && (forall|k: Keyword|
            k.text() != upper) && (forall|d: DistanceKind| d.upper_text() != upper),
        TokenKind::Algorithm(a) => a.text() == upper && (forall|k: Keyword| k.text() != upper)
            && (forall|d: DistanceKind| d.upper_text() != upper) && (forall|g: GeometryName|
            g.upper_text() != upper),
        TokenKind::Language(l) => l.text() == upper && (forall|k: Keyword| k.text() != upper)
            && (forall|d: DistanceKind| d.upper_text() != upper) && (forall|g: GeometryName|
            g.upper_text() != upper) && (forall|a: Algorithm| a.text() != upper),
        TokenKind::Identifier => (forall|k: Keyword| k.text() != upper) && (forall|
            d: DistanceKind,
        |
            d.upper_text() != upper) && (forall|g: GeometryName| g.upper_text() != upper) && (
        forall|a: Algorithm| a.text() != upper) && (forall|l: Language| l.text() != upper),
        _ => false,
    }
}

/// A run of identifier bytes stays within the bytes.
pub proof fn lemma_ident_run_bound(bytes: Seq<u8>)
    ensures
        ident_run(bytes) <= bytes.len(),
    decreases bytes.len(),
{
    if bytes.len() > 0 && is_ident_byte(bytes[0]) {
        lemma_ident_run_bound(bytes.skip(1));
    }
}

/// The kind of token that the identifier with this text in upper case is.
pub fn classify(upper: &str) -> (kind: TokenKind)
    ensures
        classified(upper@, kind),
{
    if let Some(k) = Keyword::from_text(upper) {
        TokenKind::Keyword(k)
    } else if let Some(d) = DistanceKind::from_text(upper) {
        TokenKind::Distance(d)
    } else if let Some(g) = GeometryName::from_text(upper) {
        TokenKind::Geometry(g)
    } else if let Some(a) = Algorithm::from_text(upper) {
        TokenKind::Algorithm(a)
    } else if let Some(l) = Language::from_text(upper) {
        TokenKind::Language(l)
    } else {
        TokenKind::Identifier
    }
}

/// Whether an identifier may start with this byte.
pub fn ident_start(b: u8) -> (starts: bool)
    ensures
        starts == is_ident_start(b),
{
    (0x61 <= b && b <= 0x7a) || (0x41 <= b && b <= 0x5a) || b == 0x5f
}

/// Whether an identifier may go on with this byte.
pub fn ident_byte(b: u8) -> (goes_on: bool)
    ensures
        goes_on == is_ident_byte(b),
{
    ident_start(b) || (0x30 <= b && b <= 0x39)
}

/// The byte in upper case, where it is a lower-case letter.
pub fn to_upper(b: u8) -> (upper: u8)
    ensures
        upper == upper_byte(b),
{
    if 0x61 <= b && b <= 0x7a {
        b - 32
    } else {
        b
    }
}

/// What holds where the lexer lexed the identifier that starts at `from`: the
/// identifier goes on as far as its bytes allow. The token is the reserved word that it
/// spells; or else an identifier, where the table has room, and then the table holds, at
/// its end, the text of the identifier. Else the token is invalid and the fault is kept.
pub open spec fn ident_lexed(before: &Lexer, after: &Lexer, token: Token, from: int) -> bool {
    let src = before.source();
    let end = from + 1 + ident_run(src.skip(from + 1));
    let bytes = src.subrange(from, end);
    &&& token.span.end() == end
    &&& if token.kind is Invalid {
        &&& before.strings@.len() >= TABLE_LIMIT
        &&& classified(upper_text(bytes), TokenKind::Identifier)
        &&& after.error == Some(Error::TooManyValues)
        &&& after.strings == before.strings
    } else {
        &&& classified(upper_text(bytes), token.kind)
        &&& after.error == before.error
        &&& token.kind is Identifier ==> after.strings@.len() == before.strings@.len() + 1
            && after.strings@.last()@ == ascii_text(bytes) && token.data_index == Some(
            DataIndex::from_index_spec(before.strings@.len() as u32),
        )
        &&& !(token.kind is Identifier) ==> after.strings == before.strings
    }
}

impl<'a> Lexer<'a> {
    /// Reads the bytes that go on an identifier, behind what `text` and `upper` hold of it
    /// already, and appends them to `text` as they are and to `upper` in upper case.
    pub fn read_ident_run(&mut self, text: &mut String, upper: &mut String)
        requires
            old(self).wf(),
        ensures
            final(self).wf(),
            final(self).follows(old(self)),
            final(self).last_offset == old(self).last_offset,
            final(self).error == old(self).error,
            final(self).strings == old(self).strings,
            final(self).numbers == old(self).numbers,
            final(self).durations == old(self).durations,
            final(self).datetime == old(self).datetime,
            final(self).uuid == old(self).uuid,
            final(self).reader.position() == old(self).reader.position() + ident_run(
                old(self).reader.rest(),
            ),
            final(text)@ == old(text)@ + ascii_text(
                old(self).reader.rest().take(ident_run(old(self).reader.rest()) as int),
            ),
            final(upper)@ == old(upper)@ + upper_text(
                old(self).reader.rest().take(ident_run(old(self).reader.rest()) as int),
            ),
    {
        let ghost rest = self.reader.rest();
        let ghost from = self.reader.position();
        let ghost mut n: int = 0;
        proof {
            self.reader.lemma_bounds();
            assert(rest.skip(0) =~= rest);
            assert(ascii_text(rest.take(0)) =~= Seq::<char>::empty());
            assert(upper_text(rest.take(0)) =~= Seq::<char>::empty());
            assert(text@ + Seq::<char>::empty() =~= text@);
            assert(upper@ + Seq::<char>::empty() =~= upper@);
        }
        loop
            invariant
                self.wf(),
                self.follows(old(self)),
                self.source() == old(self).source(),
                self.last_offset == old(self).last_offset,
                self.error == old(self).error,
                self.strings == old(self).strings,
                self.numbers == old(self).numbers,
                self.durations == old(self).durations,
                self.datetime == old(self).datetime,
                self.uuid == old(self).uuid,
                rest == old(self).reader.rest(),
                rest == self.source().skip(from),
                from == old(self).reader.position(),
                0 <= from <= self.source().len(),
                0 <= n <= rest.len(),
                self.reader.position() == from + n,
                ident_run(rest) == n + ident_run(rest.skip(n)),
                text@ == old(text)@ + ascii_text(rest.take(n)),
                upper@ == old(upper)@ + upper_text(rest.take(n)),
            ensures
                ident_run(rest.skip(n)) == 0,
            decreases rest.len() - n,
        {
            proof {
                self.reader.lemma_bounds();
            }
            let byte = match self.reader.peek() {
                Some(b) => b,
                None => {
                    break ;
                },
            };
            assert(rest.skip(n)[0] == byte);
            if !ident_byte(byte) {
                break ;
            }
            self.reader.next();
            push_char(text, byte as char);
            push_char(upper, to_upper(byte) as char);
            proof {
                assert(rest.skip(n).skip(1) =~= rest.skip(n + 1));
                assert(ascii_text(rest.take(n + 1)) =~= ascii_text(rest.take(n)).push(
                    byte as char,
                ));
                assert(upper_text(rest.take(n + 1)) =~= upper_text(rest.take(n)).push(
                    upper_byte(byte) as char,
                ));
                assert(text@ =~= old(text)@ + ascii_text(rest.take(n + 1)));
                assert(upper@ =~= old(upper)@ + upper_text(rest.take(n + 1)));
                n = n + 1;
            }
        }
    }

    /// Lexes an identifier whose first byte, `start`, was read last. The token is the
    /// reserved word that the identifier spells, if it spells one; else it is an identifier,
    /// whose text goes into the table of strings.
    pub fn lex_ident(&mut self, start: u8) -> (token: Token)
        requires
            old(self).wf(),
            is_ident_start(start),
            old(self).reader.position() == old(self).last_offset + 1,
            old(self).source()[old(self).last_offset as int] == start,
        ensures
            final(self).wf(),
            final(self).follows(old(self)),
            final(self).holds(token),
            final(self).spanned(token, old(self).last_offset as int),
            final(self).numbers == old(self).numbers,
            final(self).durations == old(self).durations,
            final(self).datetime == old(self).datetime,
            final(self).uuid == old(self).uuid,
            ident_lexed(old(self), final(self), token, old(self).last_offset as int),
            final(self).reader.position() > old(self).last_offset,
    {
        let ghost rest = self.reader.rest();
        let ghost run = rest.take(ident_run(rest) as int);
        let mut text = String::new();
        let mut upper = String::new();
        push_char(&mut text, start as char);
        push_char(&mut upper, to_upper(start) as char);
        self.read_ident_run(&mut text, &mut upper);
        proof {
            self.reader.lemma_bounds();
            let src = self.source();
            let from = old(self).last_offset as int;
            assert(src[from] == start) by {
                old(self).reader.lemma_bounds();
            }
            assert(rest == src.skip(from + 1));
            crate::lexer::ident::lemma_ident_run_bound(rest);
            assert(seq![start] + run =~= src.subrange(from, from + 1 + ident_run(rest)));
            assert(text@ =~= ascii_text(seq![start] + run));
            assert(upper@ =~= upper_text(seq![start] + run));
        }
        let kind = classify(upper.as_str());
        match kind {
            TokenKind::Identifier => self.finish_string_token(TokenKind::Identifier, text),
            _ => self.finish_token(kind, None),
        }
    }
}

} // verus!

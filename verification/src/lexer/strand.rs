//! Strings between quotes, with escape sequences.

use vstd::prelude::*;
use vstd::utf8::is_scalar;
use crate::lexer::byte::starts;
use crate::lexer::number::byte_is;
use crate::lexer::Error;
use crate::lexer::Lexer;
use crate::lexer::TABLE_LIMIT;
use crate::reader::first_char;
use crate::reader::first_char_read;
use crate::reader::CharError;
use crate::strings::char_of_scalar;
use crate::strings::push_char;
use crate::token::DataIndex;
use crate::token::Token;
use crate::token::TokenKind;

verus! {

/// The character that a backslash and this byte stand for, where the two are an escape
/// sequence of one character.
pub open spec fn escaped(b: u8) -> Option<char> {
    if b == 'n' as u8 {
        Some('\n')
    } else if b == 'r' as u8 {
        Some('\r')
    } else if b == 't' as u8 {
        Some('\t')
    } else if b == '\\' as u8 {
        Some('\\')
    } else if b == '"' as u8 {
        Some('"')
    } else if b == '\'' as u8 {
        Some('\'')
    } else if b == '/' as u8 {
        Some('/')
    } else {
        None
    }
}

/// The value of a hexadecimal digit.
pub open spec fn hex_value(b: u8) -> Option<u8> {
    if 0x30 <= b <= 0x39 {
        Some((b - 0x30) as u8)
    } else if 0x61 <= b <= 0x66 {
        Some((b - 0x61 + 10) as u8)
    } else if 0x41 <= b <= 0x46 {
        Some((b - 0x41 + 10) as u8)
    } else {
        None
    }
}

/// How many bytes at the front are hexadecimal digits.
pub open spec fn hex_run(bytes: Seq<u8>) -> nat
    decreases bytes.len(),
{
    if bytes.len() > 0 && hex_value(bytes[0]) is Some {
        1 + hex_run(bytes.skip(1))
    } else {
        0
    }
}

/// The number that hexadecimal digits spell.
pub open spec fn hex_digits_value(digits: Seq<u8>) -> nat
    decreases digits.len(),
{
    if digits.len() == 0 {
        0
    } else {
        hex_digits_value(digits.drop_last()) * 16 + match hex_value(digits.last()) {
            Some(v) => v as nat,
            None => 0,
        }
    }
}

/// The character that the escape sequence `\u{...}` stands for, and where the sequence
/// ends; `at` is behind the `u`. Between the braces stand one to six hexadecimal digits,
/// which spell the scalar value of a character.
pub open spec fn unicode_escape(src: Seq<u8>, at: int) -> Option<(char, int)> {
    let digits = hex_run(src.skip(at + 1));
    let close = at + 1 + digits;
    let value = hex_digits_value(src.subrange(at + 1, close));
    if starts(src.skip(at), '{') && 1 <= digits <= 6 && close < src.len() && src[close]
        == '}' as u8 && value <= u32::MAX && is_scalar(value as u32) {
        Some(((value as u32) as char, close + 1))
    } else {
        None
    }
}

/// The characters of the string that goes on at `at`, behind those read already, and where
/// the string ends, behind the closing quote; or why it is no string.
pub open spec fn strand_at(src: Seq<u8>, at: int, quote: u8, read: Seq<char>) -> Result<
    (Seq<char>, int),
    Error,
>
    decreases src.len() - at,
{
    if at < 0 || at >= src.len() {
        Err(Error::ExpectedEnd(quote as char))
    } else if src[at] == quote {
        Ok((read, at + 1))
    } else if src[at] == '\\' as u8 {
        if at + 1 >= src.len() {
            Err(Error::ExpectedEnd(quote as char))
        } else if escaped(src[at + 1]) is Some {
            strand_at(src, at + 2, quote, read.push(escaped(src[at + 1])->Some_0))
        } else if src[at + 1] == 'u' as u8 {
            match unicode_escape(src, at + 2) {
                Some((c, end)) => if end > at {
                    strand_at(src, end, quote, read.push(c))
                } else {
                    Err(Error::InvalidEscapeCharacter('u'))
                },
                None => Err(Error::InvalidEscapeCharacter('u')),
            }
        } else {
            match first_char(src.skip(at + 1)) {
                Ok(c) => Err(Error::InvalidEscapeCharacter(c)),
                Err(CharError::Eof) => Err(Error::UnexpectedEof),
                Err(CharError::Unicode) => Err(Error::InvalidUtf8),
            }
        }
    } else {
        match first_char(src.skip(at)) {
            Ok(c) => strand_at(src, at + 1 + first_char_read(src.skip(at)), quote, read.push(c)),
            Err(CharError::Eof) => Err(Error::UnexpectedEof),
            Err(CharError::Unicode) => Err(Error::InvalidUtf8),
        }
    }
}

/// The character that a backslash and this byte stand for.
pub fn escape(b: u8) -> (c: Option<char>)
    ensures
        c == escaped(b),
{
    if b == 'n' as u8 {
        Some('\n')
    } else if b == 'r' as u8 {
        Some('\r')
    } else if b == 't' as u8 {
        Some('\t')
    } else if b == '\\' as u8 {
        Some('\\')
    } else if b == '"' as u8 {
        Some('"')
    } else if b == '\'' as u8 {
        Some('\'')
    } else if b == '/' as u8 {
        Some('/')
    } else {
        None
    }
}

/// The value of a hexadecimal digit.
pub fn hex_digit(b: u8) -> (value: Option<u8>)
    ensures
        value == hex_value(b),
        value matches Some(v) ==> v < 16,
{
    if 0x30 <= b && b <= 0x39 {
        Some(b - 0x30)
    } else if 0x61 <= b && b <= 0x66 {
        Some(b - 0x61 + 10)
    } else if 0x41 <= b && b <= 0x46 {
        Some(b - 0x41 + 10)
    } else {
        None
    }
}

/// The character of the escape sequence `\u{...}`, and where the sequence ends.
pub fn scan_unicode_escape(bytes: &[u8], at: usize) -> (found: Option<(char, usize)>)
    requires
        at <= bytes@.len(),
    ensures
        match found {
            Some((c, end)) => unicode_escape(bytes@, at as int) == Some((c, end as int)) && at
                < end <= bytes@.len(),
            None => unicode_escape(bytes@, at as int) is None,
        },
{
    if !byte_is(bytes, at, '{') {
        return None;
    }
    let mut value: u32 = 0;
    let mut i = at + 1;
    proof {
        assert(bytes@.subrange(at + 1, at + 1) =~= Seq::<u8>::empty());
        assert(bytes@.skip(at + 1).skip(0) =~= bytes@.skip(at + 1));
    }
    while i < bytes.len() && i - at <= 6 && hex_digit(bytes[i]).is_some()
        invariant
            at + 1 <= i <= bytes@.len(),
            bytes@.len() <= usize::MAX,
            i - at <= 7,
            value == hex_digits_value(bytes@.subrange(at + 1, i as int)),
            value < pow16((i - at - 1) as nat),
            hex_run(bytes@.skip(at + 1)) == (i - at - 1) + hex_run(bytes@.skip(i as int)),
        decreases bytes@.len() - i,
    {
        let digit = match hex_digit(bytes[i]) {
            Some(d) => d,
            None => 0,
        };
        proof {
            let next = bytes@.subrange(at + 1, i + 1);
            assert(next.drop_last() =~= bytes@.subrange(at + 1, i as int));
            assert(next.last() == bytes@[i as int]);
            assert(bytes@.skip(i as int).skip(1) =~= bytes@.skip(i + 1));
            lemma_pow16((i - at) as nat);
        }
        value = value * 16 + digit as u32;
        i += 1;
    }
    proof {
        reveal_with_fuel(pow16, 8);
    }
    let digits = i - at - 1;
    if digits == 0 || digits > 6 {
        proof {
            if digits > 6 {
                assert(hex_run(bytes@.skip(at + 1)) >= 7);
            }
        }
        return None;
    }
    if i < bytes.len() && hex_digit(bytes[i]).is_some() {
        return None;
    }
    if !byte_is(bytes, i, '}') {
        return None;
    }
    match char_of_scalar(value) {
        Some(c) => {
            proof {
                vstd::utf8::char_u32_cast(c, value);
            }
            Some((c, i + 1))
        },
        None => None,
    }
}

/// 16 to the power `n`.
pub open spec fn pow16(n: nat) -> nat
    decreases n,
{
    if n == 0 {
        1
    } else {
        16 * pow16((n - 1) as nat)
    }
}

/// The powers of 16 that seven hexadecimal digits reach.
pub proof fn lemma_pow16(n: nat)
    requires
        n <= 7,
    ensures
        pow16(n) <= 0x1000_0000,
        n >= 1 ==> pow16(n) == 16 * pow16((n - 1) as nat),
{
    reveal_with_fuel(pow16, 8);
}

/// What holds where the lexer lexed the string that starts at `from` with the quote
/// `quote`: the token is a string where one is written there and the table has room, and
/// then the table holds, at its end, the characters of the string. Else the token is
/// invalid and the fault is kept.
pub open spec fn strand_lexed(
    before: &Lexer,
    after: &Lexer,
    token: Token,
    from: int,
    quote: u8,
) -> bool {
    let lexed = strand_at(before.source(), from + 1, quote, Seq::empty());
    &&& (token.kind is Strand || token.kind is Invalid)
    &&& token.kind is Strand <==> lexed is Ok && before.strings@.len() < TABLE_LIMIT
    &&& token.kind is Strand ==> {
        &&& token.span.end() == lexed->Ok_0.1
        &&& after.error == before.error
        &&& after.strings@.len() == before.strings@.len() + 1
        &&& after.strings@.last()@ == lexed->Ok_0.0
        &&& token.data_index == Some(DataIndex::from_index_spec(before.strings@.len() as u32))
    }
    &&& token.kind is Invalid ==> after.strings == before.strings && after.error == Some(
        match lexed {
            Ok(_) => Error::TooManyValues,
            Err(e) => e,
        },
    )
}

/// How reading one character of a string ended.
pub enum StrandStep {
    /// The string goes on.
    More,
    /// The closing quote was read.
    End,
    /// The string is malformed.
    Fault(Error),
}

impl<'a> Lexer<'a> {
    /// Reads the next character of a string, or its closing quote.
    fn strand_step(&mut self, quote: u8, text: &mut String) -> (step: StrandStep)
        requires
            old(self).wf(),
        ensures
            final(self).wf(),
            final(self).follows(old(self)),
            final(self).last_offset == old(self).last_offset,
            final(self).error == old(self).error,
            final(self).strings == old(self).strings,
            final(self).numbers == old(self).numbers,
            final(self).durations == old(self).durations,
            final(self).datetime == old(self).datetime,
            final(self).uuid == old(self).uuid,
            final(self).reader.position() >= old(self).reader.position(),
            ({
                let src = old(self).source();
                let lexed = strand_at(src, old(self).reader.position(), quote, old(text)@);
                match step {
                    StrandStep::More => final(self).reader.position() > old(self).reader.position() && lexed == strand_at(
                        src,
                        final(self).reader.position(),
                        quote,
                        final(text)@,
                    ),
                    StrandStep::End => lexed == Ok::<(Seq<char>, int), Error>(
                        (old(text)@, final(self).reader.position()),
                    ) && final(text)@ == old(text)@,
                    StrandStep::Fault(e) => lexed == Err::<(Seq<char>, int), Error>(e),
                }
            }),
    {
        let ghost src = self.source();
        let ghost at = self.reader.position();
        proof {
            self.reader.lemma_bounds();
        }
        let byte = match self.reader.next() {
            Some(byte) => byte,
            None => return StrandStep::Fault(Error::ExpectedEnd(quote as char)),
        };
        if byte == quote {
            return StrandStep::End;
        }
        if byte == '\\' as u8 {
            let next = match self.reader.next() {
                Some(next) => next,
                None => return StrandStep::Fault(Error::ExpectedEnd(quote as char)),
            };
            if let Some(c) = escape(next) {
                push_char(text, c);
                StrandStep::More
            } else if next == 'u' as u8 {
                let offset = self.reader.offset();
                match scan_unicode_escape(self.reader.full(), offset) {
                    Some((c, end)) => {
                        self.reader.advance(end - offset);
                        push_char(text, c);
                        StrandStep::More
                    },
                    None => StrandStep::Fault(Error::InvalidEscapeCharacter('u')),
                }
            } else {
                proof {
                    assert(seq![next] + self.reader.rest() =~= src.skip(at + 1));
                }
                match self.reader.complete_char(next) {
                    Ok(c) => StrandStep::Fault(Error::InvalidEscapeCharacter(c)),
                    Err(e) => StrandStep::Fault(Error::from_char_error(e)),
                }
            }
        } else {
            proof {
                assert(seq![byte] + self.reader.rest() =~= src.skip(at));
            }
            match self.reader.complete_char(byte) {
                Ok(c) => {
                    push_char(text, c);
                    StrandStep::More
                },
                Err(e) => StrandStep::Fault(Error::from_char_error(e)),
            }
        }
    }

    /// Lexes the string whose opening quote, `quote`, was read last.
    pub fn lex_strand(&mut self, quote: u8) -> (token: Token)
        requires
            old(self).wf(),
            old(self).reader.position() == old(self).last_offset + 1,
        ensures
            final(self).wf(),
            final(self).follows(old(self)),
            final(self).holds(token),
            final(self).spanned(token, old(self).last_offset as int),
            final(self).numbers == old(self).numbers,
            final(self).durations == old(self).durations,
            final(self).datetime == old(self).datetime,
            final(self).uuid == old(self).uuid,
            strand_lexed(old(self), final(self), token, old(self).last_offset as int, quote),
            final(self).reader.position() > old(self).last_offset,
    {
        let mut text = String::new();
        let ghost src = self.source();
        let ghost start = self.reader.position();
        loop
            invariant
                self.wf(),
                self.follows(old(self)),
                self.source() == src,
                src == old(self).source(),
                self.last_offset == old(self).last_offset,
                self.error == old(self).error,
                self.strings == old(self).strings,
                self.numbers == old(self).numbers,
                self.durations == old(self).durations,
                self.datetime == old(self).datetime,
                self.uuid == old(self).uuid,
                start == old(self).last_offset + 1,
                start <= self.reader.position(),
                strand_at(src, start, quote, Seq::empty()) == strand_at(
                    src,
                    self.reader.position(),
                    quote,
                    text@,
                ),
            decreases src.len() - self.reader.position(),
        {
            proof {
                self.reader.lemma_bounds();
            }
            match self.strand_step(quote, &mut text) {
                StrandStep::More => {
                    proof {
                        self.reader.lemma_bounds();
                    }
                },
                StrandStep::End => {
                    return self.finish_string_token(TokenKind::Strand, text);
                },
                StrandStep::Fault(e) => {
                    return self.invalid_token(e);
                },
            }
        }
    }
}

} // verus!

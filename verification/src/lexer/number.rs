//! Numbers: whole numbers, and numbers with a fraction, an exponent or a suffix.

use vstd::prelude::*;
use crate::lexer::byte::starts;
use crate::lexer::ident::ascii_text;
use crate::lexer::ident::ident_byte;
use crate::lexer::ident::is_ident_byte;
use crate::lexer::Error;
use crate::lexer::Lexer;
use crate::lexer::NumberLiteral;
use crate::lexer::NumberLiteralView;
use crate::lexer::TABLE_LIMIT;
use crate::strings::push_char;
use crate::token::DataIndex;
use crate::token::Token;

verus! {

/// Whether the byte is a decimal digit.
pub open spec fn is_digit(b: u8) -> bool {
    0x30 <= b <= 0x39
}

/// How many bytes at the front are digits.
pub open spec fn digit_run(bytes: Seq<u8>) -> nat
    decreases bytes.len(),
{
    if bytes.len() > 0 && is_digit(bytes[0]) {
        1 + digit_run(bytes.skip(1))
    } else {
        0
    }
}

/// The number that decimal digits spell.
pub open spec fn digits_value(digits: Seq<u8>) -> nat
    decreases digits.len(),
{
    if digits.len() == 0 {
        0
    } else {
        digits_value(digits.drop_last()) * 10 + (digits.last() - 0x30) as nat
    }
}

/// Whether `bytes` start with a plus or minus sign.
pub open spec fn starts_signed(bytes: Seq<u8>) -> bool {
    starts(bytes, '+') || starts(bytes, '-')
}

/// Where the parts of a number end in the source.
pub struct NumberShape {
    /// Behind the sign, if there is one.
    pub sign_end: int,
    /// Behind the digits before a point.
    pub whole_end: int,
    /// Behind the point and the digits of the fraction, if there is one.
    pub fraction_end: int,
    /// Behind the exponent, if there is one.
    pub exponent_end: int,
    /// Behind the suffix, if there is one.
    pub end: int,
}

/// Where the fraction ends that may start at `at`. A point starts a fraction only where a
/// digit follows it.
pub open spec fn fraction_end(src: Seq<u8>, at: int) -> int {
    if starts(src.skip(at), '.') && digit_run(src.skip(at + 1)) > 0 {
        at + 1 + digit_run(src.skip(at + 1))
    } else {
        at
    }
}

/// Where the exponent ends that may start at `at`. The letter `e` or `E` starts an exponent
/// only where digits follow it or its sign.
pub open spec fn exponent_end(src: Seq<u8>, at: int) -> int {
    let digits_from = if starts_signed(src.skip(at + 1)) {
        at + 2
    } else {
        at + 1
    };
    if (starts(src.skip(at), 'e') || starts(src.skip(at), 'E')) && digit_run(
        src.skip(digits_from),
    ) > 0 {
        digits_from + digit_run(src.skip(digits_from))
    } else {
        at
    }
}

/// Where the suffix ends that may start at `at`: `dec` or `f`.
pub open spec fn suffix_end(src: Seq<u8>, at: int) -> int {
    if at + 3 <= src.len() && src[at] == 'd' as u8 && src[at + 1] == 'e' as u8 && src[at + 2]
        == 'c' as u8 {
        at + 3
    } else if starts(src.skip(at), 'f') {
        at + 1
    } else {
        at
    }
}

/// The parts of the number that starts at `from`.
pub open spec fn number_shape(src: Seq<u8>, from: int) -> NumberShape {
    let sign_end = if starts_signed(src.skip(from)) {
        from + 1
    } else {
        from
    };
    let whole_end = sign_end + digit_run(src.skip(sign_end));
    let fraction_end = fraction_end(src, whole_end);
    let exponent_end = exponent_end(src, fraction_end);
    let end = suffix_end(src, exponent_end);
    NumberShape { sign_end, whole_end, fraction_end, exponent_end, end }
}

/// Whether a number starts at `from`: it has digits before the point, and what follows it
/// could not go on an identifier.
pub open spec fn number_valid(src: Seq<u8>, from: int) -> bool {
    let shape = number_shape(src, from);
    shape.whole_end > shape.sign_end && !(src.len() > shape.end && is_ident_byte(
        src[shape.end],
    ))
}

/// What the number that starts at `from` stands for. A whole number without a suffix is an
/// integer where it fits 64 bits, else a decimal. With the suffix `dec` a number is a
/// decimal. Any other number is a float.
pub open spec fn number_literal(src: Seq<u8>, from: int) -> NumberLiteralView {
    let shape = number_shape(src, from);
    let text = ascii_text(src.subrange(from, shape.exponent_end));
    let magnitude = digits_value(src.subrange(shape.sign_end, shape.whole_end));
    let value: int = if starts(src.skip(from), '-') {
        -(magnitude as int)
    } else {
        magnitude as int
    };
    if shape.end == shape.exponent_end + 3 {
        NumberLiteralView::Decimal(text)
    } else if shape.end == shape.whole_end {
        if i64::MIN <= value <= i64::MAX {
            NumberLiteralView::Integer(value as i64)
        } else {
            NumberLiteralView::Decimal(text)
        }
    } else {
        NumberLiteralView::Float(text)
    }
}

/// Whether the byte is a decimal digit.
pub fn digit(b: u8) -> (is: bool)
    ensures
        is == is_digit(b),
{
    0x30 <= b && b <= 0x39
}

/// Where the digits that start at `from` end.
pub fn scan_digits(bytes: &[u8], from: usize) -> (end: usize)
    requires
        from <= bytes@.len(),
    ensures
        end == from + digit_run(bytes@.skip(from as int)),
        end <= bytes@.len(),
{
    let mut i = from;
    proof {
        assert(bytes@.skip(from as int).skip(0) =~= bytes@.skip(from as int));
    }
    while i < bytes.len() && digit(bytes[i])
        invariant
            from <= i <= bytes@.len(),
            digit_run(bytes@.skip(from as int)) == (i - from) + digit_run(bytes@.skip(i as int)),
        decreases bytes@.len() - i,
    {
        proof {
            assert(bytes@.skip(i as int).skip(1) =~= bytes@.skip(i + 1));
        }
        i += 1;
    }
    i
}

/// Whether the byte at `at` is `c`.
pub fn byte_is(bytes: &[u8], at: usize, c: char) -> (is: bool)
    requires
        at <= bytes@.len(),
        c as u32 <= 0x7f,
    ensures
        is == starts(bytes@.skip(at as int), c),
        is ==> at < bytes@.len(),
        bytes@.len() <= usize::MAX,
{
    at < bytes.len() && bytes[at] == c as u8
}

/// Whether a sign stands at `at`.
pub fn signed_at(bytes: &[u8], at: usize) -> (is: bool)
    requires
        at <= bytes@.len(),
    ensures
        is == starts_signed(bytes@.skip(at as int)),
        is ==> at < bytes@.len(),
        bytes@.len() <= usize::MAX,
{
    byte_is(bytes, at, '+') || byte_is(bytes, at, '-')
}

/// Where the fraction ends that may start at `at`.
pub fn scan_fraction(bytes: &[u8], at: usize) -> (end: usize)
    requires
        at <= bytes@.len(),
    ensures
        end == fraction_end(bytes@, at as int),
        at <= end <= bytes@.len(),
{
    if byte_is(bytes, at, '.') {
        let end = scan_digits(bytes, at + 1);
        if end > at + 1 {
            return end;
        }
    }
    at
}

/// Where the exponent ends that may start at `at`.
pub fn scan_exponent(bytes: &[u8], at: usize) -> (end: usize)
    requires
        at <= bytes@.len(),
    ensures
        end == exponent_end(bytes@, at as int),
        at <= end <= bytes@.len(),
{
    if byte_is(bytes, at, 'e') || byte_is(bytes, at, 'E') {
        let digits_from = if signed_at(bytes, at + 1) {
            at + 2
        } else {
            at + 1
        };
        let end = scan_digits(bytes, digits_from);
        if end > digits_from {
            return end;
        }
    }
    at
}

/// Where the suffix ends that may start at `at`.
pub fn scan_suffix(bytes: &[u8], at: usize) -> (end: usize)
    requires
        at <= bytes@.len(),
    ensures
        end == suffix_end(bytes@, at as int),
        at <= end <= bytes@.len(),
{
    if bytes.len() - at >= 3 && bytes[at] == 'd' as u8 && bytes[at + 1] == 'e' as u8 && bytes[at
        + 2] == 'c' as u8 {
        at + 3
    } else if byte_is(bytes, at, 'f') {
        at + 1
    } else {
        at
    }
}

/// The parts of the number that starts at `from`.
pub fn scan_number(bytes: &[u8], from: usize) -> (ends: (usize, usize, usize, usize, usize))
    requires
        from <= bytes@.len(),
    ensures
        ({
            let shape = number_shape(bytes@, from as int);
            &&& ends.0 == shape.sign_end
            &&& ends.1 == shape.whole_end
            &&& ends.2 == shape.fraction_end
            &&& ends.3 == shape.exponent_end
            &&& ends.4 == shape.end
            &&& from <= ends.0 <= ends.1 <= ends.2 <= ends.3 <= ends.4 <= bytes@.len()
        }),
{
    let sign_end = if signed_at(bytes, from) {
        from + 1
    } else {
        from
    };
    let whole_end = scan_digits(bytes, sign_end);
    let fraction_end = scan_fraction(bytes, whole_end);
    let exponent_end = scan_exponent(bytes, fraction_end);
    let end = scan_suffix(bytes, exponent_end);
    (sign_end, whole_end, fraction_end, exponent_end, end)
}

/// The number that the digits from `from` up to `to` spell, where it fits 64 bits.
pub fn digits_to_u64(bytes: &[u8], from: usize, to: usize) -> (value: Option<u64>)
    requires
        from <= to <= bytes@.len(),
        forall|i: int| from <= i < to ==> is_digit(bytes@[i]),
    ensures
        match value {
            Some(v) => v == digits_value(bytes@.subrange(from as int, to as int)),
            None => digits_value(bytes@.subrange(from as int, to as int)) > u64::MAX,
        },
{
    let mut value: u64 = 0;
    let mut i = from;
    proof {
        assert(bytes@.subrange(from as int, from as int) =~= Seq::<u8>::empty());
    }
    while i < to
        invariant
            from <= i <= to <= bytes@.len(),
            forall|j: int| from <= j < to ==> is_digit(bytes@[j]),
            value == digits_value(bytes@.subrange(from as int, i as int)),
        decreases to - i,
    {
        let digit = (bytes[i] - 0x30) as u64;
        let ghost next = bytes@.subrange(from as int, i + 1);
        proof {
            assert(next.drop_last() =~= bytes@.subrange(from as int, i as int));
            assert(next.last() == bytes@[i as int]);
        }
        if value > (u64::MAX - digit) / 10 {
            proof {
                lemma_digits_value_grows(bytes@, from as int, i + 1, to as int);
            }
            return None;
        }
        value = value * 10 + digit;
        i += 1;
    }
    Some(value)
}

/// The number that the digits from `from` up to `to` spell, where it is not above `limit`.
pub fn digits_up_to(bytes: &[u8], from: usize, to: usize, limit: u128) -> (value: Option<u128>)
    requires
        from <= to <= bytes@.len(),
        forall|i: int| from <= i < to ==> is_digit(bytes@[i]),
        limit <= 0xffff_ffff_ffff_ffff_ffff_ffff_ffff,
    ensures
        match value {
            Some(v) => v == digits_value(bytes@.subrange(from as int, to as int)) && v <= limit,
            None => digits_value(bytes@.subrange(from as int, to as int)) > limit,
        },
{
    let mut value: u128 = 0;
    let mut i = from;
    proof {
        assert(bytes@.subrange(from as int, from as int) =~= Seq::<u8>::empty());
    }
    while i < to
        invariant
            from <= i <= to <= bytes@.len(),
            forall|j: int| from <= j < to ==> is_digit(bytes@[j]),
            value == digits_value(bytes@.subrange(from as int, i as int)),
            value <= limit,
            limit <= 0xffff_ffff_ffff_ffff_ffff_ffff_ffff,
        decreases to - i,
    {
        let digit = (bytes[i] - 0x30) as u128;
        let ghost next = bytes@.subrange(from as int, i + 1);
        proof {
            assert(next.drop_last() =~= bytes@.subrange(from as int, i as int));
            assert(next.last() == bytes@[i as int]);
        }
        let grown = value * 10 + digit;
        if grown > limit {
            proof {
                lemma_digits_value_grows(bytes@, from as int, i + 1, to as int);
            }
            return None;
        }
        value = grown;
        i += 1;
    }
    Some(value)
}

/// Digits that go on spell no smaller a number.
pub proof fn lemma_digits_value_grows(bytes: Seq<u8>, from: int, mid: int, to: int)
    requires
        0 <= from <= mid <= to <= bytes.len(),
        forall|j: int| from <= j < to ==> is_digit(bytes[j]),
    ensures
        digits_value(bytes.subrange(from, mid)) <= digits_value(bytes.subrange(from, to)),
    decreases to - mid,
{
    if mid < to {
        lemma_digits_value_grows(bytes, from, mid, to - 1);
        let all = bytes.subrange(from, to);
        assert(all.drop_last() =~= bytes.subrange(from, to - 1));
    }
}

/// The digits of a run are digits.
pub proof fn lemma_digit_run_digits(bytes: Seq<u8>)
    ensures
        digit_run(bytes) <= bytes.len(),
        forall|i: int| 0 <= i < digit_run(bytes) ==> is_digit(bytes[i]),
    decreases bytes.len(),
{
    if bytes.len() > 0 && is_digit(bytes[0]) {
        lemma_digit_run_digits(bytes.skip(1));
        assert forall|i: int| 0 <= i < digit_run(bytes) implies is_digit(bytes[i]) by {
            if i > 0 {
                assert(bytes.skip(1)[i - 1] == bytes[i]);
            }
        }
    }
}

/// The bytes of a run of digits in the source are digits.
pub proof fn lemma_digit_run_at(src: Seq<u8>, at: int)
    requires
        0 <= at <= src.len(),
    ensures
        at + digit_run(src.skip(at)) <= src.len(),
        forall|i: int| at <= i < at + digit_run(src.skip(at)) ==> is_digit(src[i]),
{
    lemma_digit_run_digits(src.skip(at));
    assert forall|i: int| at <= i < at + digit_run(src.skip(at)) implies is_digit(src[i]) by {
        assert(src.skip(at)[i - at] == src[i]);
    }
}

/// The byte behind a run of digits is no digit.
pub proof fn lemma_digit_run_stops(src: Seq<u8>, at: int)
    requires
        0 <= at <= src.len(),
    ensures
        at + digit_run(src.skip(at)) < src.len() ==> !is_digit(
            src[at + digit_run(src.skip(at))],
        ),
    decreases src.len() - at,
{
    if at < src.len() && is_digit(src[at]) {
        assert(src.skip(at).skip(1) =~= src.skip(at + 1));
        lemma_digit_run_stops(src, at + 1);
    }
}

/// The text of the ASCII bytes from `from` up to `to`.
pub fn text_of(bytes: &[u8], from: usize, to: usize) -> (text: String)
    requires
        from <= to <= bytes@.len(),
    ensures
        text@ == ascii_text(bytes@.subrange(from as int, to as int)),
{
    let mut text = String::new();
    let mut i = from;
    proof {
        assert(ascii_text(bytes@.subrange(from as int, from as int)) =~= Seq::<char>::empty());
    }
    while i < to
        invariant
            from <= i <= to <= bytes@.len(),
            text@ == ascii_text(bytes@.subrange(from as int, i as int)),
        decreases to - i,
    {
        push_char(&mut text, bytes[i] as char);
        proof {
            assert(ascii_text(bytes@.subrange(from as int, i + 1)) =~= ascii_text(
                bytes@.subrange(from as int, i as int),
            ).push(bytes@[i as int] as char));
        }
        i += 1;
    }
    text
}

/// What holds where the lexer lexed the number that starts at `from`: the token is a
/// number where one is written there and the table has room, and then the table holds, at
/// its end, what the number stands for. Else the token is invalid and the fault is kept.
pub open spec fn number_lexed(before: &Lexer, after: &Lexer, token: Token, from: int) -> bool {
    let src = before.source();
    &&& token.span.end() == if number_shape(src, from).end > from {
        number_shape(src, from).end
    } else {
        from + 1
    }
    &&& (token.kind is Number || token.kind is Invalid)
    &&& token.kind is Number <==> number_valid(src, from) && before.numbers@.len() < TABLE_LIMIT
    &&& token.kind is Number ==> after.error == before.error && after.numbers@.len()
        == before.numbers@.len() + 1 && after.numbers@.last()@ == number_literal(src, from)
        && token.data_index == Some(DataIndex::from_index_spec(before.numbers@.len() as u32))
    &&& token.kind is Invalid ==> after.numbers == before.numbers && after.error == Some(
        if number_valid(src, from) {
            Error::TooManyValues
        } else {
            Error::Number
        },
    )
}

impl<'a> Lexer<'a> {
    /// Lexes the number that starts where the token starts. Its first byte, a digit or a
    /// sign, was read last.
    pub fn lex_number(&mut self) -> (token: Token)
        requires
            old(self).wf(),
            old(self).reader.position() == old(self).last_offset + 1,
        ensures
            final(self).wf(),
            final(self).follows(old(self)),
            final(self).holds(token),
            final(self).spanned(token, old(self).last_offset as int),
            final(self).strings == old(self).strings,
            final(self).durations == old(self).durations,
            final(self).datetime == old(self).datetime,
            final(self).uuid == old(self).uuid,
            number_lexed(old(self), final(self), token, old(self).last_offset as int),
            final(self).reader.position() > old(self).last_offset,
    {
        let source = self.reader.full();
        let from = self.last_offset as usize;
        proof {
            self.reader.lemma_bounds();
        }
        let (sign_end, whole_end, fraction_end, exponent_end, end) = scan_number(source, from);
        if end > from {
            self.reader.backup(from);
            self.reader.advance(end - from);
        }
        if whole_end == sign_end || (end < source.len() && ident_byte(source[end])) {
            return self.invalid_token(Error::Number);
        }
        proof {
            lemma_digit_run_at(source@, sign_end as int);
        }
        let number = self.number_of(from, sign_end, whole_end, exponent_end, end);
        self.finish_number_token(number)
    }

    /// What the number with these parts stands for.
    fn number_of(
        &self,
        from: usize,
        sign_end: usize,
        whole_end: usize,
        exponent_end: usize,
        end: usize,
    ) -> (number: NumberLiteral)
        requires
            self.wf(),
            from <= self.source().len(),
            sign_end == number_shape(self.source(), from as int).sign_end,
            whole_end == number_shape(self.source(), from as int).whole_end,
            exponent_end == number_shape(self.source(), from as int).exponent_end,
            end == number_shape(self.source(), from as int).end,
            from <= sign_end <= whole_end <= exponent_end <= end <= self.source().len(),
            forall|i: int| sign_end <= i < whole_end ==> is_digit(self.source()[i]),
        ensures
            number@ == number_literal(self.source(), from as int),
    {
        let source = self.reader.full();
        if end - exponent_end == 3 {
            NumberLiteral::Decimal(text_of(source, from, exponent_end))
        } else if end == whole_end {
            let negative = byte_is(source, from, '-');
            match digits_to_u64(source, sign_end, whole_end) {
                Some(magnitude) => {
                    if negative {
                        if magnitude <= 0x8000_0000_0000_0000 {
                            NumberLiteral::Integer((0 - magnitude as i128) as i64)
                        } else {
                            NumberLiteral::Decimal(text_of(source, from, exponent_end))
                        }
                    } else {
                        if magnitude <= 0x7fff_ffff_ffff_ffff {
                            NumberLiteral::Integer(magnitude as i64)
                        } else {
                            NumberLiteral::Decimal(text_of(source, from, exponent_end))
                        }
                    }
                },
                None => NumberLiteral::Decimal(text_of(source, from, exponent_end)),
            }
        } else {
            NumberLiteral::Float(text_of(source, from, exponent_end))
        }
    }
}

} // verus!

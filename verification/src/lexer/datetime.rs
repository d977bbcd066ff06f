//! Date-times between quotes behind the letter `d`, as in `d'2022-08-29T08:03:39Z'`.

use vstd::prelude::*;
use crate::lexer::byte::starts;
use crate::lexer::number::byte_is;
use crate::lexer::number::digit_run;
use crate::lexer::number::digits_to_u64;
use crate::lexer::number::digits_value;
use crate::lexer::number::is_digit;
use crate::lexer::number::lemma_digit_run_at;
use crate::lexer::number::scan_digits;
use crate::lexer::Error;
use crate::lexer::Lexer;
use crate::lexer::TABLE_LIMIT;
use crate::time::civil_seconds;
use crate::time::civil_to_seconds;
use crate::time::timestamp_in_range;
use crate::time::Datetime;
use crate::token::DataIndex;
use crate::token::Token;
use crate::token::TokenKind;

verus! {

/// The number that the `count` digits from `at` spell, where digits stand there.
pub open spec fn decimal_at(src: Seq<u8>, at: int, count: int) -> Option<nat> {
    if 0 <= at && at + count <= src.len() && forall|i: int|
        at <= i < at + count ==> is_digit(#[trigger] src[i]) {
        Some(digits_value(src.subrange(at, at + count)))
    } else {
        None
    }
}

/// 10 to the power `n`.
pub open spec fn pow10(n: nat) -> nat
    decreases n,
{
    if n == 0 {
        1
    } else {
        10 * pow10((n - 1) as nat)
    }
}

/// The nanoseconds of the fraction that may start at `at`, and where it ends: a point
/// and one to nine digits.
pub open spec fn fraction_at(src: Seq<u8>, at: int) -> Option<(nat, int)> {
    let digits = digit_run(src.skip(at + 1));
    if !starts(src.skip(at), '.') {
        Some((0, at))
    } else if 1 <= digits <= 9 {
        Some(
            (
                digits_value(src.subrange(at + 1, at + 1 + digits)) * pow10((9 - digits) as nat),
                at + 1 + digits,
            ),
        )
    } else {
        None
    }
}

/// The seconds east of UTC of the zone that may start at `at`, and where it ends: the
/// letter `Z`, or a sign, hours, a colon and minutes. Where none is written, the time is
/// in UTC.
pub open spec fn zone_at(src: Seq<u8>, at: int) -> Option<(int, int)> {
    if starts(src.skip(at), 'Z') {
        Some((0, at + 1))
    } else if starts(src.skip(at), '+') || starts(src.skip(at), '-') {
        match (decimal_at(src, at + 1, 2), decimal_at(src, at + 4, 2)) {
            (Some(hours), Some(minutes)) => if src[at + 3] == ':' as u8 && hours <= 23
                && minutes <= 59 {
                let seconds = hours * 3600 + minutes * 60;
                Some(
                    (
                        if starts(src.skip(at), '-') {
                            -seconds
                        } else {
                            seconds as int
                        },
                        at + 6,
                    ),
                )
            } else {
                None
            },
            _ => None,
        }
    } else {
        Some((0, at))
    }
}

/// A date and a time of day as they are written.
pub struct Civil {
    pub year: nat,
    pub month: nat,
    pub day: nat,
    pub hour: nat,
    pub minute: nat,
    pub second: nat,
    pub nanos: nat,
    /// Seconds east of UTC.
    pub offset: int,
    /// Where the date-time ends in the source.
    pub end: int,
}

/// The date-time that is written from `at`: year, month and day with dashes between
/// them, the letter `T`, hour, minute and second with colons between them, and then a
/// fraction of the second and a zone, where they are written.
pub open spec fn civil_at(src: Seq<u8>, at: int) -> Option<Civil> {
    match (
        decimal_at(src, at, 4),
        decimal_at(src, at + 5, 2),
        decimal_at(src, at + 8, 2),
        decimal_at(src, at + 11, 2),
        decimal_at(src, at + 14, 2),
        decimal_at(src, at + 17, 2),
    ) {
        (Some(year), Some(month), Some(day), Some(hour), Some(minute), Some(second)) => if src[at
            + 4] == '-' as u8 && src[at + 7] == '-' as u8 && src[at + 10] == 'T' as u8 && src[at
            + 13] == ':' as u8 && src[at + 16] == ':' as u8 {
            match fraction_at(src, at + 19) {
                Some((nanos, fraction_end)) => match zone_at(src, fraction_end) {
                    Some((offset, end)) => Some(
                        Civil { year, month, day, hour, minute, second, nanos, offset, end },
                    ),
                    None => None,
                },
                None => None,
            }
        } else {
            None
        },
        _ => None,
    }
}

/// The instant that the date-time written from `at` names, and where the date-time ends;
/// or nothing, where no date-time is written there, the calendar has no such day, or the
/// instant is out of range.
pub open spec fn instant_at(src: Seq<u8>, at: int) -> Option<((i64, u32), int)> {
    match civil_at(src, at) {
        Some(civil) => match civil_seconds(
            civil.year as i32,
            civil.month as u32,
            civil.day as u32,
            civil.hour as u32,
            civil.minute as u32,
            civil.second as u32,
        ) {
            Some(local) => {
                let seconds = local - civil.offset;
                if i64::MIN <= seconds <= i64::MAX && timestamp_in_range(
                    seconds as i64,
                    civil.nanos as u32,
                ) {
                    Some(((seconds as i64, civil.nanos as u32), civil.end))
                } else {
                    None
                }
            },
            None => None,
        },
        None => None,
    }
}

/// The instant that the date-time written from `at` names, and where the token ends,
/// behind the quote `quote`; or nothing, where no date-time stands there before the quote.
pub open spec fn datetime_at(src: Seq<u8>, at: int, quote: u8) -> Option<((i64, u32), int)> {
    match instant_at(src, at) {
        Some((instant, end)) => if end < src.len() && src[end] == quote {
            Some((instant, end + 1))
        } else {
            None
        },
        None => None,
    }
}

/// The number that the `count` digits from `at` spell.
pub fn scan_decimal(bytes: &[u8], at: usize, count: usize) -> (value: Option<u32>)
    requires
        at <= bytes@.len(),
        1 <= count <= 4,
    ensures
        match value {
            Some(v) => decimal_at(bytes@, at as int, count as int) == Some(v as nat) && v
                <= 9999,
            None => decimal_at(bytes@, at as int, count as int) is None,
        },
        bytes@.len() <= usize::MAX,
{
    if bytes.len() - at < count {
        return None;
    }
    let end = scan_digits(bytes, at);
    proof {
        lemma_digit_run_at(bytes@, at as int);
    }
    if end - at < count {
        assert(!is_digit(bytes@[end as int])) by {
            assert(bytes@.skip(end as int)[0] == bytes@[end as int]);
            crate::lexer::number::lemma_digit_run_stops(bytes@, at as int);
        }
        return None;
    }
    match digits_to_u64(bytes, at, at + count) {
        Some(v) => {
            proof {
                lemma_digits_bound(bytes@.subrange(at as int, at + count));
                reveal_with_fuel(pow10, 5);
            }
            Some(v as u32)
        },
        None => {
            proof {
                lemma_digits_bound(bytes@.subrange(at as int, at + count));
                reveal_with_fuel(pow10, 5);
            }
            None
        },
    }
}

/// The number that digits spell is below 10 to the power of their count.
pub proof fn lemma_digits_bound(digits: Seq<u8>)
    requires
        forall|i: int| 0 <= i < digits.len() ==> is_digit(digits[i]),
    ensures
        digits_value(digits) < pow10(digits.len()),
    decreases digits.len(),
{
    if digits.len() > 0 {
        lemma_digits_bound(digits.drop_last());
    }
}

/// The nanoseconds of the fraction that may start at `at`, and where it ends.
pub fn scan_fraction_nanos(bytes: &[u8], at: usize) -> (found: Option<(u32, usize)>)
    requires
        at <= bytes@.len(),
    ensures
        match found {
            Some((nanos, end)) => fraction_at(bytes@, at as int) == Some(
                (nanos as nat, end as int),
            ) && at <= end <= bytes@.len() && nanos < 1_000_000_000,
            None => fraction_at(bytes@, at as int) is None,
        },
{
    if !byte_is(bytes, at, '.') {
        return Some((0, at));
    }
    let end = scan_digits(bytes, at + 1);
    let digits = end - at - 1;
    if digits < 1 || digits > 9 {
        return None;
    }
    proof {
        lemma_digit_run_at(bytes@, at + 1);
        lemma_digits_bound(bytes@.subrange(at + 1, end as int));
        reveal_with_fuel(pow10, 10);
    }
    let value = match digits_to_u64(bytes, at + 1, end) {
        Some(v) => v,
        None => return None,
    };
    let mut nanos = value;
    let mut i = digits;
    assert(pow10(0) == 1);
    assert(value * pow10(0) == value) by (nonlinear_arith)
        requires
            pow10(0) == 1,
    ;
    while i < 9
        invariant
            1 <= digits <= i <= 9,
            value < pow10(digits as nat),
            nanos == value * pow10((i - digits) as nat),
            nanos < pow10(i as nat),
        decreases 9 - i,
    {
        proof {
            reveal_with_fuel(pow10, 10);
            assert(value * pow10((i + 1 - digits) as nat) == 10 * (value * pow10(
                (i - digits) as nat,
            ))) by (nonlinear_arith)
                requires
                    pow10((i + 1 - digits) as nat) == 10 * pow10((i - digits) as nat),
            ;
        }
        nanos = nanos * 10;
        i += 1;
    }
    proof {
        reveal_with_fuel(pow10, 10);
    }
    Some((nanos as u32, end))
}

/// The seconds east of UTC of the zone that may start at `at`, and where it ends.
pub fn scan_zone(bytes: &[u8], at: usize) -> (found: Option<(i32, usize)>)
    requires
        at <= bytes@.len(),
    ensures
        match found {
            Some((offset, end)) => zone_at(bytes@, at as int) == Some(
                (offset as int, end as int),
            ) && at <= end <= bytes@.len() && -86400 < offset < 86400,
            None => zone_at(bytes@, at as int) is None,
        },
{
    if byte_is(bytes, at, 'Z') {
        return Some((0, at + 1));
    }
    let negative = byte_is(bytes, at, '-');
    if !negative && !byte_is(bytes, at, '+') {
        return Some((0, at));
    }
    let hours = match scan_decimal(bytes, at + 1, 2) {
        Some(v) => v,
        None => return None,
    };
    if bytes.len() - at < 6 {
        return None;
    }
    let minutes = match scan_decimal(bytes, at + 4, 2) {
        Some(v) => v,
        None => return None,
    };
    if bytes[at + 3] != ':' as u8 || hours > 23 || minutes > 59 {
        return None;
    }
    let seconds = (hours * 3600 + minutes * 60) as i32;
    Some((
        if negative {
            -seconds
        } else {
            seconds
        },
        at + 6,
    ))
}

/// What holds where the lexer lexed the date-time that starts at `from` with the letter
/// `d` and the quote `quote`: the token is a date-time where one is written there and the
/// table has room, and then the table holds, at its end, the instant. Else the token is
/// invalid and the fault is kept.
pub open spec fn datetime_lexed(
    before: &Lexer,
    after: &Lexer,
    token: Token,
    from: int,
    quote: u8,
) -> bool {
    let lexed = datetime_at(before.source(), from + 2, quote);
    &&& (token.kind is DateTime || token.kind is Invalid)
    &&& token.kind is DateTime <==> lexed is Some && before.datetime@.len() < TABLE_LIMIT
    &&& token.kind is DateTime ==> {
        &&& token.span.end() == lexed->Some_0.1
        &&& after.error == before.error
        &&& after.datetime@.len() == before.datetime@.len() + 1
        &&& after.datetime@.last()@ == lexed->Some_0.0
        &&& token.data_index == Some(DataIndex::from_index_spec(before.datetime@.len() as u32))
    }
    &&& token.kind is Invalid ==> after.datetime == before.datetime && after.error == Some(
        if lexed is Some {
            Error::TooManyValues
        } else {
            Error::DateTime
        },
    )
}

impl<'a> Lexer<'a> {
    /// Lexes the date-time behind the letter `d` and the quote `quote`, which was read last.
    pub fn lex_datetime(&mut self, quote: u8) -> (token: Token)
        requires
            old(self).wf(),
            old(self).reader.position() == old(self).last_offset + 2,
        ensures
            final(self).wf(),
            final(self).follows(old(self)),
            final(self).holds(token),
            final(self).spanned(token, old(self).last_offset as int),
            final(self).strings == old(self).strings,
            final(self).numbers == old(self).numbers,
            final(self).durations == old(self).durations,
            final(self).uuid == old(self).uuid,
            datetime_lexed(old(self), final(self), token, old(self).last_offset as int, quote),
            final(self).reader.position() > old(self).last_offset,
    {
        let at = self.reader.offset();
        proof {
            self.reader.lemma_bounds();
        }
        let (datetime, end) = match self.scan_datetime(at, quote) {
            Some(found) => found,
            None => return self.invalid_token(Error::DateTime),
        };
        self.reader.advance(end - at);
        if self.datetime.len() >= TABLE_LIMIT {
            return self.invalid_token(Error::TooManyValues);
        }
        let id = self.datetime.len() as u32;
        self.datetime.push(datetime);
        self.finish_token(TokenKind::DateTime, Some(DataIndex::from_index(id)))
    }

    /// The instant that the date-time written from `at` names, and where the token ends.
    fn scan_datetime(&self, at: usize, quote: u8) -> (found: Option<(Datetime, usize)>)
        requires
            self.wf(),
            at <= self.source().len(),
        ensures
            match found {
                Some((datetime, end)) => datetime_at(self.source(), at as int, quote) == Some(
                    (datetime@, end as int),
                ) && at < end <= self.source().len(),
                None => datetime_at(self.source(), at as int, quote) is None,
            },
    {
        let bytes = self.reader.full();
        let (datetime, end) = scan_instant(bytes, at)?;
        if end >= bytes.len() || bytes[end] != quote {
            return None;
        }
        Some((datetime, end + 1))
    }
}

/// The instant that the date-time written from `at` names, and where the date-time ends.
pub fn scan_instant(bytes: &[u8], at: usize) -> (found: Option<(Datetime, usize)>)
    requires
        at <= bytes@.len(),
    ensures
        match found {
            Some((datetime, end)) => instant_at(bytes@, at as int) == Some(
                (datetime@, end as int),
            ) && at < end <= bytes@.len(),
            None => instant_at(bytes@, at as int) is None,
        },
{
    let year = scan_decimal(bytes, at, 4)?;
    if bytes.len() - at < 19 {
        return None;
    }
    let month = scan_decimal(bytes, at + 5, 2)?;
    let day = scan_decimal(bytes, at + 8, 2)?;
    let hour = scan_decimal(bytes, at + 11, 2)?;
    let minute = scan_decimal(bytes, at + 14, 2)?;
    let second = scan_decimal(bytes, at + 17, 2)?;
    if bytes[at + 4] != '-' as u8 || bytes[at + 7] != '-' as u8 || bytes[at + 10] != 'T' as u8
        || bytes[at + 13] != ':' as u8 || bytes[at + 16] != ':' as u8 {
        return None;
    }
    let (nanos, fraction_end) = scan_fraction_nanos(bytes, at + 19)?;
    let (offset, zone_end) = scan_zone(bytes, fraction_end)?;
    let local = civil_to_seconds(year as i32, month, day, hour, minute, second)?;
    let seconds = local as i128 - offset as i128;
    if seconds < -9223372036854775808i128 || seconds > 9223372036854775807i128 {
        return None;
    }
    let datetime = Datetime::from_timestamp(seconds as i64, nanos)?;
    Some((datetime, zone_end))
}

} // verus!

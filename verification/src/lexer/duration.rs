//! Durations: whole numbers with units, one after the other, as in `7d12h`.

use vstd::prelude::*;
use crate::lexer::ident::ident_byte;
use crate::lexer::ident::is_ident_byte;
use crate::lexer::number::digit;
use crate::lexer::number::digit_run;
use crate::lexer::number::digits_up_to;
use crate::lexer::number::digits_value;
use crate::lexer::number::is_digit;
use crate::lexer::number::lemma_digit_run_at;
use crate::lexer::number::scan_digits;
use crate::lexer::Error;
use crate::lexer::Lexer;
use crate::lexer::TABLE_LIMIT;
use crate::time::Duration;
use crate::token::DataIndex;
use crate::token::Token;
use crate::token::TokenKind;

verus! {

/// Nanoseconds in a second.
pub const SECOND: u64 = 1_000_000_000;

/// The most nanoseconds that a duration holds.
pub open spec fn most_nanos() -> nat {
    (u64::MAX as nat) * (SECOND as nat) + 999_999_999
}

/// The unit that stands at `at`: how many nanoseconds it is, and how many bytes it takes.
/// The units are `ns`, `us` or `µs`, `ms`, `s`, `m`, `h`, `d`, `w` and `y`.
pub open spec fn unit_at(src: Seq<u8>, at: int) -> Option<(u64, int)> {
    if at < 0 || at >= src.len() {
        None
    } else if at + 1 < src.len() && src[at + 1] == 's' as u8 && src[at] == 'n' as u8 {
        Some((1, 2))
    } else if at + 1 < src.len() && src[at + 1] == 's' as u8 && src[at] == 'u' as u8 {
        Some((1_000, 2))
    } else if at + 1 < src.len() && src[at + 1] == 's' as u8 && src[at] == 'm' as u8 {
        Some((1_000_000, 2))
    } else if at + 2 < src.len() && src[at] == 0xc2 && src[at + 1] == 0xb5 && src[at + 2]
        == 's' as u8 {
        Some((1_000, 3))
    } else if src[at] == 's' as u8 {
        Some((1_000_000_000, 1))
    } else if src[at] == 'm' as u8 {
        Some((60_000_000_000, 1))
    } else if src[at] == 'h' as u8 {
        Some((3_600_000_000_000, 1))
    } else if src[at] == 'd' as u8 {
        Some((86_400_000_000_000, 1))
    } else if src[at] == 'w' as u8 {
        Some((604_800_000_000_000, 1))
    } else if src[at] == 'y' as u8 {
        Some((31_536_000_000_000_000, 1))
    } else {
        None
    }
}

/// The duration that starts at `at`, a digit: its nanoseconds and where it ends. After each
/// unit the duration goes on where a digit follows.
pub open spec fn duration_at(src: Seq<u8>, at: int) -> Option<(nat, int)>
    decreases src.len() - at,
{
    let digits_end = at + digit_run(src.skip(at));
    if at < 0 || at >= src.len() || digits_end == at {
        None
    } else {
        match unit_at(src, digits_end) {
            None => None,
            Some((unit, len)) => {
                let part = digits_value(src.subrange(at, digits_end)) * (unit as nat);
                let next = digits_end + len;
                if next < src.len() && is_digit(src[next]) {
                    match duration_at(src, next) {
                        Some((more, end)) => Some((part + more, end)),
                        None => None,
                    }
                } else {
                    Some((part, next))
                }
            },
        }
    }
}

/// Whether a duration starts at `from`: its parts are well-formed, it is not too long, and
/// what follows it could not go on an identifier.
pub open spec fn duration_valid(src: Seq<u8>, from: int) -> bool {
    duration_at(src, from) matches Some((nanos, end)) && nanos <= most_nanos() && !(end
        < src.len() && is_ident_byte(src[end]))
}

/// The unit that stands at `at`.
pub fn scan_unit(bytes: &[u8], at: usize) -> (unit: Option<(u64, usize)>)
    requires
        at <= bytes@.len(),
    ensures
        match unit {
            Some((nanos, len)) => unit_at(bytes@, at as int) == Some((nanos, len as int)) && at
                + len <= bytes@.len() && 1 <= len <= 3 && nanos <= 31_536_000_000_000_000,
            None => unit_at(bytes@, at as int) is None,
        },
{
    let n = bytes.len();
    if at >= n {
        return None;
    }
    let b = bytes[at];
    if n - at >= 2 && bytes[at + 1] == 's' as u8 && b == 'n' as u8 {
        Some((1, 2))
    } else if n - at >= 2 && bytes[at + 1] == 's' as u8 && b == 'u' as u8 {
        Some((1_000, 2))
    } else if n - at >= 2 && bytes[at + 1] == 's' as u8 && b == 'm' as u8 {
        Some((1_000_000, 2))
    } else if n - at >= 3 && b == 0xc2 && bytes[at + 1] == 0xb5 && bytes[at + 2] == 's' as u8 {
        Some((1_000, 3))
    } else if b == 's' as u8 {
        Some((1_000_000_000, 1))
    } else if b == 'm' as u8 {
        Some((60_000_000_000, 1))
    } else if b == 'h' as u8 {
        Some((3_600_000_000_000, 1))
    } else if b == 'd' as u8 {
        Some((86_400_000_000_000, 1))
    } else if b == 'w' as u8 {
        Some((604_800_000_000_000, 1))
    } else if b == 'y' as u8 {
        Some((31_536_000_000_000_000, 1))
    } else {
        None
    }
}

/// The duration that starts at `from`: its nanoseconds and where it ends, unless it is
/// malformed or too long.
pub fn scan_duration(bytes: &[u8], from: usize) -> (found: Option<(u128, usize)>)
    requires
        from <= bytes@.len(),
    ensures
        match found {
            Some((nanos, end)) => duration_at(bytes@, from as int) == Some(
                (nanos as nat, end as int),
            ) && nanos <= most_nanos() && from < end <= bytes@.len(),
            None => !(duration_at(bytes@, from as int) matches Some((nanos, _)) && nanos
                <= most_nanos()),
        },
{
    let limit: u128 = 18446744073709551615u128 * 1_000_000_000u128 + 999_999_999u128;
    let n = bytes.len();
    let mut total: u128 = 0;
    let mut at = from;
    loop
        invariant
            from <= at <= bytes@.len(),
            bytes@.len() <= usize::MAX,
            limit == most_nanos(),
            total <= limit,
            at > from || total == 0,
            duration_at(bytes@, from as int) == match duration_at(bytes@, at as int) {
                Some((more, end)) => Some(((total as nat + more) as nat, end)),
                None => None::<(nat, int)>,
            },
        decreases bytes@.len() - at,
    {
        let digits_end = scan_digits(bytes, at);
        if digits_end == at {
            return None;
        }
        proof {
            lemma_digit_run_at(bytes@, at as int);
        }
        let (unit, len) = match scan_unit(bytes, digits_end) {
            Some(unit) => unit,
            None => return None,
        };
        let ghost digits = digits_value(bytes@.subrange(at as int, digits_end as int));
        let next = digits_end + len;
        let goes_on = next < bytes.len() && digit(bytes[next]);
        proof {
            lemma_duration_at_least(bytes@, at as int);
        }
        let value = match digits_up_to(bytes, at, digits_end, limit) {
            Some(value) => value,
            None => {
                proof {
                    assert(digits * (unit as nat) >= digits) by (nonlinear_arith)
                        requires
                            unit >= 1,
                    ;
                }
                return None;
            },
        };
        if value > (limit - total) / (unit as u128) {
            proof {
                assert(digits * (unit as nat) > limit - total) by (nonlinear_arith)
                    requires
                        digits > (limit - total) / (unit as int),
                        unit >= 1,
                        limit - total >= 0,
                ;
            }
            return None;
        }
        proof {
            assert(digits * (unit as nat) <= limit - total) by (nonlinear_arith)
                requires
                    digits <= (limit - total) / (unit as int),
                    unit >= 1,
                    limit - total >= 0,
            ;
        }
        let part_nanos = value * (unit as u128);
        total = total + part_nanos;
        if !goes_on {
            return Some((total, next));
        }
        at = next;
    }
}

/// A duration is at least as long as its first part.
pub proof fn lemma_duration_at_least(src: Seq<u8>, at: int)
    ensures
        duration_at(src, at) matches Some((nanos, _)) ==> ({
            let digits_end = at + digit_run(src.skip(at));
            unit_at(src, digits_end) matches Some((unit, _)) && nanos >= digits_value(
                src.subrange(at, digits_end),
            ) * (unit as nat)
        }),
{
}

/// What holds where the lexer lexed the duration that starts at `from`: the token is a
/// duration where one is written there and the table has room, and then the table holds, at
/// its end, the seconds and nanoseconds of the duration. Else the token is invalid and the
/// fault is kept.
pub open spec fn duration_lexed(before: &Lexer, after: &Lexer, token: Token, from: int) -> bool {
    let src = before.source();
    &&& (token.kind is Duration || token.kind is Invalid)
    &&& token.kind is Duration <==> duration_valid(src, from) && before.durations@.len()
        < TABLE_LIMIT
    &&& token.kind is Duration ==> {
        let (nanos, end) = duration_at(src, from)->Some_0;
        &&& token.span.end() == end
        &&& after.error == before.error
        &&& after.durations@.len() == before.durations@.len() + 1
        &&& after.durations@.last()@ == ((nanos / 1_000_000_000) as u64, (nanos
            % 1_000_000_000) as u32)
        &&& token.data_index == Some(DataIndex::from_index_spec(before.durations@.len() as u32))
    }
    &&& token.kind is Invalid ==> after.durations == before.durations && after.error == Some(
        if duration_valid(src, from) {
            Error::TooManyValues
        } else {
            Error::Duration
        },
    )
}

impl<'a> Lexer<'a> {
    /// Lexes the duration that starts where the token starts. Its first byte, a digit, was
    /// read last.
    pub fn lex_duration(&mut self) -> (token: Token)
        requires
            old(self).wf(),
            old(self).reader.position() == old(self).last_offset + 1,
        ensures
            final(self).wf(),
            final(self).follows(old(self)),
            final(self).holds(token),
            final(self).spanned(token, old(self).last_offset as int),
            final(self).strings == old(self).strings,
            final(self).numbers == old(self).numbers,
            final(self).datetime == old(self).datetime,
            final(self).uuid == old(self).uuid,
            duration_lexed(old(self), final(self), token, old(self).last_offset as int),
            final(self).reader.position() > old(self).last_offset,
    {
        let source = self.reader.full();
        let from = self.last_offset as usize;
        proof {
            self.reader.lemma_bounds();
        }
        let (nanos, end) = match scan_duration(source, from) {
            Some(found) => found,
            None => return self.invalid_token(Error::Duration),
        };
        self.reader.backup(from);
        self.reader.advance(end - from);
        if end < source.len() && ident_byte(source[end]) {
            return self.invalid_token(Error::Duration);
        }
        if self.durations.len() >= TABLE_LIMIT {
            return self.invalid_token(Error::TooManyValues);
        }
        let secs = (nanos / 1_000_000_000) as u64;
        let rest = (nanos % 1_000_000_000) as u32;
        let duration = match Duration::new(secs, rest) {
            Some(duration) => duration,
            None => return self.invalid_token(Error::Duration),
        };
        let id = self.durations.len() as u32;
        self.durations.push(duration);
        self.finish_token(TokenKind::Duration, Some(DataIndex::from_index(id)))
    }
}

} // verus!

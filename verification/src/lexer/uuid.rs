//! Uuids between quotes behind the letter `u`, as in `u'e72bee20-f49b-11ec-b939-0242ac120002'`.

use vstd::prelude::*;
use crate::lexer::strand::hex_digit;
use crate::lexer::strand::hex_value;
use crate::lexer::Error;
use crate::lexer::Lexer;
use crate::lexer::TABLE_LIMIT;
use crate::token::DataIndex;
use crate::token::Token;
use crate::token::TokenKind;
use crate::value::Uuid;

verus! {

/// Where the two digits of the byte `k` of a uuid stand, counted from its start: the
/// digits stand in groups of 8, 4, 4, 4 and 12, with a dash between the groups.
pub open spec fn digits_at(k: int) -> int {
    2 * k + if k < 4 {
        0int
    } else if k < 6 {
        1int
    } else if k < 8 {
        2int
    } else if k < 10 {
        3int
    } else {
        4int
    }
}

/// Whether a dash stands at this place of a uuid.
pub open spec fn dash_at(i: int) -> bool {
    i == 8 || i == 13 || i == 18 || i == 23
}

/// Whether the 36 bytes from `at` are written as a uuid is, and `quote` follows them.
pub open spec fn uuid_written(src: Seq<u8>, at: int, quote: u8) -> bool {
    &&& 0 <= at
    &&& at + 36 < src.len()
    &&& src[at + 36] == quote
    &&& forall|i: int|
        0 <= i < 36 ==> if dash_at(i) {
            src[at + i] == '-' as u8
        } else {
            hex_value(#[trigger] src[at + i]) is Some
        }
}

/// The byte `k` of the uuid that is written from `at`.
pub open spec fn uuid_byte(src: Seq<u8>, at: int, k: int) -> u8 {
    (hex_value(src[at + digits_at(k)])->Some_0 * 16 + hex_value(
        src[at + digits_at(k) + 1],
    )->Some_0) as u8
}

/// The sixteen bytes of the uuid that is written from `at`.
pub open spec fn uuid_bytes(src: Seq<u8>, at: int) -> Seq<u8> {
    Seq::new(16, |k: int| uuid_byte(src, at, k))
}

/// Where the two digits of the byte `k` of a uuid stand.
fn place(k: usize) -> (at: usize)
    requires
        k < 16,
    ensures
        at == digits_at(k as int),
        at + 1 < 36,
        !dash_at(at as int),
        !dash_at(at + 1),
{
    2 * k + if k < 4 {
        0
    } else if k < 6 {
        1
    } else if k < 8 {
        2
    } else if k < 10 {
        3
    } else {
        4
    }
}

/// The uuid that is written from `at`, where one is and `quote` follows it.
pub fn scan_uuid(bytes: &[u8], at: usize, quote: u8) -> (found: Option<[u8; 16]>)
    requires
        at <= bytes@.len(),
    ensures
        match found {
            Some(uuid) => uuid_written(bytes@, at as int, quote) && uuid@ == uuid_bytes(
                bytes@,
                at as int,
            ),
            None => !uuid_written(bytes@, at as int, quote),
        },
{
    if bytes.len() - at < 37 || bytes[at + 36] != quote {
        return None;
    }
    if bytes[at + 8] != '-' as u8 || bytes[at + 13] != '-' as u8 || bytes[at + 18] != '-' as u8
        || bytes[at + 23] != '-' as u8 {
        proof {
            assert(dash_at(8) && dash_at(13) && dash_at(18) && dash_at(23));
        }
        return None;
    }
    let mut uuid = [0u8; 16];
    let mut k: usize = 0;
    while k < 16
        invariant
            k <= 16,
            at + 36 < bytes@.len(),
            bytes@.len() <= usize::MAX,
            forall|j: int|
                #![trigger digits_at(j)]
                0 <= j < k ==> hex_value(bytes@[at + digits_at(j)]) is Some && hex_value(
                    bytes@[at + digits_at(j) + 1],
                ) is Some && uuid@[j] == uuid_byte(bytes@, at as int, j),
        decreases 16 - k,
    {
        let p = at + place(k);
        let ghost before = uuid@;
        let high = match hex_digit(bytes[p]) {
            Some(v) => v,
            None => {
                assert(hex_value(bytes@[at + digits_at(k as int)]) is None);
                return None;
            },
        };
        let low = match hex_digit(bytes[p + 1]) {
            Some(v) => v,
            None => {
                assert(hex_value(bytes@[at + (digits_at(k as int) + 1)]) is None);
                return None;
            },
        };
        uuid[k] = high * 16 + low;
        proof {
            assert(uuid@[k as int] == uuid_byte(bytes@, at as int, k as int));
            assert forall|j: int| #![trigger digits_at(j)] 0 <= j < k + 1 implies hex_value(
                bytes@[at + digits_at(j)],
            ) is Some && hex_value(bytes@[at + digits_at(j) + 1]) is Some && uuid@[j]
                == uuid_byte(bytes@, at as int, j) by {
                if j < k {
                    assert(uuid@[j] == before[j]);
                }
            }
        }
        k += 1;
    }
    proof {
        assert forall|i: int| 0 <= i < 36 && !dash_at(i) implies hex_value(
            #[trigger] bytes@[at + i],
        ) is Some by {
            let j = if i < 8 {
                i / 2
            } else if i < 13 {
                (i - 1) / 2
            } else if i < 18 {
                (i - 2) / 2
            } else if i < 23 {
                (i - 3) / 2
            } else {
                (i - 4) / 2
            };
            assert(0 <= j < 16);
            assert(i == digits_at(j) || i == digits_at(j) + 1);
            assert(uuid@[j] == uuid_byte(bytes@, at as int, j));
        }
        assert(uuid@ =~= uuid_bytes(bytes@, at as int));
    }
    Some(uuid)
}

/// What holds where the lexer lexed the uuid that starts at `from` with the letter `u`
/// and the quote `quote`: the token is a uuid where one is written there and the table has
/// room, and then the table holds, at its end, the bytes of the uuid. Else the token is
/// invalid and the fault is kept.
pub open spec fn uuid_lexed(
    before: &Lexer,
    after: &Lexer,
    token: Token,
    from: int,
    quote: u8,
) -> bool {
    let src = before.source();
    let at = from + 2;
    &&& (token.kind is Uuid || token.kind is Invalid)
    &&& token.kind is Uuid <==> uuid_written(src, at, quote) && before.uuid@.len() < TABLE_LIMIT
    &&& token.kind is Uuid ==> {
        &&& token.span.end() == at + 37
        &&& after.error == before.error
        &&& after.uuid@.len() == before.uuid@.len() + 1
        &&& after.uuid@.last()@ == uuid_bytes(src, at)
        &&& token.data_index == Some(DataIndex::from_index_spec(before.uuid@.len() as u32))
    }
    &&& token.kind is Invalid ==> after.uuid == before.uuid && after.error == Some(
        if uuid_written(src, at, quote) {
            Error::TooManyValues
        } else {
            Error::Uuid
        },
    )
}

impl<'a> Lexer<'a> {
    /// Lexes the uuid behind the letter `u` and the quote `quote`, which was read last.
    pub fn lex_uuid(&mut self, quote: u8) -> (token: Token)
        requires
            old(self).wf(),
            old(self).reader.position() == old(self).last_offset + 2,
        ensures
            final(self).wf(),
            final(self).follows(old(self)),
            final(self).holds(token),
            final(self).spanned(token, old(self).last_offset as int),
            final(self).strings == old(self).strings,
            final(self).numbers == old(self).numbers,
            final(self).durations == old(self).durations,
            final(self).datetime == old(self).datetime,
            uuid_lexed(old(self), final(self), token, old(self).last_offset as int, quote),
            final(self).reader.position() > old(self).last_offset,
    {
        let at = self.reader.offset();
        proof {
            self.reader.lemma_bounds();
        }
        let bytes = match scan_uuid(self.reader.full(), at, quote) {
            Some(bytes) => bytes,
            None => return self.invalid_token(Error::Uuid),
        };
        self.reader.advance(37);
        if self.uuid.len() >= TABLE_LIMIT {
            return self.invalid_token(Error::TooManyValues);
        }
        let id = self.uuid.len() as u32;
        self.uuid.push(Uuid::from_bytes(bytes));
        self.finish_token(TokenKind::Uuid, Some(DataIndex::from_index(id)))
    }
}

} // verus!

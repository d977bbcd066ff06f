//! The wire form of values.
//!
//! A value is written as its revision, the number of its variant, and what the variant
//! holds. Texts, byte strings, arrays and objects are preceded by their length. The reader
//! accepts exactly what the writer produces: an integer must be in its shortest form, the
//! keys of an object must ascend, and a duration, an instant or a decimal must be valid.

use vstd::prelude::*;
use vstd::utf8::decode_utf8;
use vstd::utf8::encode_utf8;
use vstd::utf8::valid_utf8;
use crate::number::decimal_canonical_form;
use crate::number::Decimal;
use crate::number::Number;
use crate::number::NumberView;
use crate::time::timestamp_in_range;
use crate::time::NANOS_PER_SEC;
use crate::time::Datetime;
use crate::time::Duration;
use crate::value::items_view;
use crate::value::key_lt;
use crate::value::Bytes;
use crate::value::Object;
use crate::value::RecordId;
use crate::value::RecordIdKey;
use crate::value::Uuid;
use crate::value::Value;
use crate::value::KeyView;
use crate::value::ValueView;
use crate::wire::bool_byte;
use crate::wire::le_bytes;
use crate::wire::le_value;
use crate::wire::parse_bool;
use crate::wire::parse_varint;
use crate::wire::signed_varint;
use crate::wire::unzigzag;
use crate::wire::varint;

verus! {

/// Why bytes were not read as a value.
#[derive(Clone, Copy, PartialEq, Eq, Structural, Debug)]
pub enum DecodeError {
    /// The bytes end too early, or hold something that no value is written as.
    Malformed,
    /// A revision other than the one this library writes.
    DecodeRevision,
    /// A variant number that stands for no variant.
    DecodeVariant,
}

/// The revision that every part of a value is written with.
pub const REVISION: u16 = 1;

/// A text on the wire: the count of its UTF-8 bytes, then the bytes.
pub open spec fn text_wire(text: Seq<char>) -> Seq<u8> {
    varint(encode_utf8(text).len() as u64) + encode_utf8(text)
}

/// A byte string on the wire: its length, then the bytes.
pub open spec fn bytes_wire(bytes: Seq<u8>) -> Seq<u8> {
    varint(bytes.len() as u64) + bytes
}

/// A number on the wire.
pub open spec fn number_wire(number: NumberView) -> Seq<u8> {
    varint(REVISION as u64) + match number {
        NumberView::Integer(i) => varint(0) + signed_varint(i),
        NumberView::Float(bits) => varint(1) + le_bytes(bits as nat, 8),
        NumberView::Decimal(bytes) => varint(2) + bytes,
    }
}

/// A duration on the wire, after its variant number: a revision, the seconds and the
/// nanoseconds.
pub open spec fn duration_wire(secs: u64, nanos: u32) -> Seq<u8> {
    varint(REVISION as u64) + (varint(secs) + varint(nanos as u64))
}

/// An instant on the wire, after its variant number: the seconds and the nanoseconds.
pub open spec fn datetime_wire(secs: i64, nanos: u32) -> Seq<u8> {
    signed_varint(secs) + varint(nanos as u64)
}

/// A uuid on the wire, after its variant number: a revision and the sixteen bytes.
pub open spec fn uuid_wire(bytes: Seq<u8>) -> Seq<u8> {
    varint(REVISION as u64) + bytes
}

/// A value on the wire: the revision, the number of the variant, and what it holds.
pub open spec fn value_wire(value: ValueView) -> Seq<u8>
    decreases value, 0nat,
{
    varint(REVISION as u64) + match value {
        ValueView::Nothing => varint(0) + Seq::empty(),
        ValueView::Null => varint(1) + Seq::empty(),
        ValueView::Bool(b) => varint(2) + bool_byte(b),
        ValueView::Number(n) => varint(3) + number_wire(n),
        ValueView::String(s) => varint(4) + text_wire(s),
        ValueView::Duration { secs, nanos } => varint(5) + duration_wire(secs, nanos),
        ValueView::Datetime { secs, nanos } => varint(6) + datetime_wire(secs, nanos),
        ValueView::Uuid(bytes) => varint(7) + uuid_wire(bytes),
        ValueView::Array(items) => varint(8) + array_wire(items),
        ValueView::Object(entries) => varint(9) + object_wire(entries),
        ValueView::Bytes(bytes) => varint(11) + bytes_wire(bytes),
        ValueView::RecordId { table, key } => varint(12) + record_wire(table, key),
    }
}

/// An array on the wire, after its variant number: a revision, the count of the items,
/// and the items.
pub open spec fn array_wire(items: Seq<ValueView>) -> Seq<u8>
    decreases items, 1nat,
{
    varint(REVISION as u64) + (varint(items.len() as u64) + items_wire(items))
}

/// The items of an array on the wire, one after the other.
pub open spec fn items_wire(items: Seq<ValueView>) -> Seq<u8>
    decreases items, 0nat,
{
    if items.len() == 0 {
        Seq::empty()
    } else {
        value_wire(items[0]) + items_wire(items.skip(1))
    }
}

/// Entries on the wire: their count, and the entries.
pub open spec fn counted_entries_wire(entries: Seq<(Seq<char>, ValueView)>) -> Seq<u8>
    decreases entries, 1nat,
{
    varint(entries.len() as u64) + entries_wire(entries)
}

/// An object on the wire, after its variant number: a revision and the counted entries.
pub open spec fn object_wire(entries: Seq<(Seq<char>, ValueView)>) -> Seq<u8>
    decreases entries, 2nat,
{
    varint(REVISION as u64) + counted_entries_wire(entries)
}

/// The entries of an object on the wire: each key, then its value.
pub open spec fn entries_wire(entries: Seq<(Seq<char>, ValueView)>) -> Seq<u8>
    decreases entries, 0nat,
{
    if entries.len() == 0 {
        Seq::empty()
    } else {
        text_wire(entries[0].0) + (value_wire(entries[0].1) + entries_wire(entries.skip(1)))
    }
}

/// The key of a record id on the wire: the revision, the number of the variant, and
/// what it holds.
pub open spec fn key_wire(key: KeyView) -> Seq<u8>
    decreases key, 0nat,
{
    varint(REVISION as u64) + match key {
        KeyView::Integer(i) => varint(0) + signed_varint(i),
        KeyView::String(s) => varint(1) + text_wire(s),
        KeyView::Array(items) => varint(2) + array_wire(items),
        KeyView::Object(entries) => varint(3) + counted_entries_wire(entries),
    }
}

/// A record id on the wire: a revision, its table, then its key.
pub open spec fn record_wire(table: Seq<char>, key: KeyView) -> Seq<u8>
    decreases key, 1nat,
{
    varint(REVISION as u64) + (text_wire(table) + key_wire(key))
}

/// Reads an unsigned integer that is written in its shortest form.
pub open spec fn read_u64(bytes: Seq<u8>) -> Option<(u64, Seq<u8>)> {
    match parse_varint(bytes) {
        Some((n, rest)) => if rest.len() + varint(n).len() == bytes.len() {
            Some((n, rest))
        } else {
            None
        },
        None => None,
    }
}

/// Reads a revision or a variant number: an unsigned integer of at most 32 bits.
pub open spec fn read_u32(bytes: Seq<u8>) -> Option<(u32, Seq<u8>)> {
    match read_u64(bytes) {
        Some((n, rest)) => if n <= u32::MAX {
            Some((n as u32, rest))
        } else {
            None
        },
        None => None,
    }
}

/// Reads a signed integer that is written in its shortest form.
pub open spec fn read_i64(bytes: Seq<u8>) -> Option<(i64, Seq<u8>)> {
    match read_u64(bytes) {
        Some((n, rest)) => Some((unzigzag(n), rest)),
        None => None,
    }
}

/// Takes `count` bytes off the front.
pub open spec fn read_raw(bytes: Seq<u8>, count: nat) -> Option<(Seq<u8>, Seq<u8>)> {
    if count <= bytes.len() {
        Some((bytes.take(count as int), bytes.skip(count as int)))
    } else {
        None
    }
}

/// Reads a byte string: its length, then as many bytes.
pub open spec fn read_bytes(bytes: Seq<u8>) -> Option<(Seq<u8>, Seq<u8>)> {
    match read_u64(bytes) {
        Some((len, rest)) => read_raw(rest, len as nat),
        None => None,
    }
}

/// Reads a text: a byte string that is well-formed UTF-8.
pub open spec fn read_text(bytes: Seq<u8>) -> Option<(Seq<char>, Seq<u8>)> {
    match read_bytes(bytes) {
        Some((raw, rest)) => if valid_utf8(raw) {
            Some((decode_utf8(raw), rest))
        } else {
            None
        },
        None => None,
    }
}

/// Reads a revision, which must be the one this library writes.
pub open spec fn read_revision(bytes: Seq<u8>) -> Result<Seq<u8>, DecodeError> {
    match read_u32(bytes) {
        Some((revision, rest)) => if revision == REVISION {
            Ok(rest)
        } else {
            Err(DecodeError::DecodeRevision)
        },
        None => Err(DecodeError::Malformed),
    }
}

/// Reads what a number holds, after its revision and variant number.
pub open spec fn read_number_body(variant: u32, bytes: Seq<u8>) -> Result<
    (NumberView, Seq<u8>),
    DecodeError,
> {
    if variant == 0 {
        match read_i64(bytes) {
            Some((i, rest)) => Ok((NumberView::Integer(i), rest)),
            None => Err(DecodeError::Malformed),
        }
    } else if variant == 1 {
        match read_raw(bytes, 8) {
            Some((raw, rest)) => Ok((NumberView::Float(le_value(raw) as u64), rest)),
            None => Err(DecodeError::Malformed),
        }
    } else if variant == 2 {
        match read_raw(bytes, 16) {
            Some((raw, rest)) => if decimal_canonical_form(raw) == raw {
                Ok((NumberView::Decimal(raw), rest))
            } else {
                Err(DecodeError::Malformed)
            },
            None => Err(DecodeError::Malformed),
        }
    } else {
        Err(DecodeError::DecodeVariant)
    }
}

/// Reads a number.
pub open spec fn read_number(bytes: Seq<u8>) -> Result<(NumberView, Seq<u8>), DecodeError> {
    match read_revision(bytes) {
        Err(e) => Err(e),
        Ok(rest) => match read_u32(rest) {
            None => Err(DecodeError::Malformed),
            Some((variant, rest)) => read_number_body(variant, rest),
        },
    }
}

/// Reads a duration, after its variant number: a revision, the seconds, and nanoseconds
/// below one second.
pub open spec fn read_duration(bytes: Seq<u8>) -> Result<(ValueView, Seq<u8>), DecodeError> {
    match read_revision(bytes) {
        Err(e) => Err(e),
        Ok(rest) => match read_u64(rest) {
            None => Err(DecodeError::Malformed),
            Some((secs, rest)) => match read_u32(rest) {
                None => Err(DecodeError::Malformed),
                Some((nanos, rest)) => if nanos < NANOS_PER_SEC {
                    Ok((ValueView::Duration { secs, nanos }, rest))
                } else {
                    Err(DecodeError::Malformed)
                },
            },
        },
    }
}

/// Reads an instant, after its variant number: the seconds and the nanoseconds, which
/// must name an instant that the calendar can hold.
pub open spec fn read_datetime(bytes: Seq<u8>) -> Result<(ValueView, Seq<u8>), DecodeError> {
    match read_i64(bytes) {
        None => Err(DecodeError::Malformed),
        Some((secs, rest)) => match read_u32(rest) {
            None => Err(DecodeError::Malformed),
            Some((nanos, rest)) => if timestamp_in_range(secs, nanos) {
                Ok((ValueView::Datetime { secs, nanos }, rest))
            } else {
                Err(DecodeError::Malformed)
            },
        },
    }
}

/// Reads a uuid, after its variant number: a revision and sixteen bytes.
pub open spec fn read_uuid(bytes: Seq<u8>) -> Result<(ValueView, Seq<u8>), DecodeError> {
    match read_revision(bytes) {
        Err(e) => Err(e),
        Ok(rest) => match read_raw(rest, 16) {
            Some((raw, rest)) => Ok((ValueView::Uuid(raw), rest)),
            None => Err(DecodeError::Malformed),
        },
    }
}

/// Reads an array, after its variant number: a revision, the count of the items, and the
/// items.
pub open spec fn read_array(bytes: Seq<u8>) -> Result<(Seq<ValueView>, Seq<u8>), DecodeError>
    decreases bytes.len(), 1nat,
{
    match read_revision(bytes) {
        Err(e) => Err(e),
        Ok(rest) => match read_u64(rest) {
            None => Err(DecodeError::Malformed),
            Some((count, rest)) => if rest.len() < bytes.len() {
                read_items(rest, count as nat, Seq::empty())
            } else {
                Err(DecodeError::Malformed)
            },
        },
    }
}

/// Reads the entries of an object: their count, and the entries.
pub open spec fn read_counted_entries(bytes: Seq<u8>) -> Result<
    (Seq<(Seq<char>, ValueView)>, Seq<u8>),
    DecodeError,
>
    decreases bytes.len(), 1nat,
{
    match read_u64(bytes) {
        None => Err(DecodeError::Malformed),
        Some((count, rest)) => if rest.len() < bytes.len() {
            read_entries(rest, count as nat, Seq::empty())
        } else {
            Err(DecodeError::Malformed)
        },
    }
}

/// Reads an object, after its variant number: a revision, and the counted entries.
pub open spec fn read_object(bytes: Seq<u8>) -> Result<
    (Seq<(Seq<char>, ValueView)>, Seq<u8>),
    DecodeError,
>
    decreases bytes.len(), 2nat,
{
    match read_revision(bytes) {
        Err(e) => Err(e),
        Ok(rest) => if rest.len() <= bytes.len() {
            read_counted_entries(rest)
        } else {
            Err(DecodeError::Malformed)
        },
    }
}

/// Reads what a value holds, after its revision and variant number.
pub open spec fn read_variant(variant: u32, bytes: Seq<u8>) -> Result<
    (ValueView, Seq<u8>),
    DecodeError,
>
    decreases bytes.len(), 3nat,
{
    if variant == 0 {
        Ok((ValueView::Nothing, bytes))
    } else if variant == 1 {
        Ok((ValueView::Null, bytes))
    } else if variant == 2 {
        match parse_bool(bytes) {
            Some((b, rest)) => Ok((ValueView::Bool(b), rest)),
            None => Err(DecodeError::Malformed),
        }
    } else if variant == 3 {
        match read_number(bytes) {
            Ok((n, rest)) => Ok((ValueView::Number(n), rest)),
            Err(e) => Err(e),
        }
    } else if variant == 4 {
        match read_text(bytes) {
            Some((s, rest)) => Ok((ValueView::String(s), rest)),
            None => Err(DecodeError::Malformed),
        }
    } else if variant == 5 {
        read_duration(bytes)
    } else if variant == 6 {
        read_datetime(bytes)
    } else if variant == 7 {
        read_uuid(bytes)
    } else if variant == 8 {
        match read_array(bytes) {
            Ok((items, rest)) => Ok((ValueView::Array(items), rest)),
            Err(e) => Err(e),
        }
    } else if variant == 9 {
        match read_object(bytes) {
            Ok((entries, rest)) => Ok((ValueView::Object(entries), rest)),
            Err(e) => Err(e),
        }
    } else if variant == 11 {
        match read_bytes(bytes) {
            Some((raw, rest)) => Ok((ValueView::Bytes(raw), rest)),
            None => Err(DecodeError::Malformed),
        }
    } else if variant == 12 {
        match read_record(bytes) {
            Ok(((table, key), rest)) => Ok((ValueView::RecordId { table, key }, rest)),
            Err(e) => Err(e),
        }
    } else {
        Err(DecodeError::DecodeVariant)
    }
}

/// Reads a value off the front of `bytes`: the value and the bytes that follow it, or the
/// first fault met. (Reading takes bytes off the front, so the tests for that, here and
/// below, never fail.)
pub open spec fn read_value(bytes: Seq<u8>) -> Result<(ValueView, Seq<u8>), DecodeError>
    decreases bytes.len(), 0nat,
{
    match read_revision(bytes) {
        Err(e) => Err(e),
        Ok(rest) => match read_u32(rest) {
            None => Err(DecodeError::Malformed),
            Some((variant, body)) => if body.len() < bytes.len() {
                read_variant(variant, body)
            } else {
                Err(DecodeError::Malformed)
            },
        },
    }
}

/// Reads `count` more items behind those already read.
pub open spec fn read_items(bytes: Seq<u8>, count: nat, read: Seq<ValueView>) -> Result<
    (Seq<ValueView>, Seq<u8>),
    DecodeError,
>
    decreases bytes.len(), count + 1,
{
    if count == 0 {
        Ok((read, bytes))
    } else {
        match read_value(bytes) {
            Err(e) => Err(e),
            Ok((item, rest)) => if rest.len() < bytes.len() {
                read_items(rest, (count - 1) as nat, read.push(item))
            } else {
                Err(DecodeError::Malformed)
            },
        }
    }
}

/// Reads `count` more entries behind those already read. Each key must come after the
/// key before it.
pub open spec fn read_entries(
    bytes: Seq<u8>,
    count: nat,
    read: Seq<(Seq<char>, ValueView)>,
) -> Result<(Seq<(Seq<char>, ValueView)>, Seq<u8>), DecodeError>
    decreases bytes.len(), count + 1,
{
    if count == 0 {
        Ok((read, bytes))
    } else {
        match read_text(bytes) {
            None => Err(DecodeError::Malformed),
            Some((key, after_key)) => if read.len() > 0 && !key_lt(read.last().0, key) {
                Err(DecodeError::Malformed)
            } else if after_key.len() < bytes.len() {
                match read_value(after_key) {
                    Err(e) => Err(e),
                    Ok((value, rest)) => if rest.len() < after_key.len() {
                        read_entries(rest, (count - 1) as nat, read.push((key, value)))
                    } else {
                        Err(DecodeError::Malformed)
                    },
                }
            } else {
                Err(DecodeError::Malformed)
            },
        }
    }
}

/// Reads what the key of a record id holds, after its revision and variant number.
pub open spec fn read_key_variant(variant: u32, bytes: Seq<u8>) -> Result<
    (KeyView, Seq<u8>),
    DecodeError,
>
    decreases bytes.len(), 3nat,
{
    if variant == 0 {
        match read_i64(bytes) {
            Some((i, rest)) => Ok((KeyView::Integer(i), rest)),
            None => Err(DecodeError::Malformed),
        }
    } else if variant == 1 {
        match read_text(bytes) {
            Some((s, rest)) => Ok((KeyView::String(s), rest)),
            None => Err(DecodeError::Malformed),
        }
    } else if variant == 2 {
        match read_array(bytes) {
            Ok((items, rest)) => Ok((KeyView::Array(items), rest)),
            Err(e) => Err(e),
        }
    } else if variant == 3 {
        match read_counted_entries(bytes) {
            Ok((entries, rest)) => Ok((KeyView::Object(entries), rest)),
            Err(e) => Err(e),
        }
    } else {
        Err(DecodeError::DecodeVariant)
    }
}

/// Reads the key of a record id.
pub open spec fn read_key(bytes: Seq<u8>) -> Result<(KeyView, Seq<u8>), DecodeError>
    decreases bytes.len(), 4nat,
{
    match read_revision(bytes) {
        Err(e) => Err(e),
        Ok(rest) => match read_u32(rest) {
            None => Err(DecodeError::Malformed),
            Some((variant, body)) => if body.len() <= bytes.len() {
                read_key_variant(variant, body)
            } else {
                Err(DecodeError::Malformed)
            },
        },
    }
}

/// Reads a record id: a revision, the table and the key.
pub open spec fn read_record(bytes: Seq<u8>) -> Result<
    ((Seq<char>, KeyView), Seq<u8>),
    DecodeError,
>
    decreases bytes.len(), 1nat,
{
    match read_revision(bytes) {
        Err(e) => Err(e),
        Ok(rest) => match read_text(rest) {
            None => Err(DecodeError::Malformed),
            Some((table, rest)) => if rest.len() < bytes.len() {
                match read_key(rest) {
                    Ok((key, rest)) => Ok(((table, key), rest)),
                    Err(e) => Err(e),
                }
            } else {
                Err(DecodeError::Malformed)
            },
        },
    }
}

/// How many bytes an unsigned integer takes on the wire.
fn varint_len(n: u64) -> (len: usize)
    ensures
        len == varint(n).len(),
        1 <= len <= 9,
{
    proof {
        crate::wire::lemma_le_bytes_len(n as nat, 2);
        crate::wire::lemma_le_bytes_len(n as nat, 4);
        crate::wire::lemma_le_bytes_len(n as nat, 8);
    }
    if n < 251 {
        1
    } else if n < 0x1_0000 {
        3
    } else if n < 0x1_0000_0000 {
        5
    } else {
        9
    }
}

/// Reads an unsigned integer in its shortest form.
fn take_strict_u64<'a>(input: &'a [u8]) -> (r: Option<(u64, &'a [u8])>)
    ensures
        match r {
            Some((n, rest)) => read_u64(input@) == Some((n, rest@)) && rest@.len() < input@.len(),
            None => read_u64(input@) is None,
        },
{
    match crate::wire::take_u64(input) {
        Some((n, rest)) => {
            if rest.len() < input.len() && input.len() - rest.len() == varint_len(n) {
                Some((n, rest))
            } else {
                None
            }
        },
        None => None,
    }
}

/// Reads an unsigned integer of at most 32 bits in its shortest form.
fn take_strict_u32<'a>(input: &'a [u8]) -> (r: Option<(u32, &'a [u8])>)
    ensures
        match r {
            Some((n, rest)) => read_u32(input@) == Some((n, rest@)) && rest@.len() < input@.len(),
            None => read_u32(input@) is None,
        },
{
    match take_strict_u64(input) {
        Some((n, rest)) => {
            if n <= 0xffff_ffff {
                Some((n as u32, rest))
            } else {
                None
            }
        },
        None => None,
    }
}

/// Whether `n` is even; then half of it, else minus half of it, less one.
fn unfold(n: u64) -> (v: i64)
    ensures
        v == unzigzag(n),
{
    if n % 2 == 0 {
        (n / 2) as i64
    } else {
        -((n / 2) as i64) - 1
    }
}

/// Reads a signed integer in its shortest form.
fn take_strict_i64<'a>(input: &'a [u8]) -> (r: Option<(i64, &'a [u8])>)
    ensures
        match r {
            Some((v, rest)) => read_i64(input@) == Some((v, rest@)) && rest@.len() < input@.len(),
            None => read_i64(input@) is None,
        },
{
    match take_strict_u64(input) {
        Some((n, rest)) => Some((unfold(n), rest)),
        None => None,
    }
}

/// Takes `count` bytes off the front.
fn take_raw<'a>(input: &'a [u8], count: usize) -> (r: Option<(&'a [u8], &'a [u8])>)
    ensures
        match r {
            Some((raw, rest)) => read_raw(input@, count as nat) == Some((raw@, rest@))
                && raw@.len() == count && rest@.len() + count == input@.len(),
            None => read_raw(input@, count as nat) is None,
        },
{
    if count <= input.len() {
        let (raw, rest) = input.split_at(count);
        Some((raw, rest))
    } else {
        None
    }
}

/// Reads a byte string.
fn take_bytes<'a>(input: &'a [u8]) -> (r: Option<(&'a [u8], &'a [u8])>)
    ensures
        match r {
            Some((raw, rest)) => read_bytes(input@) == Some((raw@, rest@)) && rest@.len()
                < input@.len(),
            None => read_bytes(input@) is None,
        },
{
    match take_strict_u64(input) {
        Some((len, rest)) => {
            if len <= rest.len() as u64 {
                take_raw(rest, len as usize)
            } else {
                None
            }
        },
        None => None,
    }
}

/// Reads a text.
fn take_text<'a>(input: &'a [u8]) -> (r: Option<(String, &'a [u8])>)
    ensures
        match r {
            Some((text, rest)) => read_text(input@) == Some((text@, rest@)) && rest@.len()
                < input@.len() && encode_utf8(text@).len() <= usize::MAX,
            None => read_text(input@) is None,
        },
{
    match take_bytes(input) {
        Some((raw, rest)) => {
            let raw_len = raw.len();
            let mut copy: Vec<u8> = Vec::new();
            copy.extend_from_slice(raw);
            assert(copy@ =~= raw@);
            match crate::strings::text_from_utf8(copy) {
                Some(text) => {
                    proof {
                        vstd::utf8::decode_utf8_encode_utf8(raw@);
                        assert(text@ == decode_utf8(raw@));
                        assert(encode_utf8(text@) == raw@);
                    }
                    Some((text, rest))
                },
                None => None,
            }
        },
        None => None,
    }
}

/// Reads a revision, which must be the one this library writes.
fn take_revision<'a>(input: &'a [u8]) -> (r: Result<&'a [u8], DecodeError>)
    ensures
        match r {
            Ok(rest) => read_revision(input@) == Ok::<Seq<u8>, DecodeError>(rest@) && rest@.len()
                < input@.len(),
            Err(e) => read_revision(input@) == Err::<Seq<u8>, DecodeError>(e),
        },
{
    match take_strict_u32(input) {
        Some((revision, rest)) => {
            if revision == REVISION as u32 {
                Ok(rest)
            } else {
                Err(DecodeError::DecodeRevision)
            }
        },
        None => Err(DecodeError::Malformed),
    }
}

/// Appends the eight bytes of `value`, least significant first.
fn put_le(value: u64, out: &mut Vec<u8>)
    ensures
        final(out)@ == old(out)@ + le_bytes(value as nat, 8),
{
    let mut left: u64 = value;
    let mut i: usize = 0;
    while i < 8
        invariant
            i <= 8,
            out@ + le_bytes(left as nat, (8 - i) as nat) == old(out)@ + le_bytes(value as nat, 8),
        decreases 8 - i,
    {
        let ghost before = out@;
        out.push((left % 256) as u8);
        proof {
            let tail = le_bytes((left / 256) as nat, (8 - i - 1) as nat);
            assert(le_bytes(left as nat, (8 - i) as nat) == seq![(left % 256) as u8] + tail);
            assert(out@ + tail =~= before + (seq![(left % 256) as u8] + tail));
        }
        left = left / 256;
        i += 1;
    }
    assert(out@ + le_bytes(left as nat, 0) =~= out@);
}

/// The number that eight bytes spell, least significant first.
fn take_le(raw: &[u8]) -> (value: u64)
    requires
        raw@.len() == 8,
    ensures
        value == le_value(raw@),
{
    let mut value: u64 = 0;
    let mut i: usize = 8;
    proof {
        assert(raw@.skip(8) =~= Seq::<u8>::empty());
        crate::wire::lemma_radix_pow_values();
    }
    while i > 0
        invariant
            i <= 8,
            raw@.len() == 8,
            value == le_value(raw@.skip(i as int)),
            value < crate::wire::radix_pow((8 - i) as nat),
        decreases i,
    {
        i -= 1;
        proof {
            assert(raw@.skip(i as int).skip(1) =~= raw@.skip(i + 1));
            crate::wire::lemma_le_value_bound(raw@.skip(i as int));
            crate::wire::lemma_le_value_bound(raw@.skip(i + 1));
            crate::wire::lemma_radix_pow_values();
            crate::wire::lemma_radix_pow_monotone((8 - i) as nat, 8);
        }
        value = value * 256 + raw[i] as u64;
    }
    assert(raw@.skip(0) =~= raw@);
    value
}

/// Copies sixteen bytes into an array.
fn sixteen(raw: &[u8]) -> (array: [u8; 16])
    requires
        raw@.len() == 16,
    ensures
        array@ == raw@,
{
    let mut array = [0u8; 16];
    let mut i: usize = 0;
    while i < 16
        invariant
            i <= 16,
            raw@.len() == 16,
            forall|j: int| 0 <= j < i ==> array@[j] == raw@[j],
        decreases 16 - i,
    {
        array[i] = raw[i];
        i += 1;
    }
    assert(array@ =~= raw@);
    array
}

/// Appends a text: the count of its bytes, then the bytes.
fn put_text(text: &str, out: &mut Vec<u8>)
    ensures
        final(out)@ == old(out)@ + text_wire(text@),
{
    let bytes = text.as_bytes();
    crate::wire::put_u64(bytes.len() as u64, out);
    out.extend_from_slice(bytes);
    assert(out@ =~= old(out)@ + text_wire(text@));
}

/// Appends a byte string: its length, then the bytes.
fn put_bytes(bytes: &[u8], out: &mut Vec<u8>)
    ensures
        final(out)@ == old(out)@ + bytes_wire(bytes@),
{
    crate::wire::put_u64(bytes.len() as u64, out);
    out.extend_from_slice(bytes);
    assert(out@ =~= old(out)@ + bytes_wire(bytes@));
}

impl Number {
    /// The revision that a number is written with.
    pub fn revision() -> (revision: u16)
        ensures
            revision == REVISION,
    {
        REVISION
    }

    /// Appends the wire form of the number to `w`.
    pub fn serialize_revisioned(&self, w: &mut Vec<u8>)
        ensures
            final(w)@ == old(w)@ + number_wire(self@),
    {
        crate::wire::put_u16(REVISION, w);
        match self {
            Number::Integer(i) => {
                crate::wire::put_u32(0, w);
                crate::wire::put_i64(*i, w);
            },
            Number::Float(bits) => {
                crate::wire::put_u32(1, w);
                put_le(*bits, w);
            },
            Number::Decimal(d) => {
                crate::wire::put_u32(2, w);
                let bytes = d.to_bytes();
                w.extend_from_slice(bytes.as_slice());
            },
        }
        assert(w@ =~= old(w)@ + number_wire(self@));
    }

    /// Reads a number off the front of `r`: the number and the bytes that follow it.
    pub fn deserialize_revisioned<'a>(r: &'a [u8]) -> (read: Result<
        (Number, &'a [u8]),
        DecodeError,
    >)
        ensures
            match read {
                Ok((number, rest)) => read_number(r@) == Ok::<(NumberView, Seq<u8>), DecodeError>(
                    (number@, rest@),
                ) && number@.wf() && rest@.len() < r@.len(),
                Err(e) => read_number(r@) == Err::<(NumberView, Seq<u8>), DecodeError>(e),
            },
    {
        let rest = match take_revision(r) {
            Ok(rest) => rest,
            Err(e) => return Err(e),
        };
        let (variant, rest) = match take_strict_u32(rest) {
            Some(read) => read,
            None => return Err(DecodeError::Malformed),
        };
        if variant == 0 {
            match take_strict_i64(rest) {
                Some((i, rest)) => Ok((Number::Integer(i), rest)),
                None => Err(DecodeError::Malformed),
            }
        } else if variant == 1 {
            match take_raw(rest, 8) {
                Some((raw, rest)) => Ok((Number::Float(take_le(raw)), rest)),
                None => Err(DecodeError::Malformed),
            }
        } else if variant == 2 {
            match take_raw(rest, 16) {
                Some((raw, rest)) => match Decimal::from_canonical_bytes(sixteen(raw)) {
                    Some(d) => Ok((Number::Decimal(d), rest)),
                    None => Err(DecodeError::Malformed),
                },
                None => Err(DecodeError::Malformed),
            }
        } else {
            Err(DecodeError::DecodeVariant)
        }
    }
}

/// Appends the items of an array, one after the other.
fn put_items(items: &Vec<Value>, w: &mut Vec<u8>)
    ensures
        final(w)@ == old(w)@ + items_wire(items_view(items@)),
    decreases items, 0nat,
{
    let ghost all = items_view(items@);
    let mut i: usize = 0;
    proof {
        assert(all.skip(0) =~= all);
    }
    while i < items.len()
        invariant
            i <= items.len(),
            all == items_view(items@),
            w@ + items_wire(all.skip(i as int)) == old(w)@ + items_wire(all),
        decreases items.len() - i,
    {
        let ghost before = w@;
        assert(all[i as int] == items[i as int]@);
        items[i].serialize_revisioned(w);
        proof {
            let left = all.skip(i as int);
            assert(left[0] == items[i as int]@);
            assert(left.skip(1) =~= all.skip(i + 1));
            assert(w@ + items_wire(all.skip(i + 1)) =~= before + items_wire(left));
        }
        i += 1;
    }
    assert(w@ + items_wire(all.skip(i as int)) =~= w@);
}

/// Appends the entries of an object: each key, then its value.
fn put_entries(object: &Object, w: &mut Vec<u8>)
    ensures
        final(w)@ == old(w)@ + entries_wire(object@),
    decreases object, 0nat,
{
    let ghost all = object@;
    let count = object.len();
    let mut i: usize = 0;
    proof {
        assert(all.skip(0) =~= all);
    }
    while i < count
        invariant
            i <= count,
            count == all.len(),
            all == object@,
            w@ + entries_wire(all.skip(i as int)) == old(w)@ + entries_wire(all),
        decreases count - i,
    {
        let ghost before = w@;
        put_text(object.key_at(i), w);
        let value = object.value_at(i);
        assert(value@ == all[i as int].1);
        value.serialize_revisioned(w);
        proof {
            let left = all.skip(i as int);
            assert(left[0] == all[i as int]);
            assert(left.skip(1) =~= all.skip(i + 1));
            assert(w@ + entries_wire(all.skip(i + 1)) =~= before + entries_wire(left));
            assert(entries_wire(left) == text_wire(left[0].0) + (value_wire(left[0].1)
                + entries_wire(left.skip(1))));
        }
        i += 1;
    }
    assert(w@ + entries_wire(all.skip(i as int)) =~= w@);
}

/// Appends an array after its variant number: a revision, the count and the items.
fn put_array(items: &Vec<Value>, w: &mut Vec<u8>)
    ensures
        final(w)@ == old(w)@ + array_wire(items_view(items@)),
    decreases items, 1nat,
{
    crate::wire::put_u16(REVISION, w);
    crate::wire::put_u64(items.len() as u64, w);
    put_items(items, w);
    assert(w@ =~= old(w)@ + array_wire(items_view(items@)));
}

impl RecordIdKey {
    /// The revision that the key of a record id is written with.
    pub fn revision() -> (revision: u16)
        ensures
            revision == REVISION,
    {
        REVISION
    }

    /// Appends the wire form of the key to `w`.
    pub fn serialize_revisioned(&self, w: &mut Vec<u8>)
        ensures
            final(w)@ == old(w)@ + key_wire(self@),
        decreases self, 0nat,
    {
        crate::wire::put_u16(REVISION, w);
        match self {
            RecordIdKey::Integer(i) => {
                crate::wire::put_u32(0, w);
                crate::wire::put_i64(*i, w);
            },
            RecordIdKey::String(s) => {
                crate::wire::put_u32(1, w);
                put_text(s.as_str(), w);
            },
            RecordIdKey::Array(a) => {
                crate::wire::put_u32(2, w);
                assert(self@ == KeyView::Array(items_view(a@)));
                put_array(a, w);
            },
            RecordIdKey::Object(o) => {
                crate::wire::put_u32(3, w);
                crate::wire::put_u64(o.len() as u64, w);
                assert(self@ == KeyView::Object(o@));
                put_entries(o, w);
            },
        }
        assert(w@ =~= old(w)@ + key_wire(self@));
    }

    /// Reads the key of a record id off the front of `r`.
    pub fn deserialize_revisioned<'a>(r: &'a [u8]) -> (read: Result<
        (RecordIdKey, &'a [u8]),
        DecodeError,
    >)
        ensures
            match read {
                Ok((key, rest)) => read_key(r@) == Ok::<(KeyView, Seq<u8>), DecodeError>(
                    (key@, rest@),
                ) && key@.wf() && rest@.len() < r@.len(),
                Err(e) => read_key(r@) == Err::<(KeyView, Seq<u8>), DecodeError>(e),
            },
        decreases r@.len(), 4nat,
    {
        let rest = match take_revision(r) {
            Ok(rest) => rest,
            Err(e) => return Err(e),
        };
        let (variant, body) = match take_strict_u32(rest) {
            Some(read) => read,
            None => return Err(DecodeError::Malformed),
        };
        take_key_variant(variant, body)
    }
}

/// Reads what the key of a record id holds, after its revision and variant number.
fn take_key_variant<'a>(variant: u32, body: &'a [u8]) -> (read: Result<
    (RecordIdKey, &'a [u8]),
    DecodeError,
>)
    ensures
        match read {
            Ok((key, rest)) => read_key_variant(variant, body@) == Ok::<
                (KeyView, Seq<u8>),
                DecodeError,
            >((key@, rest@)) && key@.wf() && rest@.len() <= body@.len(),
            Err(e) => read_key_variant(variant, body@) == Err::<(KeyView, Seq<u8>), DecodeError>(
                e,
            ),
        },
    decreases body@.len(), 3nat,
{
    if variant == 0 {
        match take_strict_i64(body) {
            Some((i, rest)) => Ok((RecordIdKey::Integer(i), rest)),
            None => Err(DecodeError::Malformed),
        }
    } else if variant == 1 {
        match take_text(body) {
            Some((s, rest)) => Ok((RecordIdKey::String(s), rest)),
            None => Err(DecodeError::Malformed),
        }
    } else if variant == 2 {
        match take_array(body) {
            Ok((items, rest)) => {
                proof {
                    assert(RecordIdKey::Array(items)@ == KeyView::Array(items_view(items@)));
                }
                Ok((RecordIdKey::Array(items), rest))
            },
            Err(e) => Err(e),
        }
    } else if variant == 3 {
        match take_counted_entries(body) {
            Ok((object, rest)) => Ok((RecordIdKey::Object(object), rest)),
            Err(e) => Err(e),
        }
    } else {
        Err(DecodeError::DecodeVariant)
    }
}

impl RecordId {
    /// The revision that a record id is written with.
    pub fn revision() -> (revision: u16)
        ensures
            revision == REVISION,
    {
        REVISION
    }

    /// Appends the wire form of the record id to `w`.
    pub fn serialize_revisioned(&self, w: &mut Vec<u8>)
        ensures
            final(w)@ == old(w)@ + record_wire(self@.0, self@.1),
        decreases self, 0nat,
    {
        crate::wire::put_u16(REVISION, w);
        put_text(self.table(), w);
        self.key().serialize_revisioned(w);
        assert(w@ =~= old(w)@ + record_wire(self@.0, self@.1));
    }

    /// Reads a record id off the front of `r`.
    pub fn deserialize_revisioned<'a>(r: &'a [u8]) -> (read: Result<
        (RecordId, &'a [u8]),
        DecodeError,
    >)
        ensures
            match read {
                Ok((id, rest)) => read_record(r@) == Ok::<
                    ((Seq<char>, KeyView), Seq<u8>),
                    DecodeError,
                >((id@, rest@)) && id.wf() && rest@.len() < r@.len(),
                Err(e) => read_record(r@) == Err::<((Seq<char>, KeyView), Seq<u8>), DecodeError>(
                    e,
                ),
            },
        decreases r@.len(), 1nat,
    {
        let rest = match take_revision(r) {
            Ok(rest) => rest,
            Err(e) => return Err(e),
        };
        let (table, rest) = match take_text(rest) {
            Some(read) => read,
            None => return Err(DecodeError::Malformed),
        };
        match RecordIdKey::deserialize_revisioned(rest) {
            Ok((key, rest)) => Ok((RecordId::from_table_key(table, key), rest)),
            Err(e) => Err(e),
        }
    }
}

impl Value {
    /// The revision that a value is written with.
    pub fn revision() -> (revision: u16)
        ensures
            revision == REVISION,
    {
        REVISION
    }

    /// Appends the wire form of the value to `w`.
    pub fn serialize_revisioned(&self, w: &mut Vec<u8>)
        ensures
            final(w)@ == old(w)@ + value_wire(self@),
        decreases self, 0nat,
    {
        crate::wire::put_u16(REVISION, w);
        match self {
            Value::Nothing => {
                crate::wire::put_u32(0, w);
            },
            Value::Null => {
                crate::wire::put_u32(1, w);
            },
            Value::Bool(x) => {
                crate::wire::put_u32(2, w);
                crate::wire::put_bool(*x, w);
            },
            Value::Number(x) => {
                crate::wire::put_u32(3, w);
                x.serialize_revisioned(w);
            },
            Value::String(x) => {
                crate::wire::put_u32(4, w);
                put_text(x.as_str(), w);
            },
            Value::Duration(x) => {
                crate::wire::put_u32(5, w);
                crate::wire::put_u16(REVISION, w);
                crate::wire::put_u64(x.secs(), w);
                crate::wire::put_u32(x.subsec_nanos(), w);
            },
            Value::Datetime(x) => {
                crate::wire::put_u32(6, w);
                crate::wire::put_i64(x.timestamp(), w);
                crate::wire::put_u32(x.timestamp_subsec_nanos(), w);
            },
            Value::Uuid(x) => {
                crate::wire::put_u32(7, w);
                crate::wire::put_u16(REVISION, w);
                w.extend_from_slice(x.as_bytes().as_slice());
            },
            Value::Array(x) => {
                crate::wire::put_u32(8, w);
                assert(self@ == ValueView::Array(items_view(x@)));
                put_array(x, w);
            },
            Value::Object(x) => {
                crate::wire::put_u32(9, w);
                crate::wire::put_u16(REVISION, w);
                crate::wire::put_u64(x.len() as u64, w);
                assert(self@ == ValueView::Object(x@));
                put_entries(x, w);
            },
            Value::Bytes(x) => {
                crate::wire::put_u32(11, w);
                put_bytes(x.as_slice(), w);
            },
            Value::RecordId(x) => {
                crate::wire::put_u32(12, w);
                assert(self@ == ValueView::RecordId { table: x@.0, key: x@.1 });
                x.serialize_revisioned(w);
            },
        }
        assert(w@ =~= old(w)@ + value_wire(self@));
    }

    /// Reads a value off the front of `r`: the value and the bytes that follow it.
    pub fn deserialize_revisioned<'a>(r: &'a [u8]) -> (read: Result<
        (Value, &'a [u8]),
        DecodeError,
    >)
        ensures
            match read {
                Ok((value, rest)) => read_value(r@) == Ok::<(ValueView, Seq<u8>), DecodeError>(
                    (value@, rest@),
                ) && value.wf() && rest@.len() < r@.len(),
                Err(e) => read_value(r@) == Err::<(ValueView, Seq<u8>), DecodeError>(e),
            },
        decreases r@.len(), 0nat,
    {
        let rest = match take_revision(r) {
            Ok(rest) => rest,
            Err(e) => return Err(e),
        };
        let (variant, body) = match take_strict_u32(rest) {
            Some(read) => read,
            None => return Err(DecodeError::Malformed),
        };
        take_variant(variant, body)
    }
}

/// Reads a duration, after its variant number.
fn take_duration<'a>(body: &'a [u8]) -> (read: Result<(Value, &'a [u8]), DecodeError>)
    ensures
        match read {
            Ok((value, rest)) => read_duration(body@) == Ok::<(ValueView, Seq<u8>), DecodeError>(
                (value@, rest@),
            ) && value.wf() && rest@.len() <= body@.len(),
            Err(e) => read_duration(body@) == Err::<(ValueView, Seq<u8>), DecodeError>(e),
        },
{
    let rest = match take_revision(body) {
        Ok(rest) => rest,
        Err(e) => return Err(e),
    };
    let (secs, rest) = match take_strict_u64(rest) {
        Some(read) => read,
        None => return Err(DecodeError::Malformed),
    };
    let (nanos, rest) = match take_strict_u32(rest) {
        Some(read) => read,
        None => return Err(DecodeError::Malformed),
    };
    match Duration::new(secs, nanos) {
        Some(x) => Ok((Value::Duration(x), rest)),
        None => Err(DecodeError::Malformed),
    }
}

/// Reads an instant, after its variant number.
fn take_datetime<'a>(body: &'a [u8]) -> (read: Result<(Value, &'a [u8]), DecodeError>)
    ensures
        match read {
            Ok((value, rest)) => read_datetime(body@) == Ok::<(ValueView, Seq<u8>), DecodeError>(
                (value@, rest@),
            ) && value.wf() && rest@.len() <= body@.len(),
            Err(e) => read_datetime(body@) == Err::<(ValueView, Seq<u8>), DecodeError>(e),
        },
{
    let (secs, rest) = match take_strict_i64(body) {
        Some(read) => read,
        None => return Err(DecodeError::Malformed),
    };
    let (nanos, rest) = match take_strict_u32(rest) {
        Some(read) => read,
        None => return Err(DecodeError::Malformed),
    };
    match Datetime::from_timestamp(secs, nanos) {
        Some(x) => Ok((Value::Datetime(x), rest)),
        None => Err(DecodeError::Malformed),
    }
}

/// Reads a uuid, after its variant number.
fn take_uuid<'a>(body: &'a [u8]) -> (read: Result<(Value, &'a [u8]), DecodeError>)
    ensures
        match read {
            Ok((value, rest)) => read_uuid(body@) == Ok::<(ValueView, Seq<u8>), DecodeError>(
                (value@, rest@),
            ) && value.wf() && rest@.len() <= body@.len(),
            Err(e) => read_uuid(body@) == Err::<(ValueView, Seq<u8>), DecodeError>(e),
        },
{
    let rest = match take_revision(body) {
        Ok(rest) => rest,
        Err(e) => return Err(e),
    };
    match take_raw(rest, 16) {
        Some((raw, rest)) => Ok((Value::Uuid(Uuid::from_bytes(sixteen(raw))), rest)),
        None => Err(DecodeError::Malformed),
    }
}

/// Reads what a value holds that holds no other value, after its revision and variant
/// number.
#[verifier::spinoff_prover]
fn take_plain<'a>(variant: u32, body: &'a [u8]) -> (read: Result<(Value, &'a [u8]), DecodeError>)
    requires
        variant != 8,
        variant != 9,
        variant != 12,
    ensures
        match read {
            Ok((value, rest)) => read_variant(variant, body@) == Ok::<
                (ValueView, Seq<u8>),
                DecodeError,
            >((value@, rest@)) && value.wf() && rest@.len() <= body@.len(),
            Err(e) => read_variant(variant, body@) == Err::<(ValueView, Seq<u8>), DecodeError>(e),
        },
{
    if variant == 0 {
        Ok((Value::Nothing, body))
    } else if variant == 1 {
        Ok((Value::Null, body))
    } else if variant == 2 {
        match crate::wire::take_bool(body) {
            Some((x, rest)) => Ok((Value::Bool(x), rest)),
            None => Err(DecodeError::Malformed),
        }
    } else if variant == 3 {
        match Number::deserialize_revisioned(body) {
            Ok((x, rest)) => Ok((Value::Number(x), rest)),
            Err(e) => Err(e),
        }
    } else if variant == 4 {
        match take_text(body) {
            Some((x, rest)) => Ok((Value::String(x), rest)),
            None => Err(DecodeError::Malformed),
        }
    } else if variant == 5 {
        take_duration(body)
    } else if variant == 6 {
        take_datetime(body)
    } else if variant == 7 {
        take_uuid(body)
    } else if variant == 11 {
        match take_bytes(body) {
            Some((raw, rest)) => {
                let raw_len = raw.len();
                let mut data: Vec<u8> = Vec::new();
                data.extend_from_slice(raw);
                assert(data@ =~= raw@);
                Ok((Value::Bytes(Bytes::new(data)), rest))
            },
            None => Err(DecodeError::Malformed),
        }
    } else {
        Err(DecodeError::DecodeVariant)
    }
}

/// Reads an array as a value, after its variant number.
#[verifier::spinoff_prover]
fn take_array_value<'a>(body: &'a [u8]) -> (read: Result<(Value, &'a [u8]), DecodeError>)
    ensures
        match read {
            Ok((value, rest)) => read_variant(8, body@) == Ok::<(ValueView, Seq<u8>), DecodeError>(
                (value@, rest@),
            ) && value.wf() && rest@.len() <= body@.len(),
            Err(e) => read_variant(8, body@) == Err::<(ValueView, Seq<u8>), DecodeError>(e),
        },
    decreases body@.len(), 3nat,
{
    match take_array(body) {
        Ok((items, rest)) => {
            proof {
                assert(Value::Array(items)@ == ValueView::Array(items_view(items@)));
            }
            Ok((Value::Array(items), rest))
        },
        Err(e) => Err(e),
    }
}

/// Reads an object as a value, after its variant number.
#[verifier::spinoff_prover]
fn take_object_value<'a>(body: &'a [u8]) -> (read: Result<(Value, &'a [u8]), DecodeError>)
    ensures
        match read {
            Ok((value, rest)) => read_variant(9, body@) == Ok::<(ValueView, Seq<u8>), DecodeError>(
                (value@, rest@),
            ) && value.wf() && rest@.len() <= body@.len(),
            Err(e) => read_variant(9, body@) == Err::<(ValueView, Seq<u8>), DecodeError>(e),
        },
    decreases body@.len(), 3nat,
{
    match take_object(body) {
        Ok((object, rest)) => Ok((Value::Object(object), rest)),
        Err(e) => Err(e),
    }
}

/// Reads a record id as a value, after its variant number.
#[verifier::spinoff_prover]
fn take_record_value<'a>(body: &'a [u8]) -> (read: Result<(Value, &'a [u8]), DecodeError>)
    ensures
        match read {
            Ok((value, rest)) => read_variant(12, body@) == Ok::<(ValueView, Seq<u8>), DecodeError>(
                (value@, rest@),
            ) && value.wf() && rest@.len() <= body@.len(),
            Err(e) => read_variant(12, body@) == Err::<(ValueView, Seq<u8>), DecodeError>(e),
        },
    decreases body@.len(), 3nat,
{
    match RecordId::deserialize_revisioned(body) {
        Ok((id, rest)) => Ok((Value::RecordId(id), rest)),
        Err(e) => Err(e),
    }
}

/// Reads what a value holds, after its revision and variant number.
fn take_variant<'a>(variant: u32, body: &'a [u8]) -> (read: Result<
    (Value, &'a [u8]),
    DecodeError,
>)
    ensures
        match read {
            Ok((value, rest)) => read_variant(variant, body@) == Ok::<
                (ValueView, Seq<u8>),
                DecodeError,
            >((value@, rest@)) && value.wf() && rest@.len() <= body@.len(),
            Err(e) => read_variant(variant, body@) == Err::<(ValueView, Seq<u8>), DecodeError>(e),
        },
    decreases body@.len(), 5nat,
{
    if variant == 8 {
        take_array_value(body)
    } else if variant == 9 {
        take_object_value(body)
    } else if variant == 12 {
        take_record_value(body)
    } else {
        take_plain(variant, body)
    }
}

/// Reads an array, after its variant number.
fn take_array<'a>(body: &'a [u8]) -> (read: Result<(Vec<Value>, &'a [u8]), DecodeError>)
    ensures
        match read {
            Ok((items, rest)) => read_array(body@) == Ok::<
                (Seq<ValueView>, Seq<u8>),
                DecodeError,
            >((items_view(items@), rest@)) && rest@.len() <= body@.len()
                && ValueView::Array(items_view(items@)).wf(),
            Err(e) => read_array(body@) == Err::<(Seq<ValueView>, Seq<u8>), DecodeError>(e),
        },
    decreases body@.len(), 1nat,
{
    let rest = match take_revision(body) {
        Ok(rest) => rest,
        Err(e) => return Err(e),
    };
    let (count, rest) = match take_strict_u64(rest) {
        Some(read) => read,
        None => return Err(DecodeError::Malformed),
    };
    take_items(rest, count)
}

/// Reads the entries of an object: their count, and the entries.
fn take_counted_entries<'a>(body: &'a [u8]) -> (read: Result<(Object, &'a [u8]), DecodeError>)
    ensures
        match read {
            Ok((object, rest)) => read_counted_entries(body@) == Ok::<
                (Seq<(Seq<char>, ValueView)>, Seq<u8>),
                DecodeError,
            >((object@, rest@)) && rest@.len() <= body@.len() && object.wf(),
            Err(e) => read_counted_entries(body@) == Err::<
                (Seq<(Seq<char>, ValueView)>, Seq<u8>),
                DecodeError,
            >(e),
        },
    decreases body@.len(), 1nat,
{
    let (count, rest) = match take_strict_u64(body) {
        Some(read) => read,
        None => return Err(DecodeError::Malformed),
    };
    take_entries(rest, count)
}

/// Reads an object, after its variant number.
fn take_object<'a>(body: &'a [u8]) -> (read: Result<(Object, &'a [u8]), DecodeError>)
    ensures
        match read {
            Ok((object, rest)) => read_object(body@) == Ok::<
                (Seq<(Seq<char>, ValueView)>, Seq<u8>),
                DecodeError,
            >((object@, rest@)) && rest@.len() <= body@.len() && object.wf(),
            Err(e) => read_object(body@) == Err::<
                (Seq<(Seq<char>, ValueView)>, Seq<u8>),
                DecodeError,
            >(e),
        },
    decreases body@.len(), 2nat,
{
    let rest = match take_revision(body) {
        Ok(rest) => rest,
        Err(e) => return Err(e),
    };
    take_counted_entries(rest)
}

/// Reads `count` items.
fn take_items<'a>(input: &'a [u8], count: u64) -> (read: Result<
    (Vec<Value>, &'a [u8]),
    DecodeError,
>)
    ensures
        match read {
            Ok((items, rest)) => read_items(input@, count as nat, Seq::empty()) == Ok::<
                (Seq<ValueView>, Seq<u8>),
                DecodeError,
            >((items_view(items@), rest@)) && rest@.len() <= input@.len()
                && ValueView::Array(items_view(items@)).wf(),
            Err(e) => read_items(input@, count as nat, Seq::empty()) == Err::<
                (Seq<ValueView>, Seq<u8>),
                DecodeError,
            >(e),
        },
    decreases input@.len(), count + 1,
{
    let mut items: Vec<Value> = Vec::new();
    let mut rest = input;
    let mut left = count;
    proof {
        assert(items_view(items@) =~= Seq::empty());
    }
    while left > 0
        invariant
            rest@.len() <= input@.len(),
            left <= count,
            read_items(input@, count as nat, Seq::empty()) == read_items(
                rest@,
                left as nat,
                items_view(items@),
            ),
            forall|i: int| 0 <= i < items@.len() ==> (#[trigger] items@[i]).wf(),
        decreases left,
    {
        let ghost read_before = items_view(items@);
        match Value::deserialize_revisioned(rest) {
            Err(e) => {
                return Err(e);
            },
            Ok((item, after)) => {
                let ghost item_view = item@;
                items.push(item);
                proof {
                    assert(items_view(items@) =~= read_before.push(item_view));
                }
                rest = after;
                left -= 1;
            },
        }
    }
    let held = items.len();
    proof {
        let views = items_view(items@);
        assert(views.len() == held);
        assert forall|i: int| 0 <= i < views.len() implies (#[trigger] views[i]).wf() by {
            assert(views[i] == items@[i]@);
        }
        assert(ValueView::Array(views).wf());
        assert(read_items(rest@, 0, views) == Ok::<(Seq<ValueView>, Seq<u8>), DecodeError>(
            (views, rest@),
        ));
    }
    Ok((items, rest))
}

/// Reads `count` entries, whose keys must ascend.
fn take_entries<'a>(input: &'a [u8], count: u64) -> (read: Result<
    (Object, &'a [u8]),
    DecodeError,
>)
    ensures
        match read {
            Ok((object, rest)) => read_entries(input@, count as nat, Seq::empty()) == Ok::<
                (Seq<(Seq<char>, ValueView)>, Seq<u8>),
                DecodeError,
            >((object@, rest@)) && rest@.len() <= input@.len() && object.wf(),
            Err(e) => read_entries(input@, count as nat, Seq::empty()) == Err::<
                (Seq<(Seq<char>, ValueView)>, Seq<u8>),
                DecodeError,
            >(e),
        },
    decreases input@.len(), count + 1,
{
    let mut object = Object::new();
    let mut rest = input;
    let mut left = count;
    while left > 0
        invariant
            rest@.len() <= input@.len(),
            left <= count,
            object.wf(),
            read_entries(input@, count as nat, Seq::empty()) == read_entries(
                rest@,
                left as nat,
                object@,
            ),
        decreases left,
    {
        let (key, after_key) = match take_text(rest) {
            Some(read) => read,
            None => return Err(DecodeError::Malformed),
        };
        let held = object.len();
        if held > 0 && !crate::order::bytes_less(
            object.key_at(held - 1).as_bytes(),
            key.as_str().as_bytes(),
        ) {
            return Err(DecodeError::Malformed);
        }
        match Value::deserialize_revisioned(after_key) {
            Err(e) => {
                return Err(e);
            },
            Ok((value, after)) => {
                object.push_greatest(key, value);
                rest = after;
                left -= 1;
            },
        }
    }
    Ok((object, rest))
}

} // verus!

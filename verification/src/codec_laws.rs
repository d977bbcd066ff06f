//! What holds of the wire form: what is written is read back, and nothing else is read.

use vstd::prelude::*;
use vstd::utf8::decode_utf8_encode_utf8;
use vstd::utf8::encode_utf8;
use vstd::utf8::encode_utf8_decode_utf8;
use vstd::utf8::encode_utf8_valid_utf8;
use vstd::utf8::valid_utf8;
use crate::codec::array_wire;
use crate::codec::bytes_wire;
use crate::codec::counted_entries_wire;
use crate::codec::datetime_wire;
use crate::codec::duration_wire;
use crate::codec::object_wire;
use crate::codec::read_datetime;
use crate::codec::read_duration;
use crate::codec::read_object;
use crate::codec::read_uuid;
use crate::codec::uuid_wire;
use crate::codec::entries_wire;
use crate::codec::items_wire;
use crate::codec::key_wire;
use crate::codec::number_wire;
use crate::codec::read_array;
use crate::codec::read_bytes;
use crate::codec::read_counted_entries;
use crate::codec::read_entries;
use crate::codec::read_i64;
use crate::codec::read_items;
use crate::codec::read_key;
use crate::codec::read_key_variant;
use crate::codec::read_number;
use crate::codec::read_raw;
use crate::codec::read_record;
use crate::codec::read_revision;
use crate::codec::read_text;
use crate::codec::read_u32;
use crate::codec::read_u64;
use crate::codec::read_value;
use crate::codec::read_variant;
use crate::codec::record_wire;
use crate::codec::text_wire;
use crate::codec::value_wire;
use crate::codec::DecodeError;
use crate::codec::REVISION;
use crate::number::NumberView;
use crate::time::timestamp_in_range;
use crate::time::NANOS_PER_SEC;
use crate::value::keys_ascend;
use crate::value::KeyView;
use crate::value::ValueView;
use crate::codec::read_number_body;
use crate::value::key_lt;
use crate::wire::bool_byte;
use crate::wire::lemma_le_bytes_of_value;
use crate::wire::lemma_le_value_bound;
use crate::wire::parse_bool;
use crate::wire::unzigzag;
use crate::wire::le_bytes;
use crate::wire::lemma_bool_roundtrip;
use crate::wire::lemma_le_bytes_len;
use crate::wire::lemma_le_roundtrip;
use crate::wire::lemma_radix_pow_values;
use crate::wire::lemma_varint_roundtrip;
use crate::wire::lemma_zigzag_roundtrip;
use crate::wire::signed_varint;
use crate::wire::varint;
use crate::wire::zigzag;

verus! {

/// An unsigned integer is read back as it was written.
pub proof fn lemma_read_u64(n: u64, rest: Seq<u8>)
    ensures
        read_u64(varint(n) + rest) == Some((n, rest)),
        varint(n).len() >= 1,
{
    lemma_varint_roundtrip(n, rest);
    lemma_le_bytes_len(n as nat, 2);
    lemma_le_bytes_len(n as nat, 4);
    lemma_le_bytes_len(n as nat, 8);
}

/// A revision or variant number is read back as it was written.
pub proof fn lemma_read_u32(n: u32, rest: Seq<u8>)
    ensures
        read_u32(varint(n as u64) + rest) == Some((n, rest)),
{
    lemma_read_u64(n as u64, rest);
}

/// A signed integer is read back as it was written.
pub proof fn lemma_read_i64(v: i64, rest: Seq<u8>)
    ensures
        read_i64(signed_varint(v) + rest) == Some((v, rest)),
{
    lemma_read_u64(zigzag(v), rest);
    lemma_zigzag_roundtrip(v);
}

/// The revision that this library writes is accepted.
pub proof fn lemma_read_revision(rest: Seq<u8>)
    ensures
        read_revision(varint(REVISION as u64) + rest) == Ok::<Seq<u8>, DecodeError>(rest),
{
    lemma_read_u32(REVISION as u32, rest);
}

/// Raw bytes are taken off the front as they were put there.
pub proof fn lemma_read_raw(raw: Seq<u8>, rest: Seq<u8>)
    ensures
        read_raw(raw + rest, raw.len()) == Some((raw, rest)),
{
    assert((raw + rest).take(raw.len() as int) =~= raw);
    assert((raw + rest).skip(raw.len() as int) =~= rest);
}

/// A byte string is read back as it was written.
pub proof fn lemma_read_bytes(raw: Seq<u8>, rest: Seq<u8>)
    requires
        raw.len() <= u64::MAX,
    ensures
        read_bytes(bytes_wire(raw) + rest) == Some((raw, rest)),
{
    lemma_read_u64(raw.len() as u64, raw + rest);
    lemma_read_raw(raw, rest);
    assert(bytes_wire(raw) + rest =~= varint(raw.len() as u64) + (raw + rest));
}

/// A text is read back as it was written.
pub proof fn lemma_read_text(text: Seq<char>, rest: Seq<u8>)
    requires
        encode_utf8(text).len() <= u64::MAX,
    ensures
        read_text(text_wire(text) + rest) == Some((text, rest)),
        text_wire(text).len() >= 1,
{
    lemma_read_bytes(encode_utf8(text), rest);
    lemma_read_u64(encode_utf8(text).len() as u64, Seq::empty());
    encode_utf8_valid_utf8(text);
    encode_utf8_decode_utf8(text);
    assert(text_wire(text) == bytes_wire(encode_utf8(text)));
}

/// The revision and a variant number are read off the front as they were written.
pub proof fn lemma_read_tag(variant: u32, payload: Seq<u8>, rest: Seq<u8>)
    ensures
        ({
            let all = varint(REVISION as u64) + (varint(variant as u64) + payload) + rest;
            let after = varint(variant as u64) + (payload + rest);
            &&& read_revision(all) == Ok::<Seq<u8>, DecodeError>(after)
            &&& read_u32(after) == Some((variant, payload + rest))
            &&& (payload + rest).len() < all.len()
        }),
        (varint(REVISION as u64) + (varint(variant as u64) + payload)).len() >= 2,
{
    let tail = payload + rest;
    let all = varint(REVISION as u64) + (varint(variant as u64) + payload) + rest;
    assert(all =~= varint(REVISION as u64) + (varint(variant as u64) + tail));
    lemma_read_revision(varint(variant as u64) + tail);
    lemma_read_u32(variant, tail);
    lemma_read_u64(variant as u64, tail);
    lemma_read_u64(REVISION as u64, varint(variant as u64) + tail);
}

/// Reading a value that starts with the revision and a variant number comes down to
/// reading what the variant holds.
pub proof fn lemma_tagged(variant: u32, payload: Seq<u8>, rest: Seq<u8>)
    ensures
        read_value(varint(REVISION as u64) + (varint(variant as u64) + payload) + rest)
            == read_variant(variant, payload + rest),
        (varint(REVISION as u64) + (varint(variant as u64) + payload)).len() >= 2,
{
    lemma_read_tag(variant, payload, rest);
}

/// Reading the key of a record id that starts with the revision and a variant number
/// comes down to reading what the variant holds.
pub proof fn lemma_tagged_key(variant: u32, payload: Seq<u8>, rest: Seq<u8>)
    ensures
        read_key(varint(REVISION as u64) + (varint(variant as u64) + payload) + rest)
            == read_key_variant(variant, payload + rest),
        (varint(REVISION as u64) + (varint(variant as u64) + payload)).len() >= 2,
{
    lemma_read_tag(variant, payload, rest);
}

/// A number is read back as it was written.
pub proof fn lemma_number_roundtrip(number: NumberView, rest: Seq<u8>)
    requires
        number.wf(),
    ensures
        read_number(number_wire(number) + rest) == Ok::<(NumberView, Seq<u8>), DecodeError>(
            (number, rest),
        ),
{
    match number {
        NumberView::Integer(i) => {
            let tail = signed_varint(i) + rest;
            assert(number_wire(number) + rest =~= varint(REVISION as u64) + (varint(0) + tail));
            lemma_read_revision(varint(0) + tail);
            lemma_read_u32(0, tail);
            lemma_read_i64(i, rest);
        },
        NumberView::Float(bits) => {
            let raw = le_bytes(bits as nat, 8);
            let tail = raw + rest;
            assert(number_wire(number) + rest =~= varint(REVISION as u64) + (varint(1) + tail));
            lemma_read_revision(varint(1) + tail);
            lemma_read_u32(1, tail);
            lemma_le_bytes_len(bits as nat, 8);
            lemma_read_raw(raw, rest);
            lemma_le_roundtrip(bits as nat, 8);
            lemma_radix_pow_values();
        },
        NumberView::Decimal(bytes) => {
            let tail = bytes + rest;
            assert(number_wire(number) + rest =~= varint(REVISION as u64) + (varint(2) + tail));
            lemma_read_revision(varint(2) + tail);
            lemma_read_u32(2, tail);
            lemma_read_raw(bytes, rest);
        },
    }
}

/// A duration is read back as it was written.
pub proof fn lemma_duration_roundtrip(secs: u64, nanos: u32, rest: Seq<u8>)
    requires
        nanos < NANOS_PER_SEC,
    ensures
        read_duration(duration_wire(secs, nanos) + rest) == Ok::<
            (ValueView, Seq<u8>),
            DecodeError,
        >((ValueView::Duration { secs, nanos }, rest)),
{
    let after_secs = varint(nanos as u64) + rest;
    let after_revision = varint(secs) + after_secs;
    assert(duration_wire(secs, nanos) + rest =~= varint(REVISION as u64) + after_revision);
    lemma_read_revision(after_revision);
    lemma_read_u64(secs, after_secs);
    lemma_read_u32(nanos, rest);
}

/// An instant is read back as it was written.
pub proof fn lemma_datetime_roundtrip(secs: i64, nanos: u32, rest: Seq<u8>)
    requires
        timestamp_in_range(secs, nanos),
    ensures
        read_datetime(datetime_wire(secs, nanos) + rest) == Ok::<
            (ValueView, Seq<u8>),
            DecodeError,
        >((ValueView::Datetime { secs, nanos }, rest)),
{
    let after_secs = varint(nanos as u64) + rest;
    assert(datetime_wire(secs, nanos) + rest =~= signed_varint(secs) + after_secs);
    lemma_read_i64(secs, after_secs);
    lemma_read_u32(nanos, rest);
}

/// A uuid is read back as it was written.
pub proof fn lemma_uuid_roundtrip(bytes: Seq<u8>, rest: Seq<u8>)
    requires
        bytes.len() == 16,
    ensures
        read_uuid(uuid_wire(bytes) + rest) == Ok::<(ValueView, Seq<u8>), DecodeError>(
            (ValueView::Uuid(bytes), rest),
        ),
{
    assert(uuid_wire(bytes) + rest =~= varint(REVISION as u64) + (bytes + rest));
    lemma_read_revision(bytes + rest);
    lemma_read_raw(bytes, rest);
}

/// What a value holds, after its revision and variant number.
pub open spec fn payload_wire(value: ValueView) -> Seq<u8> {
    match value {
        ValueView::Nothing => Seq::empty(),
        ValueView::Null => Seq::empty(),
        ValueView::Bool(b) => bool_byte(b),
        ValueView::Number(n) => number_wire(n),
        ValueView::String(s) => text_wire(s),
        ValueView::Duration { secs, nanos } => duration_wire(secs, nanos),
        ValueView::Datetime { secs, nanos } => datetime_wire(secs, nanos),
        ValueView::Uuid(bytes) => uuid_wire(bytes),
        ValueView::Array(items) => array_wire(items),
        ValueView::Object(entries) => object_wire(entries),
        ValueView::Bytes(bytes) => bytes_wire(bytes),
        ValueView::RecordId { table, key } => record_wire(table, key),
    }
}

/// The number of the variant of a value.
pub open spec fn variant_number(value: ValueView) -> u32 {
    match value {
        ValueView::Nothing => 0,
        ValueView::Null => 1,
        ValueView::Bool(_) => 2,
        ValueView::Number(_) => 3,
        ValueView::String(_) => 4,
        ValueView::Duration { .. } => 5,
        ValueView::Datetime { .. } => 6,
        ValueView::Uuid(_) => 7,
        ValueView::Array(_) => 8,
        ValueView::Object(_) => 9,
        ValueView::Bytes(_) => 11,
        ValueView::RecordId { .. } => 12,
    }
}

/// A value on the wire is the revision, the number of its variant, and what it holds.
pub proof fn lemma_value_wire_parts(value: ValueView)
    ensures
        value_wire(value) == varint(REVISION as u64) + (varint(variant_number(value) as u64)
            + payload_wire(value)),
{
}

/// The key of a record id on the wire is the revision, the number of its variant, and
/// what it holds.
pub proof fn lemma_key_wire_parts(key: KeyView)
    ensures
        key_wire(key) == varint(REVISION as u64) + (varint(key_variant_number(key) as u64)
            + key_payload_wire(key)),
{
}

/// Joining three runs of bytes gives the same whichever two are joined first.
pub proof fn lemma_join(a: Seq<u8>, b: Seq<u8>, c: Seq<u8>)
    ensures
        a + (b + c) == (a + b) + c,
{
    assert(a + (b + c) =~= (a + b) + c);
}

/// What a value holds is read back as it was written.
#[verifier::spinoff_prover]
#[verifier::rlimit(100)]
proof fn lemma_variant_roundtrip(value: ValueView, rest: Seq<u8>)
    requires
        value.wf(),
    ensures
        read_variant(variant_number(value), payload_wire(value) + rest) == Ok::<
            (ValueView, Seq<u8>),
            DecodeError,
        >((value, rest)),
    decreases value, 0nat,
{
    match value {
        ValueView::Nothing => {
            assert(Seq::<u8>::empty() + rest =~= rest);
        },
        ValueView::Null => {
            assert(Seq::<u8>::empty() + rest =~= rest);
        },
        ValueView::Bool(b) => {
            lemma_bool_roundtrip(b, rest);
        },
        ValueView::Number(n) => {
            lemma_number_roundtrip(n, rest);
        },
        ValueView::String(s) => {
            lemma_read_text(s, rest);
        },
        ValueView::Duration { secs, nanos } => {
            lemma_duration_roundtrip(secs, nanos, rest);
        },
        ValueView::Datetime { secs, nanos } => {
            lemma_datetime_roundtrip(secs, nanos, rest);
        },
        ValueView::Uuid(bytes) => {
            lemma_uuid_roundtrip(bytes, rest);
        },
        ValueView::Array(items) => {
            lemma_array_roundtrip(items, rest);
        },
        ValueView::Object(entries) => {
            lemma_object_roundtrip(entries, rest);
        },
        ValueView::Bytes(bytes) => {
            lemma_read_bytes(bytes, rest);
        },
        ValueView::RecordId { table, key } => {
            lemma_record_roundtrip(table, key, rest);
        },
    }
}

/// What is written is read back: reading the wire form of a well-formed value, whatever
/// follows it, gives the value and what follows.
#[verifier::spinoff_prover]
#[verifier::rlimit(100)]
pub proof fn lemma_value_roundtrip(value: ValueView, rest: Seq<u8>)
    requires
        value.wf(),
    ensures
        read_value(value_wire(value) + rest) == Ok::<(ValueView, Seq<u8>), DecodeError>(
            (value, rest),
        ),
        value_wire(value).len() >= 2,
    decreases value, 1nat,
{
    lemma_variant_roundtrip(value, rest);
    lemma_value_wire_parts(value);
    lemma_tagged(variant_number(value), payload_wire(value), rest);
}

/// An array is read back as it was written, after its variant number.
#[verifier::spinoff_prover]
#[verifier::rlimit(100)]
pub proof fn lemma_array_roundtrip(items: Seq<ValueView>, rest: Seq<u8>)
    requires
        items.len() <= usize::MAX,
        forall|i: int| 0 <= i < items.len() ==> (#[trigger] items[i]).wf(),
    ensures
        read_array(array_wire(items) + rest) == Ok::<(Seq<ValueView>, Seq<u8>), DecodeError>(
            (items, rest),
        ),
    decreases items, 3nat,
{
    let counted = varint(items.len() as u64) + (items_wire(items) + rest);
    assert(array_wire(items) + rest =~= varint(REVISION as u64) + counted);
    lemma_read_revision(counted);
    lemma_read_u64(REVISION as u64, counted);
    lemma_read_u64(items.len() as u64, items_wire(items) + rest);
    lemma_items_roundtrip(items, rest, Seq::empty());
    assert(Seq::<ValueView>::empty() + items =~= items);
}

/// Items are read back as they were written, behind those read before them.
#[verifier::spinoff_prover]
#[verifier::rlimit(100)]
pub proof fn lemma_items_roundtrip(items: Seq<ValueView>, rest: Seq<u8>, read: Seq<ValueView>)
    requires
        forall|i: int| 0 <= i < items.len() ==> (#[trigger] items[i]).wf(),
    ensures
        read_items(items_wire(items) + rest, items.len(), read) == Ok::<
            (Seq<ValueView>, Seq<u8>),
            DecodeError,
        >((read + items, rest)),
    decreases items, 2nat,
{
    if items.len() == 0 {
        assert(items_wire(items) + rest =~= rest);
        assert(read + items =~= read);
    } else {
        let tail = items.skip(1);
        let after = items_wire(tail) + rest;
        assert(items_wire(items) + rest =~= value_wire(items[0]) + after);
        lemma_value_roundtrip(items[0], after);
        assert forall|i: int| 0 <= i < tail.len() implies (#[trigger] tail[i]).wf() by {
            assert(tail[i] == items[i + 1]);
        }
        lemma_items_roundtrip(tail, rest, read.push(items[0]));
        assert(read.push(items[0]) + tail =~= read + items);
    }
}

/// An object is read back as it was written, after its variant number.
#[verifier::spinoff_prover]
#[verifier::rlimit(100)]
pub proof fn lemma_object_roundtrip(entries: Seq<(Seq<char>, ValueView)>, rest: Seq<u8>)
    requires
        ValueView::Object(entries).wf(),
    ensures
        read_object(object_wire(entries) + rest) == Ok::<
            (Seq<(Seq<char>, ValueView)>, Seq<u8>),
            DecodeError,
        >((entries, rest)),
    decreases entries, 4nat,
{
    let counted = counted_entries_wire(entries) + rest;
    assert(object_wire(entries) + rest =~= varint(REVISION as u64) + counted);
    lemma_read_revision(counted);
    lemma_read_u64(REVISION as u64, counted);
    lemma_counted_entries_roundtrip(entries, rest);
}

/// Counted entries are read back as they were written.
#[verifier::spinoff_prover]
#[verifier::rlimit(100)]
pub proof fn lemma_counted_entries_roundtrip(
    entries: Seq<(Seq<char>, ValueView)>,
    rest: Seq<u8>,
)
    requires
        ValueView::Object(entries).wf(),
    ensures
        read_counted_entries(counted_entries_wire(entries) + rest) == Ok::<
            (Seq<(Seq<char>, ValueView)>, Seq<u8>),
            DecodeError,
        >((entries, rest)),
    decreases entries, 3nat,
{
    let after = entries_wire(entries) + rest;
    assert(counted_entries_wire(entries) + rest =~= varint(entries.len() as u64) + after);
    lemma_read_u64(entries.len() as u64, after);
    assert(Seq::<(Seq<char>, ValueView)>::empty() + entries =~= entries);
    lemma_entries_roundtrip(entries, rest, Seq::empty());
}

/// Entries are read back as they were written, behind those read before them.
#[verifier::spinoff_prover]
#[verifier::rlimit(100)]
pub proof fn lemma_entries_roundtrip(
    entries: Seq<(Seq<char>, ValueView)>,
    rest: Seq<u8>,
    read: Seq<(Seq<char>, ValueView)>,
)
    requires
        keys_ascend(read + entries),
        forall|i: int|
            0 <= i < entries.len() ==> encode_utf8(#[trigger] entries[i].0).len() <= usize::MAX,
        forall|i: int| 0 <= i < entries.len() ==> (#[trigger] entries[i]).1.wf(),
    ensures
        read_entries(entries_wire(entries) + rest, entries.len(), read) == Ok::<
            (Seq<(Seq<char>, ValueView)>, Seq<u8>),
            DecodeError,
        >((read + entries, rest)),
    decreases entries, 2nat,
{
    if entries.len() == 0 {
        assert(entries_wire(entries) + rest =~= rest);
        assert(read + entries =~= read);
    } else {
        let tail = entries.skip(1);
        let key = entries[0].0;
        let value = entries[0].1;
        let after_value = entries_wire(tail) + rest;
        let after_key = value_wire(value) + after_value;
        assert(entries_wire(entries) + rest =~= text_wire(key) + after_key);
        lemma_read_text(key, after_key);
        lemma_value_roundtrip(value, after_value);
        let all = read + entries;
        if read.len() > 0 {
            assert(all[read.len() - 1] == read.last());
            assert(all[read.len() as int] == entries[0]);
        }
        let next = read.push(entries[0]);
        assert(next + tail =~= all);
        assert forall|i: int| 0 <= i < tail.len() implies encode_utf8(
            #[trigger] tail[i].0,
        ).len() <= usize::MAX && tail[i].1.wf() by {
            assert(tail[i] == entries[i + 1]);
        }
        lemma_entries_roundtrip(tail, rest, next);
    }
}

/// What the key of a record id holds, after its revision and variant number.
pub open spec fn key_payload_wire(key: KeyView) -> Seq<u8> {
    match key {
        KeyView::Integer(i) => signed_varint(i),
        KeyView::String(s) => text_wire(s),
        KeyView::Array(items) => array_wire(items),
        KeyView::Object(entries) => counted_entries_wire(entries),
    }
}

/// The number of the variant of the key of a record id.
pub open spec fn key_variant_number(key: KeyView) -> u32 {
    match key {
        KeyView::Integer(_) => 0,
        KeyView::String(_) => 1,
        KeyView::Array(_) => 2,
        KeyView::Object(_) => 3,
    }
}

/// What the key of a record id holds is read back as it was written.
#[verifier::spinoff_prover]
#[verifier::rlimit(100)]
proof fn lemma_key_variant_roundtrip(key: KeyView, rest: Seq<u8>)
    requires
        key.wf(),
    ensures
        read_key_variant(key_variant_number(key), key_payload_wire(key) + rest) == Ok::<
            (KeyView, Seq<u8>),
            DecodeError,
        >((key, rest)),
    decreases key, 5nat,
{
    match key {
        KeyView::Integer(i) => {
            lemma_read_i64(i, rest);
        },
        KeyView::String(s) => {
            lemma_read_text(s, rest);
        },
        KeyView::Array(items) => {
            lemma_array_roundtrip(items, rest);
        },
        KeyView::Object(entries) => {
            assert(ValueView::Object(entries).wf());
            lemma_counted_entries_roundtrip(entries, rest);
        },
    }
}

/// The key of a record id is read back as it was written.
#[verifier::spinoff_prover]
#[verifier::rlimit(100)]
pub proof fn lemma_key_roundtrip(key: KeyView, rest: Seq<u8>)
    requires
        key.wf(),
    ensures
        read_key(key_wire(key) + rest) == Ok::<(KeyView, Seq<u8>), DecodeError>((key, rest)),
        key_wire(key).len() >= 2,
    decreases key, 6nat,
{
    lemma_key_variant_roundtrip(key, rest);
    assert(key_wire(key) == varint(REVISION as u64) + (varint(key_variant_number(key) as u64)
        + key_payload_wire(key)));
    lemma_tagged_key(key_variant_number(key), key_payload_wire(key), rest);
}

/// A record id is read back as it was written.
#[verifier::spinoff_prover]
#[verifier::rlimit(100)]
pub proof fn lemma_record_roundtrip(table: Seq<char>, key: KeyView, rest: Seq<u8>)
    requires
        encode_utf8(table).len() <= usize::MAX,
        key.wf(),
    ensures
        read_record(record_wire(table, key) + rest) == Ok::<
            ((Seq<char>, KeyView), Seq<u8>),
            DecodeError,
        >(((table, key), rest)),
    decreases key, 7nat,
{
    let after_table = key_wire(key) + rest;
    let after_revision = text_wire(table) + after_table;
    let all = record_wire(table, key) + rest;
    assert(all =~= varint(REVISION as u64) + after_revision);
    lemma_read_revision(after_revision);
    lemma_read_u64(REVISION as u64, after_revision);
    lemma_read_text(table, after_table);
    lemma_key_roundtrip(key, rest);
    assert(read_revision(all) == Ok::<Seq<u8>, DecodeError>(after_revision));
    assert(read_text(after_revision) == Some((table, after_table)));
    assert(after_table.len() < all.len());
}

/// An unsigned integer is read only off its own wire form.
pub proof fn lemma_u64_unique(bytes: Seq<u8>)
    ensures
        read_u64(bytes) matches Some((n, rest)) ==> bytes == varint(n) + rest && rest.len()
            < bytes.len(),
{
    if let Some((n, rest)) = read_u64(bytes) {
        lemma_radix_pow_values();
        lemma_le_bytes_len(n as nat, 2);
        lemma_le_bytes_len(n as nat, 4);
        lemma_le_bytes_len(n as nat, 8);
        if bytes[0] < 251 {
            assert(bytes =~= varint(n) + rest);
        } else if bytes[0] == 251 {
            let raw = bytes.subrange(1, 3);
            lemma_le_value_bound(raw);
            lemma_le_bytes_of_value(raw);
            assert(bytes =~= seq![251u8] + raw + rest);
        } else if bytes[0] == 252 {
            let raw = bytes.subrange(1, 5);
            lemma_le_value_bound(raw);
            lemma_le_bytes_of_value(raw);
            assert(bytes =~= seq![252u8] + raw + rest);
        } else {
            let raw = bytes.subrange(1, 9);
            lemma_le_value_bound(raw);
            lemma_le_bytes_of_value(raw);
            assert(bytes =~= seq![253u8] + raw + rest);
        }
    }
}

/// A revision or variant number is read only off its own wire form.
pub proof fn lemma_u32_unique(bytes: Seq<u8>)
    ensures
        read_u32(bytes) matches Some((n, rest)) ==> bytes == varint(n as u64) + rest
            && rest.len() < bytes.len(),
{
    lemma_u64_unique(bytes);
}

/// A signed integer is read only off its own wire form.
pub proof fn lemma_i64_unique(bytes: Seq<u8>)
    ensures
        read_i64(bytes) matches Some((v, rest)) ==> bytes == signed_varint(v) + rest
            && rest.len() < bytes.len(),
{
    lemma_u64_unique(bytes);
    if let Some((n, rest)) = read_u64(bytes) {
        assert(zigzag(unzigzag(n)) == n);
    }
}

/// Where a revision is accepted, the bytes start with the revision this library writes.
pub proof fn lemma_revision_unique(bytes: Seq<u8>)
    ensures
        read_revision(bytes) matches Ok(rest) ==> bytes == varint(REVISION as u64) + rest
            && rest.len() < bytes.len(),
{
    lemma_u32_unique(bytes);
}

/// A boolean is read only off its own wire form.
pub proof fn lemma_bool_unique(bytes: Seq<u8>)
    ensures
        parse_bool(bytes) matches Some((b, rest)) ==> bytes == bool_byte(b) + rest,
{
    if let Some((b, rest)) = parse_bool(bytes) {
        assert(bytes =~= bool_byte(b) + rest);
    }
}

/// Raw bytes taken off the front, and what is left, make up the whole.
pub proof fn lemma_raw_unique(bytes: Seq<u8>, count: nat)
    ensures
        read_raw(bytes, count) matches Some((raw, rest)) ==> bytes == raw + rest && raw.len()
            == count,
{
    if let Some((raw, rest)) = read_raw(bytes, count) {
        assert(bytes =~= raw + rest);
    }
}

/// A byte string is read only off its own wire form.
pub proof fn lemma_bytes_unique(bytes: Seq<u8>)
    ensures
        read_bytes(bytes) matches Some((raw, rest)) ==> bytes == bytes_wire(raw) + rest
            && raw.len() < bytes.len() && rest.len() < bytes.len(),
{
    lemma_u64_unique(bytes);
    if let Some((len, after)) = read_u64(bytes) {
        lemma_raw_unique(after, len as nat);
        if let Some((raw, rest)) = read_raw(after, len as nat) {
            assert(bytes =~= bytes_wire(raw) + rest);
        }
    }
}

/// A text is read only off its own wire form.
pub proof fn lemma_text_unique(bytes: Seq<u8>)
    ensures
        read_text(bytes) matches Some((text, rest)) ==> bytes == text_wire(text) + rest
            && encode_utf8(text).len() < bytes.len() && rest.len() < bytes.len(),
{
    lemma_bytes_unique(bytes);
    if let Some((raw, rest)) = read_bytes(bytes) {
        if valid_utf8(raw) {
            decode_utf8_encode_utf8(raw);
        }
    }
}

/// What a number holds is read only off its own wire form.
pub proof fn lemma_number_body_unique(variant: u32, bytes: Seq<u8>)
    ensures
        read_number_body(variant, bytes) matches Ok((number, rest)) ==> number.wf()
            && rest.len() <= bytes.len() && varint(variant as u64) + bytes == (match number {
            NumberView::Integer(i) => varint(0) + signed_varint(i),
            NumberView::Float(bits) => varint(1) + le_bytes(bits as nat, 8),
            NumberView::Decimal(raw) => varint(2) + raw,
        }) + rest,
{
    if let Ok((number, rest)) = read_number_body(variant, bytes) {
        if variant == 0 {
            lemma_i64_unique(bytes);
            let i = number->Integer_0;
            assert(varint(0) + bytes =~= varint(0) + signed_varint(i) + rest);
        } else if variant == 1 {
            lemma_raw_unique(bytes, 8);
            let raw = bytes.take(8);
            lemma_le_value_bound(raw);
            lemma_le_bytes_of_value(raw);
            lemma_radix_pow_values();
            assert(varint(1) + bytes =~= varint(1) + raw + rest);
        } else {
            lemma_raw_unique(bytes, 16);
            let raw = bytes.take(16);
            assert(varint(2) + bytes =~= varint(2) + raw + rest);
        }
    }
}

/// A number is read only off its own wire form.
pub proof fn lemma_number_unique(bytes: Seq<u8>)
    ensures
        read_number(bytes) matches Ok((number, rest)) ==> bytes == number_wire(number) + rest
            && number.wf() && rest.len() < bytes.len(),
{
    lemma_revision_unique(bytes);
    if let Ok(after) = read_revision(bytes) {
        lemma_u32_unique(after);
        if let Some((variant, body)) = read_u32(after) {
            lemma_number_body_unique(variant, body);
            if let Ok((number, rest)) = read_number_body(variant, body) {
                let tagged = match number {
                    NumberView::Integer(i) => varint(0) + signed_varint(i),
                    NumberView::Float(bits) => varint(1) + le_bytes(bits as nat, 8),
                    NumberView::Decimal(raw) => varint(2) + raw,
                };
                assert(after == tagged + rest);
                assert(bytes =~= varint(REVISION as u64) + tagged + rest);
            }
        }
    }
}

/// A duration is read only off its own wire form.
pub proof fn lemma_duration_unique(bytes: Seq<u8>)
    ensures
        read_duration(bytes) matches Ok((value, rest)) ==> value is Duration && bytes
            == payload_wire(value) + rest && value.wf() && rest.len() <= bytes.len(),
{
    lemma_revision_unique(bytes);
    if let Ok(after) = read_revision(bytes) {
        lemma_u64_unique(after);
        if let Some((secs, after_secs)) = read_u64(after) {
            lemma_u32_unique(after_secs);
            if let Some((nanos, rest)) = read_u32(after_secs) {
                assert(bytes =~= duration_wire(secs, nanos) + rest);
            }
        }
    }
}

/// An instant is read only off its own wire form.
pub proof fn lemma_datetime_unique(bytes: Seq<u8>)
    ensures
        read_datetime(bytes) matches Ok((value, rest)) ==> value is Datetime && bytes
            == payload_wire(value) + rest && value.wf() && rest.len() <= bytes.len(),
{
    lemma_i64_unique(bytes);
    if let Some((secs, after_secs)) = read_i64(bytes) {
        lemma_u32_unique(after_secs);
        if let Some((nanos, rest)) = read_u32(after_secs) {
            assert(bytes =~= datetime_wire(secs, nanos) + rest);
        }
    }
}

/// A uuid is read only off its own wire form.
pub proof fn lemma_uuid_unique(bytes: Seq<u8>)
    ensures
        read_uuid(bytes) matches Ok((value, rest)) ==> value is Uuid && bytes == payload_wire(
            value,
        ) + rest && value.wf() && rest.len() <= bytes.len(),
{
    lemma_revision_unique(bytes);
    if let Ok(after) = read_revision(bytes) {
        lemma_raw_unique(after, 16);
        if let Some((raw, rest)) = read_raw(after, 16) {
            assert(bytes =~= uuid_wire(raw) + rest);
        }
    }
}

/// Items are read only off their own wire form: what was read behind the items read
/// before is exactly what the bytes spell.
#[verifier::spinoff_prover]
#[verifier::rlimit(100)]
pub proof fn lemma_items_unique(bytes: Seq<u8>, count: nat, read: Seq<ValueView>)
    ensures
        read_items(bytes, count, read) matches Ok((all, rest)) ==> {
            let items = all.skip(read.len() as int);
            &&& all == read + items
            &&& items.len() == count
            &&& bytes == items_wire(items) + rest
            &&& rest.len() <= bytes.len()
            &&& count <= bytes.len()
            &&& bytes.len() <= usize::MAX ==> forall|i: int|
                0 <= i < items.len() ==> (#[trigger] items[i]).wf()
        },
    decreases bytes.len(), count + 1,
{
    if let Ok((all, rest)) = read_items(bytes, count, read) {
        let items = all.skip(read.len() as int);
        if count == 0 {
            assert(items =~= Seq::empty());
            assert(all =~= read + items);
            assert(bytes =~= items_wire(items) + rest);
        } else {
            lemma_value_unique(bytes);
            let (item, after) = read_value(bytes)->Ok_0;
            let next = read.push(item);
            lemma_items_unique(after, (count - 1) as nat, next);
            let tail = all.skip(next.len() as int);
            assert(all == next + tail);
            assert(items =~= seq![item] + tail);
            assert(all =~= read + items);
            assert(items[0] == item);
            assert(items.skip(1) =~= tail);
            assert(bytes =~= items_wire(items) + rest);
            if bytes.len() <= usize::MAX {
                assert forall|i: int| 0 <= i < items.len() implies (#[trigger] items[i]).wf() by {
                    if i > 0 {
                        assert(items[i] == tail[i - 1]);
                    }
                }
            }
        }
    }
}

/// An array is read only off its own wire form.
#[verifier::spinoff_prover]
#[verifier::rlimit(100)]
pub proof fn lemma_array_unique(bytes: Seq<u8>)
    ensures
        read_array(bytes) matches Ok((items, rest)) ==> bytes == array_wire(items) + rest
            && rest.len() <= bytes.len() && (bytes.len() <= usize::MAX ==> ValueView::Array(
            items,
        ).wf()),
    decreases bytes.len(), 1nat,
{
    lemma_revision_unique(bytes);
    if let Ok(after) = read_revision(bytes) {
        lemma_u64_unique(after);
        if let Some((count, body)) = read_u64(after) {
            lemma_items_unique(body, count as nat, Seq::empty());
            if let Ok((items, rest)) = read_items(body, count as nat, Seq::empty()) {
                assert(items.skip(0) =~= items);
                assert(bytes =~= array_wire(items) + rest);
            }
        }
    }
}

/// Entries are read only off their own wire form, and their keys ascend.
#[verifier::spinoff_prover]
#[verifier::rlimit(100)]
pub proof fn lemma_entries_unique(
    bytes: Seq<u8>,
    count: nat,
    read: Seq<(Seq<char>, ValueView)>,
)
    requires
        keys_ascend(read),
    ensures
        read_entries(bytes, count, read) matches Ok((all, rest)) ==> {
            let entries = all.skip(read.len() as int);
            &&& all == read + entries
            &&& entries.len() == count
            &&& bytes == entries_wire(entries) + rest
            &&& rest.len() <= bytes.len()
            &&& count <= bytes.len()
            &&& keys_ascend(all)
            &&& bytes.len() <= usize::MAX ==> forall|i: int|
                0 <= i < entries.len() ==> encode_utf8((#[trigger] entries[i]).0).len()
                    <= usize::MAX && entries[i].1.wf()
        },
    decreases bytes.len(), count + 1,
{
    if let Ok((all, rest)) = read_entries(bytes, count, read) {
        let entries = all.skip(read.len() as int);
        if count == 0 {
            assert(entries =~= Seq::empty());
            assert(all =~= read + entries);
            assert(bytes =~= entries_wire(entries) + rest);
        } else {
            lemma_text_unique(bytes);
            let (key, after_key) = read_text(bytes)->Some_0;
            lemma_value_unique(after_key);
            let (value, after) = read_value(after_key)->Ok_0;
            let next = read.push((key, value));
            assert forall|i: int, j: int| 0 <= i < j < next.len() implies key_lt(
                next[i].0,
                next[j].0,
            ) by {
                if j == next.len() - 1 {
                    assert(key_lt(read.last().0, key));
                    if i < j - 1 {
                        assert(key_lt(read[i].0, read[j - 1].0));
                        crate::order::lemma_lex_transitive(
                            encode_utf8(read[i].0),
                            encode_utf8(read.last().0),
                            encode_utf8(key),
                        );
                    }
                } else {
                    assert(key_lt(read[i].0, read[j].0));
                }
            }
            lemma_entries_unique(after, (count - 1) as nat, next);
            let tail = all.skip(next.len() as int);
            assert(all == next + tail);
            assert(entries =~= seq![(key, value)] + tail);
            assert(all =~= read + entries);
            assert(entries[0] == (key, value));
            assert(entries.skip(1) =~= tail);
            assert(bytes =~= entries_wire(entries) + rest);
            if bytes.len() <= usize::MAX {
                assert forall|i: int| 0 <= i < entries.len() implies encode_utf8(
                    (#[trigger] entries[i]).0,
                ).len() <= usize::MAX && entries[i].1.wf() by {
                    if i > 0 {
                        assert(entries[i] == tail[i - 1]);
                    }
                }
            }
        }
    }
}

/// Counted entries are read only off their own wire form.
#[verifier::spinoff_prover]
#[verifier::rlimit(100)]
pub proof fn lemma_counted_entries_unique(bytes: Seq<u8>)
    ensures
        read_counted_entries(bytes) matches Ok((entries, rest)) ==> bytes
            == counted_entries_wire(entries) + rest && rest.len() < bytes.len() && (bytes.len()
            <= usize::MAX ==> ValueView::Object(entries).wf()),
    decreases bytes.len(), 1nat,
{
    lemma_u64_unique(bytes);
    if let Some((count, body)) = read_u64(bytes) {
        lemma_entries_unique(body, count as nat, Seq::empty());
        if let Ok((entries, rest)) = read_entries(body, count as nat, Seq::empty()) {
            assert(entries.skip(0) =~= entries);
            assert(bytes =~= counted_entries_wire(entries) + rest);
        }
    }
}

/// An object is read only off its own wire form.
#[verifier::spinoff_prover]
#[verifier::rlimit(100)]
pub proof fn lemma_object_unique(bytes: Seq<u8>)
    ensures
        read_object(bytes) matches Ok((entries, rest)) ==> bytes == object_wire(entries) + rest
            && rest.len() < bytes.len() && (bytes.len() <= usize::MAX ==> ValueView::Object(
            entries,
        ).wf()),
    decreases bytes.len(), 2nat,
{
    lemma_revision_unique(bytes);
    if let Ok(after) = read_revision(bytes) {
        lemma_counted_entries_unique(after);
        if let Ok((entries, rest)) = read_counted_entries(after) {
            assert(bytes =~= object_wire(entries) + rest);
        }
    }
}

/// What the key of a record id holds is read only off its own wire form.
#[verifier::spinoff_prover]
#[verifier::rlimit(100)]
pub proof fn lemma_key_variant_unique(variant: u32, bytes: Seq<u8>)
    ensures
        read_key_variant(variant, bytes) matches Ok((key, rest)) ==> variant
            == key_variant_number(key) && bytes == key_payload_wire(key) + rest && rest.len()
            <= bytes.len() && (bytes.len() <= usize::MAX ==> key.wf()),
    decreases bytes.len(), 3nat,
{
    if variant == 0 {
        lemma_i64_unique(bytes);
    } else if variant == 1 {
        lemma_text_unique(bytes);
    } else if variant == 2 {
        lemma_array_unique(bytes);
    } else if variant == 3 {
        lemma_counted_entries_unique(bytes);
    }
}

/// The key of a record id is read only off its own wire form.
#[verifier::spinoff_prover]
#[verifier::rlimit(100)]
pub proof fn lemma_key_unique(bytes: Seq<u8>)
    ensures
        read_key(bytes) matches Ok((key, rest)) ==> bytes == key_wire(key) + rest && rest.len()
            < bytes.len() && (bytes.len() <= usize::MAX ==> key.wf()),
    decreases bytes.len(), 4nat,
{
    lemma_revision_unique(bytes);
    if let Ok(after) = read_revision(bytes) {
        lemma_u32_unique(after);
        if let Some((variant, body)) = read_u32(after) {
            lemma_key_variant_unique(variant, body);
            if let Ok((key, rest)) = read_key_variant(variant, body) {
                lemma_key_wire_parts(key);
                lemma_join(varint(variant as u64), key_payload_wire(key), rest);
                lemma_join(
                    varint(REVISION as u64),
                    varint(variant as u64) + key_payload_wire(key),
                    rest,
                );
            }
        }
    }
}

/// A record id is read only off its own wire form.
#[verifier::spinoff_prover]
#[verifier::rlimit(100)]
pub proof fn lemma_record_unique(bytes: Seq<u8>)
    ensures
        read_record(bytes) matches Ok(((table, key), rest)) ==> bytes == record_wire(table, key)
            + rest && rest.len() < bytes.len() && (bytes.len() <= usize::MAX ==> encode_utf8(
            table,
        ).len() <= usize::MAX && key.wf()),
    decreases bytes.len(), 5nat,
{
    lemma_revision_unique(bytes);
    if let Ok(after) = read_revision(bytes) {
        lemma_text_unique(after);
        if let Some((table, after_table)) = read_text(after) {
            lemma_key_unique(after_table);
            if let Ok((key, rest)) = read_key(after_table) {
                lemma_join(text_wire(table), key_wire(key), rest);
                lemma_join(varint(REVISION as u64), text_wire(table) + key_wire(key), rest);
            }
        }
    }
}

/// What a value holds is read only off its own wire form.
#[verifier::spinoff_prover]
#[verifier::rlimit(100)]
pub proof fn lemma_variant_unique(variant: u32, bytes: Seq<u8>)
    ensures
        read_variant(variant, bytes) matches Ok((value, rest)) ==> variant == variant_number(
            value,
        ) && bytes == payload_wire(value) + rest && rest.len() <= bytes.len() && (bytes.len()
            <= usize::MAX ==> value.wf()),
    decreases bytes.len(), 6nat,
{
    if variant == 0 || variant == 1 {
        assert(bytes =~= Seq::<u8>::empty() + bytes);
    } else if variant == 2 {
        lemma_bool_unique(bytes);
    } else if variant == 3 {
        lemma_number_unique(bytes);
    } else if variant == 4 {
        lemma_text_unique(bytes);
    } else if variant == 5 {
        lemma_duration_unique(bytes);
    } else if variant == 6 {
        lemma_datetime_unique(bytes);
    } else if variant == 7 {
        lemma_uuid_unique(bytes);
    } else if variant == 8 {
        lemma_array_unique(bytes);
    } else if variant == 9 {
        lemma_object_unique(bytes);
    } else if variant == 11 {
        lemma_bytes_unique(bytes);
    } else if variant == 12 {
        lemma_record_unique(bytes);
    }
}

/// Nothing else is read: where bytes are read as a value, they start with the wire form
/// of that value, and the value is well-formed.
#[verifier::spinoff_prover]
#[verifier::rlimit(100)]
pub proof fn lemma_value_unique(bytes: Seq<u8>)
    ensures
        read_value(bytes) matches Ok((value, rest)) ==> bytes == value_wire(value) + rest
            && rest.len() < bytes.len() && (bytes.len() <= usize::MAX ==> value.wf()),
    decreases bytes.len(), 0nat,
{
    lemma_revision_unique(bytes);
    if let Ok(after) = read_revision(bytes) {
        lemma_u32_unique(after);
        if let Some((variant, body)) = read_u32(after) {
            if body.len() < bytes.len() {
                lemma_variant_unique(variant, body);
                if let Ok((value, rest)) = read_variant(variant, body) {
                    lemma_value_wire_parts(value);
                    assert(bytes =~= value_wire(value) + rest);
                }
            }
        }
    }
}

} // verus!

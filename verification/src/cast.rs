//! Casts: turning a value into a value of the type that a name asks for.
//!
//! A value that has the type already stays as it is. Text is read as the number, the
//! instant or the span that it spells. What cannot be turned gives the zero of the type,
//! and an instant that is not given is the time of the run. Turning text or a decimal into
//! a float, a float into a decimal, and a float or a collection into text is not done
//! here: such a cast is refused as unsupported.

use vstd::prelude::*;
use vstd::string::StringExecFns;
use vstd::utf8::encode_utf8;
use crate::dbs::Runtime;
use crate::err::Error;
use crate::err::ErrorView;
use crate::float::float_of_int;
use crate::float::from_int;
use crate::float::is_zero;
use crate::float::truncate;
use crate::float::truncated;
use crate::float::FRACTION_UNIT;
use crate::fmt::duration_text;
use crate::fmt::push_duration;
use crate::fmt::push_signed;
use crate::fmt::signed_text;
use crate::fmt::uuid_text;
use crate::fmt::uuid_to_text;
use crate::lexer::datetime::instant_at;
use crate::lexer::datetime::scan_instant;
use crate::lexer::duration::duration_at;
use crate::lexer::duration::most_nanos;
use crate::lexer::duration::scan_duration;
use crate::lexer::number::digit_run;
use crate::lexer::number::digits_to_u64;
use crate::lexer::number::digits_value;
use crate::lexer::number::is_digit;
use crate::lexer::number::scan_digits;
use crate::number::decimal_canonical_form;
use crate::number::decimal_integer;
use crate::number::decimal_is_zero;
use crate::number::decimal_text;
use crate::number::integer_bytes;
use crate::number::text_decimal;
use crate::number::Decimal;
use crate::number::Number;
use crate::number::NumberView;
use crate::strings::same_text;
use crate::time::instant_written;
use crate::time::Datetime;
use crate::time::Duration;
use crate::value::Value;
use crate::value::ValueView;

verus! {

/// An upper-case letter of ASCII as its lower-case letter, and every other byte as it is.
pub open spec fn lower(b: u8) -> u8 {
    if 'A' as u8 <= b <= 'Z' as u8 {
        (b + 32) as u8
    } else {
        b
    }
}

/// Whether the bytes spell `false`, in upper or lower case.
pub open spec fn says_false(bytes: Seq<u8>) -> bool {
    bytes.len() == 5 && lower(bytes[0]) == 'f' as u8 && lower(bytes[1]) == 'a' as u8 && lower(
        bytes[2],
    ) == 'l' as u8 && lower(bytes[3]) == 's' as u8 && lower(bytes[4]) == 'e' as u8
}

/// Whether a value counts as true: `true`, a number that is not zero, a text that is
/// neither empty nor `false`, a span or an instant above zero, a uuid, a record id, and a
/// collection that is not empty.
pub open spec fn truthy(v: ValueView) -> bool {
    match v {
        ValueView::Bool(b) => b,
        ValueView::Number(NumberView::Integer(i)) => i != 0,
        ValueView::Number(NumberView::Float(bits)) => !is_zero(bits),
        ValueView::Number(NumberView::Decimal(bytes)) => !decimal_is_zero(bytes),
        ValueView::String(s) => encode_utf8(s).len() > 0 && !says_false(encode_utf8(s)),
        ValueView::Duration { secs, nanos } => secs > 0 || nanos > 0,
        ValueView::Datetime { secs, nanos } => secs > 0,
        ValueView::Uuid(_) => true,
        ValueView::Array(items) => items.len() > 0,
        ValueView::Object(entries) => entries.len() > 0,
        ValueView::RecordId { table, key } => true,
        _ => false,
    }
}

/// The integer that the bytes spell: digits, behind a plus or minus sign or none, where
/// the number fits 64 bits.
pub open spec fn whole_of_text(bytes: Seq<u8>) -> Option<i64> {
    let signed = bytes.len() > 0 && (bytes[0] == '+' as u8 || bytes[0] == '-' as u8);
    let digits = if signed {
        bytes.skip(1)
    } else {
        bytes
    };
    let size = digits_value(digits);
    if digits.len() == 0 || digit_run(digits) != digits.len() {
        None
    } else if signed && bytes[0] == '-' as u8 {
        if size <= 9223372036854775808 {
            Some((-size) as i64)
        } else {
            None
        }
    } else if size <= i64::MAX {
        Some(size as i64)
    } else {
        None
    }
}

/// A value as an integer. A float is cut off towards zero, and so is a decimal, which
/// gives zero where it does not fit. Text gives the integer it spells. A span gives its
/// seconds, as the 64 bits hold them, and an instant its seconds since the start of 1970.
/// `true` gives one, and everything else zero.
pub open spec fn integer_of(v: ValueView) -> i64 {
    match v {
        ValueView::Bool(true) => 1,
        ValueView::Number(NumberView::Integer(i)) => i,
        ValueView::Number(NumberView::Float(bits)) => truncated(bits),
        ValueView::Number(NumberView::Decimal(bytes)) => match decimal_integer(bytes) {
            Some(i) => i,
            None => 0,
        },
        ValueView::String(s) => match whole_of_text(encode_utf8(s)) {
            Some(i) => i,
            None => 0,
        },
        ValueView::Duration { secs, nanos } => if secs <= i64::MAX {
            secs as i64
        } else {
            (secs - 18446744073709551616) as i64
        },
        ValueView::Datetime { secs, nanos } => secs,
        _ => 0,
    }
}

/// A value as the bits of a float, where this can be said without computing with floats.
/// An integer gives the float nearest to it, and so do the seconds of an instant. `true`
/// gives one. Text, a decimal and a span give nothing. Everything else gives zero.
pub open spec fn float_of(v: ValueView) -> Option<u64> {
    match v {
        ValueView::Bool(true) => Some(float_of_int(1) as u64),
        ValueView::Number(NumberView::Integer(i)) => Some(float_of_int(i) as u64),
        ValueView::Number(NumberView::Float(bits)) => Some(bits),
        ValueView::Number(NumberView::Decimal(_)) => None,
        ValueView::String(_) => None,
        ValueView::Duration { secs, nanos } => None,
        ValueView::Datetime { secs, nanos } => Some(float_of_int(secs) as u64),
        _ => Some(0),
    }
}

/// A value as the bytes of a decimal, where this can be said without computing with
/// floats. Text gives the decimal it spells, or zero. An integer gives itself, and so do
/// the seconds of an instant. `true` gives one. A float and a span give nothing.
/// Everything else gives zero.
pub open spec fn decimal_of(v: ValueView) -> Option<Seq<u8>> {
    match v {
        ValueView::Bool(true) => Some(integer_bytes(1)),
        ValueView::Number(NumberView::Integer(i)) => Some(integer_bytes(i as int)),
        ValueView::Number(NumberView::Float(_)) => None,
        ValueView::Number(NumberView::Decimal(bytes)) => Some(bytes),
        ValueView::String(s) => match text_decimal(s) {
            Some(bytes) => Some(decimal_canonical_form(bytes)),
            None => Some(integer_bytes(0)),
        },
        ValueView::Duration { secs, nanos } => None,
        ValueView::Datetime { secs, nanos } => Some(integer_bytes(secs as int)),
        _ => Some(integer_bytes(0)),
    }
}

/// A value as text, where it is written without computing with floats: text as it is, and
/// a number, a span, an instant and a uuid as they are written. A float and a collection
/// give nothing.
pub open spec fn text_of(v: ValueView) -> Option<Seq<char>> {
    match v {
        ValueView::Nothing => Some("NONE"@),
        ValueView::Null => Some("NULL"@),
        ValueView::Bool(b) => Some(
            if b {
                "true"@
            } else {
                "false"@
            },
        ),
        ValueView::Number(NumberView::Integer(i)) => Some(signed_text(i as int)),
        ValueView::Number(NumberView::Float(_)) => None,
        ValueView::Number(NumberView::Decimal(bytes)) => Some(decimal_text(bytes)),
        ValueView::String(s) => Some(s),
        ValueView::Duration { secs, nanos } => Some(duration_text(secs, nanos)),
        ValueView::Datetime { secs, nanos } => Some(instant_written(secs, nanos)),
        ValueView::Uuid(bytes) => Some(uuid_text(bytes)),
        _ => None,
    }
}

/// A value as an instant: an instant as it is, text as the instant that the whole of it
/// spells, and everything else as the time `now`.
pub open spec fn datetime_of(now: (i64, u32), v: ValueView) -> (i64, u32) {
    match v {
        ValueView::Datetime { secs, nanos } => (secs, nanos),
        ValueView::String(s) => match instant_at(encode_utf8(s), 0) {
            Some((instant, end)) => if end == encode_utf8(s).len() {
                instant
            } else {
                now
            },
            None => now,
        },
        _ => now,
    }
}

/// A value as a span: a span as it is, text as the span that the whole of it spells, and
/// everything else as no time at all.
pub open spec fn duration_of(v: ValueView) -> (u64, u32) {
    match v {
        ValueView::Duration { secs, nanos } => (secs, nanos),
        ValueView::String(s) => match duration_at(encode_utf8(s), 0) {
            Some((nanos, end)) => if end == encode_utf8(s).len() && nanos <= most_nanos() {
                ((nanos / 1000000000) as u64, (nanos % 1000000000) as u32)
            } else {
                (0, 0)
            },
            None => (0, 0),
        },
        _ => (0, 0),
    }
}

/// What the cast that `name` asks for makes of a value. A name that asks for no cast
/// leaves the value as it is.
pub open spec fn cast(now: (i64, u32), name: Seq<char>, v: ValueView) -> Result<
    ValueView,
    ErrorView,
> {
    if name == "bool"@ {
        Ok(ValueView::Bool(truthy(v)))
    } else if name == "int"@ {
        Ok(ValueView::Number(NumberView::Integer(integer_of(v))))
    } else if name == "float"@ {
        match float_of(v) {
            Some(bits) => Ok(ValueView::Number(NumberView::Float(bits))),
            None => Err(ErrorView::Unsupported),
        }
    } else if name == "string"@ {
        match text_of(v) {
            Some(text) => Ok(ValueView::String(text)),
            None => Err(ErrorView::Unsupported),
        }
    } else if name == "number"@ || name == "decimal"@ {
        match decimal_of(v) {
            Some(bytes) => Ok(ValueView::Number(NumberView::Decimal(bytes))),
            None => Err(ErrorView::Unsupported),
        }
    } else if name == "datetime"@ {
        Ok(ValueView::Datetime { secs: datetime_of(now, v).0, nanos: datetime_of(now, v).1 })
    } else if name == "duration"@ {
        Ok(ValueView::Duration { secs: duration_of(v).0, nanos: duration_of(v).1 })
    } else {
        Ok(v)
    }
}

fn lowered(b: u8) -> (l: u8)
    ensures
        l == lower(b),
{
    if 'A' as u8 <= b && b <= 'Z' as u8 {
        b + 32
    } else {
        b
    }
}

/// Whether a value counts as true.
pub fn is_truthy(val: &Value) -> (truth: bool)
    ensures
        truth == truthy(val@),
{
    match val {
        Value::Bool(b) => *b,
        Value::Number(Number::Integer(i)) => *i != 0,
        Value::Number(Number::Float(bits)) => !(*bits / FRACTION_UNIT % 2048 == 0 && *bits
            % FRACTION_UNIT == 0),
        Value::Number(Number::Decimal(d)) => !d.is_zero(),
        Value::String(s) => {
            let bytes = s.as_str().as_bytes();
            if bytes.len() == 0 {
                false
            } else if bytes.len() != 5 {
                true
            } else {
                !(lowered(bytes[0]) == 'f' as u8 && lowered(bytes[1]) == 'a' as u8 && lowered(
                    bytes[2],
                ) == 'l' as u8 && lowered(bytes[3]) == 's' as u8 && lowered(bytes[4])
                    == 'e' as u8)
            }
        },
        Value::Duration(d) => d.secs() > 0 || d.subsec_nanos() > 0,
        Value::Datetime(d) => d.timestamp() > 0,
        Value::Uuid(_) => true,
        Value::Array(items) => {
            assert(crate::value::items_view(items@).len() == items@.len());
            items.len() > 0
        },
        Value::Object(object) => object.len() > 0,
        Value::RecordId(_) => true,
        _ => false,
    }
}

/// The integer that the bytes spell.
pub fn parse_whole(bytes: &[u8]) -> (whole: Option<i64>)
    ensures
        whole == whole_of_text(bytes@),
{
    let n = bytes.len();
    let signed = n > 0 && (bytes[0] == '+' as u8 || bytes[0] == '-' as u8);
    let from: usize = if signed {
        1
    } else {
        0
    };
    let end = scan_digits(bytes, from);
    proof {
        assert(bytes@.skip(0) =~= bytes@);
        assert(bytes@.subrange(from as int, n as int) =~= bytes@.skip(from as int));
    }
    if end == from || end != n {
        return None;
    }
    proof {
        lemma_digit_run_all(bytes@.skip(from as int));
        assert forall|i: int| from <= i < n implies is_digit(bytes@[i]) by {
            assert(bytes@.skip(from as int)[i - from] == bytes@[i]);
        }
    }
    let size = match digits_to_u64(bytes, from, n) {
        Some(size) => size,
        None => return None,
    };
    if signed && bytes[0] == '-' as u8 {
        if size < 9223372036854775808 {
            Some(-(size as i64))
        } else if size == 9223372036854775808 {
            Some(i64::MIN)
        } else {
            None
        }
    } else if size <= 9223372036854775807 {
        Some(size as i64)
    } else {
        None
    }
}

/// Where the digits at the front run to the end, every byte is a digit.
pub proof fn lemma_digit_run_all(bytes: Seq<u8>)
    requires
        digit_run(bytes) == bytes.len(),
    ensures
        forall|i: int| 0 <= i < bytes.len() ==> is_digit(#[trigger] bytes[i]),
    decreases bytes.len(),
{
    if bytes.len() > 0 {
        lemma_digit_run_bound(bytes.skip(1));
        lemma_digit_run_all(bytes.skip(1));
        assert forall|i: int| 0 <= i < bytes.len() implies is_digit(#[trigger] bytes[i]) by {
            if i > 0 {
                assert(bytes.skip(1)[i - 1] == bytes[i]);
            }
        }
    }
}

/// No more digits stand at the front than there are bytes.
pub proof fn lemma_digit_run_bound(bytes: Seq<u8>)
    ensures
        digit_run(bytes) <= bytes.len(),
    decreases bytes.len(),
{
    if bytes.len() > 0 && is_digit(bytes[0]) {
        lemma_digit_run_bound(bytes.skip(1));
    }
}

/// A value as an integer.
pub fn to_integer(val: &Value) -> (whole: i64)
    ensures
        whole == integer_of(val@),
{
    match val {
        Value::Bool(true) => 1,
        Value::Number(Number::Integer(i)) => *i,
        Value::Number(Number::Float(bits)) => truncate(*bits),
        Value::Number(Number::Decimal(d)) => match d.to_integer() {
            Some(i) => i,
            None => 0,
        },
        Value::String(s) => match parse_whole(s.as_str().as_bytes()) {
            Some(i) => i,
            None => 0,
        },
        Value::Duration(d) => {
            let secs = d.secs();
            if secs <= 9223372036854775807 {
                secs as i64
            } else {
                ((secs - 9223372036854775808) as i64) + i64::MIN
            }
        },
        Value::Datetime(d) => d.timestamp(),
        _ => 0,
    }
}

/// A value as the bits of a float, where this can be said without computing with floats.
pub fn to_float(val: &Value) -> (bits: Option<u64>)
    ensures
        bits == float_of(val@),
{
    match val {
        Value::Bool(true) => Some(from_int(1)),
        Value::Number(Number::Integer(i)) => Some(from_int(*i)),
        Value::Number(Number::Float(bits)) => Some(*bits),
        Value::Number(Number::Decimal(_)) => None,
        Value::String(_) => None,
        Value::Duration(_) => None,
        Value::Datetime(d) => Some(from_int(d.timestamp())),
        _ => Some(0),
    }
}

/// A value as a decimal, where this can be said without computing with floats.
pub fn to_decimal(val: &Value) -> (decimal: Option<Decimal>)
    ensures
        match decimal {
            Some(d) => (val@.wf() ==> d.wf()) && decimal_of(val@) == Some(d@),
            None => decimal_of(val@) is None,
        },
{
    match val {
        Value::Bool(true) => Some(Decimal::from_integer(1)),
        Value::Number(Number::Integer(i)) => Some(Decimal::from_integer(*i)),
        Value::Number(Number::Float(_)) => None,
        Value::Number(Number::Decimal(d)) => Some(*d),
        Value::String(s) => match Decimal::from_text(s.as_str()) {
            Some(d) => Some(d),
            None => Some(Decimal::from_integer(0)),
        },
        Value::Duration(_) => None,
        Value::Datetime(d) => Some(Decimal::from_integer(d.timestamp())),
        _ => Some(Decimal::from_integer(0)),
    }
}

/// A value as text, where it is written without computing with floats.
pub fn to_text(val: &Value) -> (text: Option<String>)
    ensures
        match text {
            Some(text) => text_of(val@) == Some(text@),
            None => text_of(val@) is None,
        },
{
    match val {
        Value::Nothing => Some(String::from_str("NONE")),
        Value::Null => Some(String::from_str("NULL")),
        Value::Bool(b) => Some(
            if *b {
                String::from_str("true")
            } else {
                String::from_str("false")
            },
        ),
        Value::Number(Number::Integer(i)) => {
            let mut text = String::from_str("");
            proof {
                reveal_strlit("");
            }
            push_signed(*i, &mut text);
            assert(text@ =~= signed_text(*i as int));
            Some(text)
        },
        Value::Number(Number::Float(_)) => None,
        Value::Number(Number::Decimal(d)) => Some(d.to_text()),
        Value::String(s) => Some(s.clone()),
        Value::Duration(d) => {
            let mut text = String::from_str("");
            proof {
                reveal_strlit("");
            }
            push_duration(d, &mut text);
            assert(text@ =~= duration_text(d@.0, d@.1));
            Some(text)
        },
        Value::Datetime(d) => Some(d.to_text()),
        Value::Uuid(uuid) => Some(uuid_to_text(uuid)),
        _ => None,
    }
}

/// A value as an instant.
pub fn to_datetime(ctx: &Runtime, val: &Value) -> (instant: Datetime)
    ensures
        instant@ == datetime_of(ctx.now@, val@),
{
    match val {
        Value::Datetime(d) => *d,
        Value::String(s) => {
            let bytes = s.as_str().as_bytes();
            match scan_instant(bytes, 0) {
                Some((instant, end)) => if end == bytes.len() {
                    instant
                } else {
                    ctx.now
                },
                None => ctx.now,
            }
        },
        _ => ctx.now,
    }
}

/// A value as a span.
pub fn to_duration(val: &Value) -> (span: Duration)
    ensures
        span@ == duration_of(val@),
        val@.wf() ==> span.wf(),
{
    match val {
        Value::Duration(d) => *d,
        Value::String(s) => {
            let bytes = s.as_str().as_bytes();
            match scan_duration(bytes, 0) {
                Some((nanos, end)) => if end == bytes.len() {
                    let secs = (nanos / 1_000_000_000) as u64;
                    let rest = (nanos % 1_000_000_000) as u32;
                    match Duration::new(secs, rest) {
                        Some(span) => span,
                        None => Duration::from_secs(0),
                    }
                } else {
                    Duration::from_secs(0)
                },
                None => Duration::from_secs(0),
            }
        },
        _ => Duration::from_secs(0),
    }
}

/// The cast to a boolean.
pub fn bool(ctx: &Runtime, val: Value) -> (result: Result<Value, Error>)
    ensures
        result matches Ok(value) && value@ == ValueView::Bool(truthy(val@)),
{
    Ok(Value::Bool(is_truthy(&val)))
}

/// The cast to an integer.
pub fn integer(ctx: &Runtime, val: Value) -> (result: Result<Value, Error>)
    ensures
        result matches Ok(value) && value@ == ValueView::Number(
            NumberView::Integer(integer_of(val@)),
        ),
{
    Ok(Value::Number(Number::Integer(to_integer(&val))))
}

/// The cast to a float.
pub fn float(ctx: &Runtime, val: Value) -> (result: Result<Value, Error>)
    ensures
        match result {
            Ok(value) => float_of(val@) matches Some(bits) && value@ == ValueView::Number(
                NumberView::Float(bits),
            ),
            Err(e) => float_of(val@) is None && e@ == ErrorView::Unsupported,
        },
{
    match to_float(&val) {
        Some(bits) => Ok(Value::Number(Number::Float(bits))),
        None => Err(Error::Unsupported),
    }
}

/// The cast to a number, which is held as a decimal.
pub fn number(ctx: &Runtime, val: Value) -> (result: Result<Value, Error>)
    ensures
        match result {
            Ok(value) => decimal_of(val@) matches Some(bytes) && value@ == ValueView::Number(
                NumberView::Decimal(bytes),
            ) && (val@.wf() ==> value@.wf()),
            Err(e) => decimal_of(val@) is None && e@ == ErrorView::Unsupported,
        },
{
    match to_decimal(&val) {
        Some(d) => Ok(Value::Number(Number::Decimal(d))),
        None => Err(Error::Unsupported),
    }
}

/// The cast to a decimal.
pub fn decimal(ctx: &Runtime, val: Value) -> (result: Result<Value, Error>)
    ensures
        match result {
            Ok(value) => decimal_of(val@) matches Some(bytes) && value@ == ValueView::Number(
                NumberView::Decimal(bytes),
            ) && (val@.wf() ==> value@.wf()),
            Err(e) => decimal_of(val@) is None && e@ == ErrorView::Unsupported,
        },
{
    number(ctx, val)
}

/// The cast to text.
pub fn string(ctx: &Runtime, val: Value) -> (result: Result<Value, Error>)
    ensures
        match result {
            Ok(value) => text_of(val@) matches Some(text) && value@ == ValueView::String(text),
            Err(e) => text_of(val@) is None && e@ == ErrorView::Unsupported,
        },
{
    match to_text(&val) {
        Some(text) => Ok(Value::String(text)),
        None => Err(Error::Unsupported),
    }
}

/// The cast to an instant.
pub fn datetime(ctx: &Runtime, val: Value) -> (result: Result<Value, Error>)
    ensures
        result matches Ok(value) && value@ == (ValueView::Datetime {
            secs: datetime_of(ctx.now@, val@).0,
            nanos: datetime_of(ctx.now@, val@).1,
        }),
{
    Ok(Value::Datetime(to_datetime(ctx, &val)))
}

/// The cast to a span.
pub fn duration(ctx: &Runtime, val: Value) -> (result: Result<Value, Error>)
    ensures
        result matches Ok(value) && value@ == (ValueView::Duration {
            secs: duration_of(val@).0,
            nanos: duration_of(val@).1,
        }),
{
    Ok(Value::Duration(to_duration(&val)))
}

/// Casts a value to the type that `name` asks for. A name that asks for no cast leaves
/// the value as it is.
pub fn run(ctx: &Runtime, name: &String, val: Value) -> (result: Result<Value, Error>)
    ensures
        match result {
            Ok(value) => cast(ctx.now@, name@, val@) == Ok::<ValueView, ErrorView>(value@),
            Err(e) => cast(ctx.now@, name@, val@) == Err::<ValueView, ErrorView>(e@),
        },
{
    let name = name.as_str();
    if same_text(name, "bool") {
        bool(ctx, val)
    } else if same_text(name, "int") {
        integer(ctx, val)
    } else if same_text(name, "float") {
        float(ctx, val)
    } else if same_text(name, "string") {
        string(ctx, val)
    } else if same_text(name, "number") {
        number(ctx, val)
    } else if same_text(name, "decimal") {
        decimal(ctx, val)
    } else if same_text(name, "datetime") {
        datetime(ctx, val)
    } else if same_text(name, "duration") {
        duration(ctx, val)
    } else {
        Ok(val)
    }
}

} // verus!

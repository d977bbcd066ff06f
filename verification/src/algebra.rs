//! How values are ordered among themselves.
//!
//! Values of different kinds stand in the order of their kinds. Values of one kind are
//! ordered by what they hold: numbers by their worth, whether integers, floats or
//! decimals; texts, uuids and bytes by their bytes; collections item by item.

use vstd::prelude::*;
use vstd::utf8::encode_utf8;
use crate::float::compare_floats;
use crate::float::compare_int_float;
use crate::float::float_of_int;
use crate::float::float_order;
use crate::float::is_nan;
use crate::float::lemma_small_integers_equal_their_floats;
use crate::float::int_float_order;
use crate::float::int_order;
use crate::float::order_wide;
use crate::float::Order;
use crate::number::decimal_order;
use crate::number::integer_bytes;
use crate::number::Decimal;
use crate::number::Number;
use crate::number::NumberView;
use crate::order::bytes_equal;
use crate::order::bytes_less;
use crate::order::lex_lt;
use crate::value::items_view;
use crate::value::KeyView;
use crate::value::Object;
use crate::value::RecordIdKey;
use crate::value::Value;
use crate::value::ValueView;

verus! {

/// The place of the kind of a value in the order of the kinds: nothing, null, booleans,
/// numbers, texts, spans, instants, uuids, arrays, objects, bytes, record ids.
pub open spec fn kind_rank(v: ValueView) -> int {
    match v {
        ValueView::Nothing => 0,
        ValueView::Null => 1,
        ValueView::Bool(_) => 2,
        ValueView::Number(_) => 3,
        ValueView::String(_) => 4,
        ValueView::Duration { secs, nanos } => 5,
        ValueView::Datetime { secs, nanos } => 6,
        ValueView::Uuid(_) => 7,
        ValueView::Array(_) => 8,
        ValueView::Object(_) => 9,
        ValueView::Bytes(_) => 10,
        ValueView::RecordId { table, key } => 11,
    }
}

/// The place of the kind of a record id's key in the order of the kinds: integers, texts,
/// arrays, objects.
pub open spec fn key_rank(key: KeyView) -> int {
    match key {
        KeyView::Integer(_) => 0,
        KeyView::String(_) => 1,
        KeyView::Array(_) => 2,
        KeyView::Object(_) => 3,
    }
}

/// How one run of bytes stands to another: byte by byte, and the shorter first where one
/// starts the other.
pub open spec fn bytes_order(a: Seq<u8>, b: Seq<u8>) -> Order {
    if a == b {
        Order::Equal
    } else if lex_lt(a, b) {
        Order::Less
    } else {
        Order::Greater
    }
}

/// The first order, unless it is equal: then the second.
pub open spec fn then_order(first: Order, second: Order) -> Order {
    if first is Equal {
        second
    } else {
        first
    }
}

/// How one number stands to another by their worth. Nothing is said where a float is no
/// number, and of a float and a decimal.
pub open spec fn number_order(a: NumberView, b: NumberView) -> Option<Order> {
    match (a, b) {
        (NumberView::Integer(x), NumberView::Integer(y)) => Some(int_order(x as int, y as int)),
        (NumberView::Float(x), NumberView::Float(y)) => float_order(x, y),
        (NumberView::Integer(x), NumberView::Float(y)) => int_float_order(x as int, y),
        (NumberView::Float(x), NumberView::Integer(y)) => match int_float_order(y as int, x) {
            Some(order) => Some(order.reversed()),
            None => None,
        },
        (NumberView::Decimal(x), NumberView::Decimal(y)) => Some(
            int_order(decimal_order(x, y), 0),
        ),
        (NumberView::Decimal(x), NumberView::Integer(y)) => Some(
            int_order(decimal_order(x, integer_bytes(y as int)), 0),
        ),
        (NumberView::Integer(x), NumberView::Decimal(y)) => Some(
            int_order(decimal_order(integer_bytes(x as int), y), 0),
        ),
        _ => None,
    }
}

/// How one value stands to another; nothing where two numbers in them cannot be ordered.
pub open spec fn compare(a: ValueView, b: ValueView) -> Option<Order>
    decreases a, 0nat,
{
    if kind_rank(a) != kind_rank(b) {
        Some(int_order(kind_rank(a), kind_rank(b)))
    } else {
        match (a, b) {
            (ValueView::Bool(x), ValueView::Bool(y)) => Some(
                int_order(
                    if x {
                        1
                    } else {
                        0
                    },
                    if y {
                        1
                    } else {
                        0
                    },
                ),
            ),
            (ValueView::Number(x), ValueView::Number(y)) => number_order(x, y),
            (ValueView::String(x), ValueView::String(y)) => Some(
                bytes_order(encode_utf8(x), encode_utf8(y)),
            ),
            (
                ValueView::Duration { secs: s, nanos: n },
                ValueView::Duration { secs: t, nanos: m },
            ) => Some(then_order(int_order(s as int, t as int), int_order(n as int, m as int))),
            (
                ValueView::Datetime { secs: s, nanos: n },
                ValueView::Datetime { secs: t, nanos: m },
            ) => Some(then_order(int_order(s as int, t as int), int_order(n as int, m as int))),
            (ValueView::Uuid(x), ValueView::Uuid(y)) => Some(bytes_order(x, y)),
            (ValueView::Bytes(x), ValueView::Bytes(y)) => Some(bytes_order(x, y)),
            (ValueView::Array(x), ValueView::Array(y)) => items_order(x, y),
            (ValueView::Object(x), ValueView::Object(y)) => entries_order(x, y),
            (
                ValueView::RecordId { table: s, key: k },
                ValueView::RecordId { table: t, key: l },
            ) => match bytes_order(encode_utf8(s), encode_utf8(t)) {
                Order::Equal => key_order(k, l),
                order => Some(order),
            },
            _ => Some(Order::Equal),
        }
    }
}

/// How one run of values stands to another: by the first items that differ, and the
/// shorter first where one starts the other.
pub open spec fn items_order(a: Seq<ValueView>, b: Seq<ValueView>) -> Option<Order>
    decreases a, 0nat,
{
    if a.len() == 0 {
        Some(
            if b.len() == 0 {
                Order::Equal
            } else {
                Order::Less
            },
        )
    } else if b.len() == 0 {
        Some(Order::Greater)
    } else {
        match compare(a[0], b[0]) {
            Some(Order::Equal) => items_order(a.skip(1), b.skip(1)),
            other => other,
        }
    }
}

/// How the entries of one object stand to those of another: by the first entries that
/// differ, of which the key counts before the value.
pub open spec fn entries_order(
    a: Seq<(Seq<char>, ValueView)>,
    b: Seq<(Seq<char>, ValueView)>,
) -> Option<Order>
    decreases a, 0nat,
{
    if a.len() == 0 {
        Some(
            if b.len() == 0 {
                Order::Equal
            } else {
                Order::Less
            },
        )
    } else if b.len() == 0 {
        Some(Order::Greater)
    } else {
        match bytes_order(encode_utf8(a[0].0), encode_utf8(b[0].0)) {
            Order::Equal => match compare(a[0].1, b[0].1) {
                Some(Order::Equal) => entries_order(a.skip(1), b.skip(1)),
                other => other,
            },
            order => Some(order),
        }
    }
}

/// How the key of one record id stands to that of another.
pub open spec fn key_order(a: KeyView, b: KeyView) -> Option<Order>
    decreases a, 1nat,
{
    match (a, b) {
        (KeyView::Integer(x), KeyView::Integer(y)) => Some(int_order(x as int, y as int)),
        (KeyView::String(x), KeyView::String(y)) => Some(
            bytes_order(encode_utf8(x), encode_utf8(y)),
        ),
        (KeyView::Array(x), KeyView::Array(y)) => items_order(x, y),
        (KeyView::Object(x), KeyView::Object(y)) => entries_order(x, y),
        _ => Some(int_order(key_rank(a), key_rank(b))),
    }
}

/// Whether two values are equal: they are of one kind and hold the same, where numbers
/// are the same by their worth. What is no number equals nothing, not even itself.
pub open spec fn equal(a: ValueView, b: ValueView) -> bool {
    compare(a, b) == Some(Order::Equal)
}

/// How one run of bytes stands to another.
pub fn compare_bytes(a: &[u8], b: &[u8]) -> (order: Order)
    ensures
        order == bytes_order(a@, b@),
{
    if bytes_equal(a, b) {
        Order::Equal
    } else if bytes_less(a, b) {
        Order::Less
    } else {
        Order::Greater
    }
}

/// How one number stands to another by their worth.
pub fn compare_numbers(a: &Number, b: &Number) -> (order: Option<Order>)
    ensures
        order == number_order(a@, b@),
{
    match (a, b) {
        (Number::Integer(x), Number::Integer(y)) => Some(order_wide(*x as i128, *y as i128)),
        (Number::Float(x), Number::Float(y)) => compare_floats(*x, *y),
        (Number::Integer(x), Number::Float(y)) => compare_int_float(*x, *y),
        (Number::Float(x), Number::Integer(y)) => match compare_int_float(*y, *x) {
            Some(order) => Some(order.reverse()),
            None => None,
        },
        (Number::Decimal(x), Number::Decimal(y)) => Some(order_wide(x.order(y) as i128, 0)),
        (Number::Decimal(x), Number::Integer(y)) => Some(
            order_wide(x.order(&Decimal::from_integer(*y)) as i128, 0),
        ),
        (Number::Integer(x), Number::Decimal(y)) => Some(
            order_wide(Decimal::from_integer(*x).order(y) as i128, 0),
        ),
        _ => None,
    }
}

/// The place of the kind of a value in the order of the kinds.
pub fn rank(value: &Value) -> (rank: u8)
    ensures
        rank == kind_rank(value@),
{
    match value {
        Value::Nothing => 0,
        Value::Null => 1,
        Value::Bool(_) => 2,
        Value::Number(_) => 3,
        Value::String(_) => 4,
        Value::Duration(_) => 5,
        Value::Datetime(_) => 6,
        Value::Uuid(_) => 7,
        Value::Array(_) => 8,
        Value::Object(_) => 9,
        Value::Bytes(_) => 10,
        Value::RecordId(_) => 11,
    }
}

/// How one run of values stands to another.
pub fn order_items(a: &Vec<Value>, b: &Vec<Value>) -> (order: Option<Order>)
    ensures
        order == items_order(items_view(a@), items_view(b@)),
    decreases a, 0nat,
{
    let ghost left = items_view(a@);
    let ghost right = items_view(b@);
    let mut i: usize = 0;
    proof {
        assert(left.skip(0) =~= left);
        assert(right.skip(0) =~= right);
    }
    while i < a.len() && i < b.len()
        invariant
            i <= a.len(),
            i <= b.len(),
            left == items_view(a@),
            right == items_view(b@),
            items_order(left.skip(i as int), right.skip(i as int)) == items_order(left, right),
        decreases a.len() - i,
    {
        proof {
            assert(left.skip(i as int)[0] == a[i as int]@);
            assert(right.skip(i as int)[0] == b[i as int]@);
            assert(left.skip(i as int).skip(1) =~= left.skip(i + 1));
            assert(right.skip(i as int).skip(1) =~= right.skip(i + 1));
        }
        match order_values(&a[i], &b[i]) {
            Some(Order::Equal) => {},
            other => return other,
        }
        i += 1;
    }
    if i < b.len() {
        Some(Order::Less)
    } else if i < a.len() {
        Some(Order::Greater)
    } else {
        Some(Order::Equal)
    }
}

/// How the entries of one object stand to those of another.
pub fn order_entries(a: &Object, b: &Object) -> (order: Option<Order>)
    ensures
        order == entries_order(a@, b@),
    decreases a, 0nat,
{
    let ghost left = a@;
    let ghost right = b@;
    let n = a.len();
    let m = b.len();
    let mut i: usize = 0;
    proof {
        assert(left.skip(0) =~= left);
        assert(right.skip(0) =~= right);
    }
    while i < n && i < m
        invariant
            i <= n,
            i <= m,
            n == left.len(),
            m == right.len(),
            left == a@,
            right == b@,
            entries_order(left.skip(i as int), right.skip(i as int)) == entries_order(
                left,
                right,
            ),
        decreases n - i,
    {
        proof {
            assert(left.skip(i as int)[0] == left[i as int]);
            assert(right.skip(i as int)[0] == right[i as int]);
            assert(left.skip(i as int).skip(1) =~= left.skip(i + 1));
            assert(right.skip(i as int).skip(1) =~= right.skip(i + 1));
        }
        match compare_bytes(a.key_at(i).as_bytes(), b.key_at(i).as_bytes()) {
            Order::Equal => {},
            order => return Some(order),
        }
        match order_values(a.value_at(i), b.value_at(i)) {
            Some(Order::Equal) => {},
            other => return other,
        }
        i += 1;
    }
    if i < m {
        Some(Order::Less)
    } else if i < n {
        Some(Order::Greater)
    } else {
        Some(Order::Equal)
    }
}

/// How the key of one record id stands to that of another.
pub fn order_keys(a: &RecordIdKey, b: &RecordIdKey) -> (order: Option<Order>)
    ensures
        order == key_order(a@, b@),
    decreases a, 1nat,
{
    match (a, b) {
        (RecordIdKey::Integer(x), RecordIdKey::Integer(y)) => Some(
            order_wide(*x as i128, *y as i128),
        ),
        (RecordIdKey::String(x), RecordIdKey::String(y)) => Some(
            compare_bytes(x.as_str().as_bytes(), y.as_str().as_bytes()),
        ),
        (RecordIdKey::Array(x), RecordIdKey::Array(y)) => order_items(x, y),
        (RecordIdKey::Object(x), RecordIdKey::Object(y)) => order_entries(x, y),
        _ => {
            let left: u8 = match a {
                RecordIdKey::Integer(_) => 0,
                RecordIdKey::String(_) => 1,
                RecordIdKey::Array(_) => 2,
                RecordIdKey::Object(_) => 3,
            };
            let right: u8 = match b {
                RecordIdKey::Integer(_) => 0,
                RecordIdKey::String(_) => 1,
                RecordIdKey::Array(_) => 2,
                RecordIdKey::Object(_) => 3,
            };
            Some(order_wide(left as i128, right as i128))
        },
    }
}

/// How one value stands to another; nothing where two numbers in them cannot be ordered.
pub fn order_values(a: &Value, b: &Value) -> (order: Option<Order>)
    ensures
        order == compare(a@, b@),
    decreases a, 0nat,
{
    let left = rank(a);
    let right = rank(b);
    if left != right {
        return Some(order_wide(left as i128, right as i128));
    }
    match (a, b) {
        (Value::Bool(x), Value::Bool(y)) => {
            let l: i128 = if *x {
                1
            } else {
                0
            };
            let r: i128 = if *y {
                1
            } else {
                0
            };
            Some(order_wide(l, r))
        },
        (Value::Number(x), Value::Number(y)) => compare_numbers(x, y),
        (Value::String(x), Value::String(y)) => Some(
            compare_bytes(x.as_str().as_bytes(), y.as_str().as_bytes()),
        ),
        (Value::Duration(x), Value::Duration(y)) => {
            let first = order_wide(x.secs() as i128, y.secs() as i128);
            Some(
                match first {
                    Order::Equal => order_wide(
                        x.subsec_nanos() as i128,
                        y.subsec_nanos() as i128,
                    ),
                    _ => first,
                },
            )
        },
        (Value::Datetime(x), Value::Datetime(y)) => {
            let first = order_wide(x.timestamp() as i128, y.timestamp() as i128);
            Some(
                match first {
                    Order::Equal => order_wide(
                        x.timestamp_subsec_nanos() as i128,
                        y.timestamp_subsec_nanos() as i128,
                    ),
                    _ => first,
                },
            )
        },
        (Value::Uuid(x), Value::Uuid(y)) => Some(
            compare_bytes(x.as_bytes().as_slice(), y.as_bytes().as_slice()),
        ),
        (Value::Bytes(x), Value::Bytes(y)) => Some(compare_bytes(x.as_slice(), y.as_slice())),
        (Value::Array(x), Value::Array(y)) => order_items(x, y),
        (Value::Object(x), Value::Object(y)) => order_entries(x, y),
        (Value::RecordId(x), Value::RecordId(y)) => {
            match compare_bytes(x.table().as_bytes(), y.table().as_bytes()) {
                Order::Equal => order_keys(x.key(), y.key()),
                order => Some(order),
            }
        },
        _ => Some(Order::Equal),
    }
}

/// Whether two values are equal.
pub fn equals(a: &Value, b: &Value) -> (same: bool)
    ensures
        same == equal(a@, b@),
{
    match order_values(a, b) {
        Some(Order::Equal) => true,
        _ => false,
    }
}

/// Values of different kinds stand in the order of their kinds, whatever they hold.
pub proof fn lemma_kinds_order(a: ValueView, b: ValueView)
    requires
        kind_rank(a) < kind_rank(b),
    ensures
        compare(a, b) == Some(Order::Less),
        compare(b, a) == Some(Order::Greater),
{
}

/// A float that is no number equals no value, not even itself.
pub proof fn lemma_nan_equals_nothing(bits: u64, other: ValueView)
    requires
        is_nan(bits),
    ensures
        !equal(ValueView::Number(NumberView::Float(bits)), other),
        !equal(other, ValueView::Number(NumberView::Float(bits))),
{
}

/// An integer of at most 53 bits equals the float nearest to it, from either side.
pub proof fn lemma_integer_equals_its_float(i: i64)
    requires
        -9007199254740992 <= i <= 9007199254740992,
    ensures
        equal(
            ValueView::Number(NumberView::Integer(i)),
            ValueView::Number(NumberView::Float(float_of_int(i) as u64)),
        ),
        equal(
            ValueView::Number(NumberView::Float(float_of_int(i) as u64)),
            ValueView::Number(NumberView::Integer(i)),
        ),
{
    lemma_small_integers_equal_their_floats(i);
}

} // verus!

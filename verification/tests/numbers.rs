use surrealdb::algebra::equals;
use surrealdb::algebra::order_values;
use surrealdb::arith::binary;
use surrealdb::arith::compute_integers;
use surrealdb::ast::Operator;
use surrealdb::cast;
use surrealdb::dbs::Runtime;
use surrealdb::err::Error;
use surrealdb::eval::Scope;
use surrealdb::float::compare_floats;
use surrealdb::float::compare_int_float;
use surrealdb::float::from_int;
use surrealdb::float::truncate;
use surrealdb::float::Order;
use surrealdb::number::Decimal;
use surrealdb::number::Number;
use surrealdb::parser::Parser;
use surrealdb::time::Datetime;
use surrealdb::time::Duration;
use surrealdb::value::Object;
use surrealdb::value::Uuid;
use surrealdb::value::Value;

fn runtime() -> Runtime {
    Runtime { now: Datetime::from_timestamp(1_700_000_000, 5).unwrap() }
}

fn float(v: f64) -> Value {
    Value::float(v.to_bits())
}

fn text(v: &str) -> Value {
    Value::String(String::from(v))
}

fn show(v: &Value) -> String {
    format!("{:?}", v)
}

fn run(name: &str, v: Value) -> Result<Value, Error> {
    cast::run(&runtime(), &String::from(name), v)
}

#[test]
fn truncate_cuts_towards_zero() {
    for v in [0.0, -0.0, 0.5, -0.5, 0.999, 1.0, 1.5, -1.5, 9.9, -9.9, 1e10, -1e10, 123456.789] {
        assert_eq!(truncate(f64::to_bits(v)), v as i64, "{}", v);
    }
}

#[test]
fn truncate_keeps_large_whole_numbers() {
    for v in [9007199254740992.0, 9007199254740994.0, 4611686018427387904.0, -4611686018427387904.0] {
        assert_eq!(truncate(f64::to_bits(v)), v as i64);
    }
}

#[test]
fn truncate_saturates() {
    assert_eq!(truncate(f64::to_bits(1e30)), i64::MAX);
    assert_eq!(truncate(f64::to_bits(-1e30)), i64::MIN);
    assert_eq!(truncate(f64::to_bits(9223372036854775808.0)), i64::MAX);
    assert_eq!(truncate(f64::to_bits(-9223372036854775808.0)), i64::MIN);
    assert_eq!(truncate(f64::to_bits(f64::INFINITY)), i64::MAX);
    assert_eq!(truncate(f64::to_bits(f64::NEG_INFINITY)), i64::MIN);
    assert_eq!(truncate(f64::to_bits(f64::NAN)), 0);
}

#[test]
fn truncate_of_tiny_numbers_is_zero() {
    assert_eq!(truncate(f64::to_bits(f64::MIN_POSITIVE)), 0);
    assert_eq!(truncate(1), 0);
}

#[test]
fn from_int_is_the_nearest_float() {
    let cases: [i64; 16] = [
        0,
        1,
        -1,
        2,
        3,
        1000,
        -123456789,
        9007199254740992,
        9007199254740993,
        9007199254740995,
        -9007199254740993,
        i64::MAX,
        i64::MIN,
        i64::MAX - 1023,
        4611686018427387905,
        1 << 62,
    ];
    for i in cases {
        assert_eq!(from_int(i), f64::to_bits(i as f64), "{}", i);
    }
}

#[test]
fn small_integers_survive_the_float() {
    for i in [-9007199254740992i64, -77, 0, 1, 4503599627370497, 9007199254740992] {
        assert_eq!(truncate(from_int(i)), i);
    }
}

#[test]
fn floats_order_by_value() {
    let cases = [(1.0, 2.0), (-2.0, -1.0), (-1.0, 1.0), (-0.0, 0.0), (0.0, 0.0), (1e300, f64::INFINITY), (5e-324, 1e-300), (3.5, 3.5)];
    for (a, b) in cases {
        let expected = if a < b {
            Order::Less
        } else if a == b {
            Order::Equal
        } else {
            Order::Greater
        };
        assert_eq!(compare_floats(f64::to_bits(a), f64::to_bits(b)), Some(expected));
    }
    assert_eq!(compare_floats(f64::to_bits(f64::NAN), f64::to_bits(1.0)), None);
    assert_eq!(compare_floats(f64::to_bits(1.0), f64::to_bits(f64::NAN)), None);
}

#[test]
fn integers_and_floats_order_exactly() {
    assert_eq!(compare_int_float(1, f64::to_bits(1.0)), Some(Order::Equal));
    assert_eq!(compare_int_float(1, f64::to_bits(1.5)), Some(Order::Less));
    assert_eq!(compare_int_float(2, f64::to_bits(1.5)), Some(Order::Greater));
    assert_eq!(compare_int_float(-1, f64::to_bits(-1.5)), Some(Order::Greater));
    assert_eq!(compare_int_float(-2, f64::to_bits(-1.5)), Some(Order::Less));
    assert_eq!(compare_int_float(0, f64::to_bits(-0.0)), Some(Order::Equal));
    assert_eq!(compare_int_float(0, f64::to_bits(5e-324)), Some(Order::Less));
    assert_eq!(compare_int_float(0, f64::to_bits(-5e-324)), Some(Order::Greater));
    assert_eq!(compare_int_float(i64::MAX, f64::to_bits(9223372036854775808.0)), Some(Order::Less));
    assert_eq!(compare_int_float(i64::MIN, f64::to_bits(-9223372036854775808.0)), Some(Order::Equal));
    assert_eq!(compare_int_float(9007199254740993, f64::to_bits(9007199254740992.0)), Some(Order::Greater));
    assert_eq!(compare_int_float(5, f64::to_bits(1e300)), Some(Order::Less));
    assert_eq!(compare_int_float(5, f64::to_bits(f64::NEG_INFINITY)), Some(Order::Greater));
    assert_eq!(compare_int_float(5, f64::to_bits(f64::NAN)), None);
}

#[test]
fn nan_equals_nothing() {
    let nan = float(f64::NAN);
    assert!(!equals(&nan, &float(f64::NAN)));
    assert!(!equals(&nan, &Value::integer(0)));
    assert!(!equals(&Value::Null, &nan));
}

#[test]
fn integer_equals_its_float() {
    assert!(equals(&Value::integer(3), &float(3.0)));
    assert!(equals(&float(3.0), &Value::integer(3)));
    assert!(!equals(&Value::integer(3), &float(3.25)));
}

#[test]
fn kinds_stand_in_their_order() {
    let values = vec![
        Value::Nothing,
        Value::Null,
        Value::Bool(true),
        Value::integer(-5),
        text(""),
        Value::Duration(Duration::from_secs(0)),
        Value::Datetime(Datetime::from_timestamp(0, 0).unwrap()),
        Value::Uuid(Uuid::from_bytes([0; 16])),
        Value::Array(vec![]),
        Value::Object(Object::new()),
        Value::Bytes(surrealdb::value::Bytes::new(vec![])),
        Value::RecordId(surrealdb::value::RecordId::from_table_key(
            String::from("a"),
            surrealdb::value::RecordIdKey::Integer(0),
        )),
    ];
    for i in 0..values.len() {
        for j in 0..values.len() {
            let expected = if i < j {
                Order::Less
            } else if i == j {
                Order::Equal
            } else {
                Order::Greater
            };
            assert_eq!(order_values(&values[i], &values[j]), Some(expected), "{} {}", i, j);
        }
    }
}

#[test]
fn values_of_one_kind_order_by_what_they_hold() {
    assert_eq!(order_values(&Value::Bool(false), &Value::Bool(true)), Some(Order::Less));
    assert_eq!(order_values(&text("abc"), &text("abd")), Some(Order::Less));
    assert_eq!(order_values(&text("ab"), &text("abc")), Some(Order::Less));
    assert_eq!(order_values(&text("b"), &text("abc")), Some(Order::Greater));
    assert_eq!(order_values(&Value::integer(20), &Value::integer(18)), Some(Order::Greater));
    let a = Value::Array(vec![Value::integer(1), Value::integer(2)]);
    let b = Value::Array(vec![Value::integer(1), Value::integer(3)]);
    let c = Value::Array(vec![Value::integer(1)]);
    assert_eq!(order_values(&a, &b), Some(Order::Less));
    assert_eq!(order_values(&a, &c), Some(Order::Greater));
    assert_eq!(order_values(&a, &a), Some(Order::Equal));
    let d = Value::Duration(Duration::new(1, 5).unwrap());
    let e = Value::Duration(Duration::new(1, 6).unwrap());
    assert_eq!(order_values(&d, &e), Some(Order::Less));
}

#[test]
fn decimals_order_by_value() {
    let one = Value::decimal(Decimal::from_text("1.0").unwrap());
    let also_one = Value::decimal(Decimal::from_text("1.00").unwrap());
    let two = Value::decimal(Decimal::from_integer(2));
    assert_eq!(order_values(&one, &also_one), Some(Order::Equal));
    assert_eq!(order_values(&one, &two), Some(Order::Less));
    assert_eq!(order_values(&two, &Value::integer(1)), Some(Order::Greater));
    assert_eq!(order_values(&Value::integer(2), &two), Some(Order::Equal));
    assert_eq!(order_values(&one, &float(1.0)), None);
}

fn value_of(source: &str) -> Value {
    let expr = Parser::new(source).parse_value().unwrap();
    Scope { doc: Value::Nothing, params: Object::new() }.compute(&expr).unwrap()
}

#[test]
fn modulo() {
    assert_eq!(show(&value_of("8 % 3")), show(&value_of("2")));
    assert_eq!(show(&value_of("8 % 3")), show(&Value::integer(2)));
    let result = compute_integers(Operator::Rem, 8, 3).unwrap();
    assert_eq!(show(&result), show(&Value::integer(2)));
}

#[test]
fn integer_arithmetic_is_exact() {
    let cases = [
        (Operator::Add, 2, 3, 5),
        (Operator::Sub, 2, 3, -1),
        (Operator::Mul, -4, 6, -24),
        (Operator::Div, 7, 2, 3),
        (Operator::Div, -7, 2, -3),
        (Operator::Div, 7, -2, -3),
        (Operator::Rem, -7, 2, -1),
        (Operator::Rem, 7, -2, 1),
        (Operator::Pow, 2, 10, 1024),
        (Operator::Pow, -3, 3, -27),
        (Operator::Pow, 0, 0, 1),
        (Operator::Pow, 0, 5, 0),
        (Operator::Pow, -1, 1_000_000_001, -1),
        (Operator::Pow, 1, i64::MAX, 1),
    ];
    for (op, x, y, expected) in cases {
        let result = compute_integers(op, x, y).unwrap();
        assert_eq!(show(&result), show(&Value::integer(expected)), "{:?} {} {}", op, x, y);
    }
}

#[test]
fn division_by_zero_is_an_error() {
    assert!(matches!(compute_integers(Operator::Div, 1, 0), Err(Error::Arithmetic)));
    assert!(matches!(compute_integers(Operator::Rem, 1, 0), Err(Error::Arithmetic)));
}

#[test]
fn overflow_widens_to_decimal() {
    let result = compute_integers(Operator::Add, i64::MAX, 1).unwrap();
    match result {
        Value::Number(Number::Decimal(d)) => assert_eq!(d.to_text(), "9223372036854775808"),
        other => panic!("{:?}", other),
    }
    let result = compute_integers(Operator::Mul, i64::MIN, 2).unwrap();
    match result {
        Value::Number(Number::Decimal(d)) => assert_eq!(d.to_text(), "-18446744073709551616"),
        other => panic!("{:?}", other),
    }
    let result = compute_integers(Operator::Div, i64::MIN, -1).unwrap();
    match result {
        Value::Number(Number::Decimal(d)) => assert_eq!(d.to_text(), "9223372036854775808"),
        other => panic!("{:?}", other),
    }
    let result = compute_integers(Operator::Pow, 2, 95).unwrap();
    match result {
        Value::Number(Number::Decimal(d)) => assert_eq!(d.to_text(), "39614081257132168796771975168"),
        other => panic!("{:?}", other),
    }
}

#[test]
fn overflow_beyond_decimal_is_an_error() {
    assert!(matches!(compute_integers(Operator::Pow, 2, 96), Err(Error::Arithmetic)));
    assert!(matches!(compute_integers(Operator::Pow, 10, i64::MAX), Err(Error::Arithmetic)));
    assert!(matches!(compute_integers(Operator::Mul, i64::MIN, i64::MIN), Err(Error::Arithmetic)));
    assert!(matches!(compute_integers(Operator::Pow, 2, -1), Err(Error::Unsupported)));
}

#[test]
fn arrays_concatenate() {
    let a = Value::Array(vec![Value::integer(1), Value::integer(2)]);
    let b = Value::Array(vec![Value::integer(3)]);
    let both = binary(Operator::Add, a, b).unwrap();
    let expected = Value::Array(vec![Value::integer(1), Value::integer(2), Value::integer(3)]);
    assert_eq!(show(&both), show(&expected));
}

#[test]
fn objects_merge_with_the_right_side_winning() {
    let mut a = Object::new();
    a.insert(String::from("x"), Value::integer(1));
    a.insert(String::from("y"), Value::integer(2));
    let mut b = Object::new();
    b.insert(String::from("y"), Value::integer(20));
    b.insert(String::from("z"), Value::integer(30));
    let both = binary(Operator::Add, Value::Object(a), Value::Object(b)).unwrap();
    let mut expected = Object::new();
    expected.insert(String::from("x"), Value::integer(1));
    expected.insert(String::from("y"), Value::integer(20));
    expected.insert(String::from("z"), Value::integer(30));
    assert_eq!(show(&both), show(&Value::Object(expected)));
}

#[test]
fn cast_to_int_truncates() {
    assert_eq!(show(&run("int", float(9.9)).unwrap()), show(&Value::integer(9)));
    assert_eq!(show(&run("int", float(-9.9)).unwrap()), show(&Value::integer(-9)));
    assert_eq!(show(&run("int", Value::integer(4)).unwrap()), show(&Value::integer(4)));
    assert_eq!(show(&run("int", Value::Bool(true)).unwrap()), show(&Value::integer(1)));
    assert_eq!(show(&run("int", Value::Nothing).unwrap()), show(&Value::integer(0)));
}

#[test]
fn cast_to_int_reads_text() {
    for (t, expected) in [("42", 42), ("-42", -42), ("+7", 7), ("007", 7), ("", 0), ("-", 0), ("4x", 0), (" 4", 0), ("9223372036854775807", i64::MAX), ("-9223372036854775808", i64::MIN), ("9223372036854775808", 0)] {
        assert_eq!(show(&run("int", text(t)).unwrap()), show(&Value::integer(expected)), "{}", t);
        assert_eq!(expected, t.parse::<i64>().unwrap_or(0));
    }
}

#[test]
fn cast_to_int_of_decimal_and_times() {
    let d = Value::decimal(Decimal::from_text("12.75").unwrap());
    assert_eq!(show(&run("int", d).unwrap()), show(&Value::integer(12)));
    let d = Value::decimal(Decimal::from_text("-12.75").unwrap());
    assert_eq!(show(&run("int", d).unwrap()), show(&Value::integer(-12)));
    let span = Value::Duration(Duration::new(90, 5).unwrap());
    assert_eq!(show(&run("int", span).unwrap()), show(&Value::integer(90)));
    let instant = Value::Datetime(Datetime::from_timestamp(-3, 0).unwrap());
    assert_eq!(show(&run("int", instant).unwrap()), show(&Value::integer(-3)));
}

#[test]
fn cast_to_bool_goes_by_truth() {
    let truthy = vec![
        Value::Bool(true),
        Value::integer(-1),
        float(0.5),
        float(f64::NAN),
        text("no"),
        text("falsey"),
        Value::Array(vec![Value::Nothing]),
        Value::Duration(Duration::new(0, 1).unwrap()),
        Value::Datetime(Datetime::from_timestamp(1, 0).unwrap()),
        Value::decimal(Decimal::from_text("0.001").unwrap()),
    ];
    for v in truthy {
        let shown = show(&v);
        assert_eq!(show(&run("bool", v).unwrap()), show(&Value::Bool(true)), "{}", shown);
    }
    let falsy = vec![
        Value::Nothing,
        Value::Null,
        Value::Bool(false),
        Value::integer(0),
        float(0.0),
        float(-0.0),
        text(""),
        text("false"),
        text("FaLsE"),
        Value::Array(vec![]),
        Value::Object(Object::new()),
        Value::Duration(Duration::from_secs(0)),
        Value::Datetime(Datetime::from_timestamp(0, 0).unwrap()),
        Value::decimal(Decimal::from_text("0.000").unwrap()),
    ];
    for v in falsy {
        let shown = show(&v);
        assert_eq!(show(&run("bool", v).unwrap()), show(&Value::Bool(false)), "{}", shown);
    }
}

#[test]
fn cast_to_float_of_integers() {
    assert_eq!(show(&run("float", Value::integer(3)).unwrap()), show(&float(3.0)));
    assert_eq!(show(&run("float", Value::Bool(true)).unwrap()), show(&float(1.0)));
    assert_eq!(show(&run("float", Value::Null).unwrap()), show(&float(0.0)));
    assert_eq!(show(&run("float", float(2.5)).unwrap()), show(&float(2.5)));
    assert!(matches!(run("float", text("2.5")), Err(Error::Unsupported)));
}

#[test]
fn cast_to_string_writes_values() {
    assert_eq!(show(&run("string", Value::integer(-12)).unwrap()), show(&text("-12")));
    assert_eq!(show(&run("string", Value::Bool(false)).unwrap()), show(&text("false")));
    assert_eq!(show(&run("string", Value::Nothing).unwrap()), show(&text("NONE")));
    assert_eq!(show(&run("string", Value::Null).unwrap()), show(&text("NULL")));
    assert_eq!(show(&run("string", text("x")).unwrap()), show(&text("x")));
    let d = Value::decimal(Decimal::from_text("1.50").unwrap());
    assert_eq!(show(&run("string", d).unwrap()), show(&text("1.50")));
    let span = Value::Duration(Duration::new(31536000 + 604800 * 2 + 86400 * 3 + 3600 * 4 + 60 * 5 + 6, 7_008_009).unwrap());
    assert_eq!(show(&run("string", span).unwrap()), show(&text("1y2w3d4h5m6s7ms8µs9ns")));
    let span = Value::Duration(Duration::from_secs(0));
    assert_eq!(show(&run("string", span).unwrap()), show(&text("0ns")));
    let span = Value::Duration(Duration::from_secs(90));
    assert_eq!(show(&run("string", span).unwrap()), show(&text("1m30s")));
    let instant = Value::Datetime(Datetime::from_timestamp(1_700_000_000, 500_000_000).unwrap());
    assert_eq!(show(&run("string", instant).unwrap()), show(&text("2023-11-14T22:13:20.500Z")));
    let uuid = Value::Uuid(Uuid::from_bytes([0x01, 0x23, 0x45, 0x67, 0x89, 0xab, 0xcd, 0xef, 0, 1, 2, 3, 4, 5, 0xfe, 0xff]));
    assert_eq!(show(&run("string", uuid).unwrap()), show(&text("01234567-89ab-cdef-0001-02030405feff")));
    assert!(matches!(run("string", float(1.5)), Err(Error::Unsupported)));
}

#[test]
fn cast_to_decimal() {
    let one = run("decimal", Value::integer(1)).unwrap();
    match one {
        Value::Number(Number::Decimal(d)) => assert_eq!(d.to_text(), "1"),
        other => panic!("{:?}", other),
    }
    let read = run("number", text("-2.50")).unwrap();
    match read {
        Value::Number(Number::Decimal(d)) => assert_eq!(d.to_text(), "-2.50"),
        other => panic!("{:?}", other),
    }
    let zero = run("number", text("x")).unwrap();
    match zero {
        Value::Number(Number::Decimal(d)) => assert_eq!(d.to_text(), "0"),
        other => panic!("{:?}", other),
    }
    assert!(matches!(run("decimal", float(1.5)), Err(Error::Unsupported)));
}

#[test]
fn cast_to_datetime_and_duration() {
    let read = run("datetime", text("2023-11-14T22:13:20Z")).unwrap();
    assert_eq!(show(&read), show(&Value::Datetime(Datetime::from_timestamp(1_700_000_000, 0).unwrap())));
    let read = run("datetime", text("2023-11-14T23:13:20.25+01:00")).unwrap();
    assert_eq!(show(&read), show(&Value::Datetime(Datetime::from_timestamp(1_700_000_000, 250_000_000).unwrap())));
    let now = run("datetime", text("yesterday")).unwrap();
    assert_eq!(show(&now), show(&Value::Datetime(runtime().now)));
    let now = run("datetime", Value::integer(5)).unwrap();
    assert_eq!(show(&now), show(&Value::Datetime(runtime().now)));
    let span = run("duration", text("1h30m")).unwrap();
    assert_eq!(show(&span), show(&Value::Duration(Duration::from_secs(5400))));
    let span = run("duration", text("1h30")).unwrap();
    assert_eq!(show(&span), show(&Value::Duration(Duration::from_secs(0))));
    let span = run("duration", Value::integer(5)).unwrap();
    assert_eq!(show(&span), show(&Value::Duration(Duration::from_secs(0))));
}

#[test]
fn unknown_cast_leaves_the_value() {
    assert_eq!(show(&run("point", Value::integer(5)).unwrap()), show(&Value::integer(5)));
    assert_eq!(show(&run("", text("x")).unwrap()), show(&text("x")));
}

#[test]
fn cast_to_its_own_type_leaves_the_value() {
    assert_eq!(show(&cast::bool(&runtime(), Value::Bool(true)).unwrap()), show(&Value::Bool(true)));
    assert_eq!(show(&cast::integer(&runtime(), Value::integer(7)).unwrap()), show(&Value::integer(7)));
    assert_eq!(show(&cast::float(&runtime(), float(7.5)).unwrap()), show(&float(7.5)));
    assert_eq!(show(&cast::string(&runtime(), text("7")).unwrap()), show(&text("7")));
    let span = Value::Duration(Duration::from_secs(7));
    assert_eq!(show(&cast::duration(&runtime(), span).unwrap()), show(&Value::Duration(Duration::from_secs(7))));
    let instant = Datetime::from_timestamp(7, 0).unwrap();
    assert_eq!(show(&cast::datetime(&runtime(), Value::Datetime(instant)).unwrap()), show(&Value::Datetime(instant)));
    let d = Decimal::from_text("7.0").unwrap();
    match cast::decimal(&runtime(), Value::decimal(d)).unwrap() {
        Value::Number(Number::Decimal(d)) => assert_eq!(d.to_text(), "7.0"),
        other => panic!("{:?}", other),
    }
    match cast::number(&runtime(), Value::decimal(d)).unwrap() {
        Value::Number(Number::Decimal(d)) => assert_eq!(d.to_text(), "7.0"),
        other => panic!("{:?}", other),
    }
}

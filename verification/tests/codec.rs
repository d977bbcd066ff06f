use surrealdb::codec::DecodeError;
use surrealdb::number::Number;
use surrealdb::time::Duration;
use surrealdb::value::Object;
use surrealdb::value::RecordId;
use surrealdb::value::RecordIdKey;
use surrealdb::value::Value;

fn wire(value: &Value) -> Vec<u8> {
    let mut out = Vec::new();
    value.serialize_revisioned(&mut out);
    out
}

fn read(bytes: &[u8]) -> Result<Value, DecodeError> {
    match Value::deserialize_revisioned(bytes) {
        Ok((value, rest)) => {
            assert!(rest.is_empty());
            Ok(value)
        }
        Err(e) => Err(e),
    }
}

#[test]
fn none_is_revision_and_variant() {
    assert_eq!(wire(&Value::Nothing), vec![1, 0]);
    assert_eq!(wire(&Value::Null), vec![1, 1]);
}

#[test]
fn bool_is_one_byte() {
    assert_eq!(wire(&Value::Bool(true)), vec![1, 2, 1]);
    assert_eq!(wire(&Value::Bool(false)), vec![1, 2, 0]);
}

#[test]
fn integer_is_zigzag_varint() {
    assert_eq!(wire(&Value::integer(2)), vec![1, 3, 1, 0, 4]);
    assert_eq!(wire(&Value::integer(-1)), vec![1, 3, 1, 0, 1]);
    assert_eq!(wire(&Value::integer(200)), vec![1, 3, 1, 0, 251, 144, 1]);
}

#[test]
fn string_is_counted() {
    assert_eq!(
        wire(&Value::String(String::from("hi"))),
        vec![1, 4, 2, b'h', b'i']
    );
}

#[test]
fn array_holds_its_length() {
    let value = Value::Array(vec![Value::Bool(true), Value::Nothing]);
    assert_eq!(wire(&value), vec![1, 8, 1, 2, 1, 2, 1, 1, 0]);
}

#[test]
fn values_round_trip() {
    let mut object = Object::new();
    object.insert(String::from("b"), Value::integer(-77));
    object.insert(String::from("a"), Value::String(String::from("x\u{e9}")));
    let values = vec![
        Value::Nothing,
        Value::Null,
        Value::Bool(true),
        Value::integer(i64::MIN),
        Value::integer(i64::MAX),
        Value::float(0x4023_cccc_cccc_cccd),
        Value::String(String::new()),
        Value::Duration(Duration::new(90, 5).unwrap()),
        Value::Array(vec![Value::integer(1), Value::Array(vec![])]),
        Value::Object(object),
        Value::RecordId(RecordId::from_table_key(
            String::from("person"),
            RecordIdKey::Integer(7),
        )),
    ];
    for value in values {
        let bytes = wire(&value);
        let back = read(&bytes).unwrap();
        assert_eq!(format!("{:?}", back), format!("{:?}", value));
    }
}

#[test]
fn unknown_revision_is_refused() {
    assert_eq!(read(&[2, 0]).unwrap_err(), DecodeError::DecodeRevision);
}

#[test]
fn unknown_variant_is_refused() {
    assert_eq!(read(&[1, 10]).unwrap_err(), DecodeError::DecodeVariant);
    assert_eq!(read(&[1, 200]).unwrap_err(), DecodeError::DecodeVariant);
}

#[test]
fn cut_input_is_malformed() {
    assert_eq!(read(&[]).unwrap_err(), DecodeError::Malformed);
    assert_eq!(read(&[1, 4, 3, b'a']).unwrap_err(), DecodeError::Malformed);
}

#[test]
fn long_varint_of_small_number_is_malformed() {
    assert_eq!(read(&[1, 3, 1, 0, 251, 4, 0]).unwrap_err(), DecodeError::Malformed);
}

#[test]
fn number_revision_is_one() {
    assert_eq!(Number::revision(), 1);
    assert_eq!(Value::revision(), 1);
}

#[test]
fn rest_is_handed_back() {
    let (value, rest) = Value::deserialize_revisioned(&[1, 2, 1, 9, 9]).unwrap();
    assert_eq!(format!("{:?}", value), format!("{:?}", Value::Bool(true)));
    assert_eq!(rest, &[9, 9]);
}

use serde_smile::de::{from_mut_slice, from_reader, from_slice};
use serde_smile::ser::to_vec;
use serde_smile::value::{BigDecimal, BigInteger, Value};

fn run_test(raw: Value, value: Value) {
    let expected = to_vec(&raw).unwrap();
    let actual = to_vec(&raw).unwrap();
    assert_eq!(expected, actual);

    let actual = from_slice(&actual).unwrap();
    assert_eq!(value, actual);

    let mut copy = expected.clone();
    assert_eq!(value, from_mut_slice(&mut copy).unwrap());

    let mut stream = &expected[..];
    assert_eq!(value, from_reader(&mut stream).unwrap());
}

#[test]
fn null() {
    run_test(Value::Null, Value::Null);
}

#[test]
fn boolean() {
    run_test(Value::Boolean(true), Value::Boolean(true));
    run_test(Value::Boolean(false), Value::Boolean(false));
}

#[test]
fn integer() {
    run_test(Value::Integer(0), Value::Integer(0));
    run_test(Value::Integer(-10), Value::Integer(-10));
    run_test(Value::Integer(10), Value::Integer(10));
}

#[test]
fn long() {
    run_test(Value::Long(1i64 << 50), Value::Long(1 << 50));
    run_test(Value::Long(-(1i64 << 50)), Value::Long(-(1 << 50)));
}

#[test]
fn big_integer() {
    run_test(
        Value::BigInteger(BigInteger::from_be_bytes(vec![0])),
        Value::BigInteger(BigInteger::from_be_bytes(vec![0])),
    );
    run_test(
        Value::BigInteger(BigInteger::from_be_bytes(vec![0xff; 30])),
        Value::BigInteger(BigInteger::from_be_bytes(vec![0xff; 30])),
    );
}

#[test]
fn float() {
    run_test(
        Value::Float(0f32.to_bits()),
        Value::Float(0f32.to_bits()),
    );
    run_test(
        Value::Float(f32::INFINITY.to_bits()),
        Value::Float(f32::INFINITY.to_bits()),
    );
}

#[test]
fn double() {
    run_test(
        Value::Double(0f64.to_bits()),
        Value::Double(0f64.to_bits()),
    );
    run_test(
        Value::Double(f64::INFINITY.to_bits()),
        Value::Double(f64::INFINITY.to_bits()),
    );
}

#[test]
fn big_decimal() {
    run_test(
        Value::BigDecimal(BigDecimal::new(BigInteger::from_be_bytes(vec![0]), 0)),
        Value::BigDecimal(BigDecimal::new(BigInteger::from_be_bytes(vec![0]), 0)),
    );
    run_test(
        Value::BigDecimal(BigDecimal::new(
            BigInteger::from_be_bytes(vec![0xff; 30]),
            -10,
        )),
        Value::BigDecimal(BigDecimal::new(
            BigInteger::from_be_bytes(vec![0xff; 30]),
            -10,
        )),
    );
}

#[test]
fn string() {
    run_test(
        Value::String("".to_string()),
        Value::String("".to_string()),
    );
    run_test(
        Value::String("hello world".to_string()),
        Value::String("hello world".to_string()),
    );
}

#[test]
fn binary() {
    run_test(Value::Binary(vec![]), Value::Binary(vec![]));
    run_test(Value::Binary(vec![0xff; 30]), Value::Binary(vec![0xff; 30]));
}

#[test]
fn array() {
    run_test(Value::Array(vec![]), Value::Array(vec![]));
    run_test(
        Value::Array(vec![Value::Integer(1), Value::Integer(2)]),
        Value::Array(vec![Value::Integer(1), Value::Integer(2)]),
    );
}

#[test]
fn object() {
    run_test(Value::Object(vec![]), Value::Object(vec![]));
    run_test(
        Value::Object(vec![("Hello".to_string(), Value::Integer(123))]),
        Value::Object(vec![("Hello".to_string(), Value::Integer(123))]),
    );
}

#[test]
fn a_long_that_fits_an_integer_comes_back_as_an_integer() {
    let bytes = to_vec(&Value::Long(5)).unwrap();
    assert_eq!(bytes, [0x3a, 0x29, 0x0a, 0x01, 0xca]);
    assert_eq!(from_slice(&bytes).unwrap(), Value::Integer(5));
}

#[test]
fn nested_values_round_trip() {
    let value = Value::Object(vec![
        (
            "list".to_string(),
            Value::Array(vec![
                Value::Null,
                Value::Boolean(true),
                Value::String("é".to_string()),
                Value::Array(vec![Value::Double(1.5f64.to_bits())]),
            ]),
        ),
        ("".to_string(), Value::Binary(vec![1, 2, 3, 4, 5, 6, 7, 8])),
        (
            "map".to_string(),
            Value::Object(vec![("list".to_string(), Value::Float(2.5f32.to_bits()))]),
        ),
    ]);
    let bytes = to_vec(&value).unwrap();
    assert_eq!(from_slice(&bytes).unwrap(), value);
}

#[test]
fn a_repeated_key_keeps_its_place_and_takes_the_last_value() {
    let written = Value::Object(vec![
        ("a".to_string(), Value::Integer(1)),
        ("b".to_string(), Value::Integer(2)),
        ("a".to_string(), Value::Integer(3)),
        ("c".to_string(), Value::Integer(4)),
        ("b".to_string(), Value::Null),
    ]);
    let bytes = to_vec(&written).unwrap();
    assert_eq!(
        from_slice(&bytes).unwrap(),
        Value::Object(vec![
            ("a".to_string(), Value::Integer(3)),
            ("b".to_string(), Value::Null),
            ("c".to_string(), Value::Integer(4)),
        ])
    );
}

#[test]
fn a_repeated_key_in_a_nested_map_is_merged_there() {
    let written = Value::Array(vec![Value::Object(vec![
        ("k".to_string(), Value::Boolean(false)),
        ("k".to_string(), Value::Boolean(true)),
    ])]);
    let bytes = to_vec(&written).unwrap();
    assert_eq!(
        from_slice(&bytes).unwrap(),
        Value::Array(vec![Value::Object(vec![("k".to_string(), Value::Boolean(true))])])
    );
}

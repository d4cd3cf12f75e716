use serde_smile::de::Deserializer;
use serde_smile::ser::Serializer;
use serde_smile::value::Value;

#[test]
fn empty() {
    let mut ser = Serializer::new(vec![]);
    ser.write_header().unwrap();
    let buf = ser.into_inner();

    let mut it = Deserializer::from_slice(&buf).unwrap().into_iter();
    assert!(it.next().is_none());
}

#[test]
fn empty_eos() {
    let mut ser = Serializer::new(vec![]);
    ser.end().unwrap();
    let buf = ser.into_inner();

    let mut it = Deserializer::from_slice(&buf).unwrap().into_iter();
    assert!(it.next().is_none());
}

#[test]
fn multiple() {
    let mut ser = Serializer::new(vec![]);
    ser.serialize_i32(1).unwrap();
    ser.serialize_i32(2).unwrap();
    ser.serialize_i32(3).unwrap();
    let buf = ser.into_inner();

    let mut it = Deserializer::from_slice(&buf).unwrap().into_iter();
    let mut values = vec![];
    while let Some(value) = it.next() {
        values.push(value.unwrap());
    }

    assert_eq!(
        values,
        [Value::Integer(1), Value::Integer(2), Value::Integer(3)]
    );
}

#[test]
fn stop_at_eos() {
    let mut ser = Serializer::new(vec![]);
    ser.serialize_i32(1).unwrap();
    ser.serialize_i32(2).unwrap();
    ser.serialize_i32(3).unwrap();
    ser.end().unwrap();
    let mut buf = ser.into_inner();
    buf.push(0);

    let mut buf = &buf[..];
    let mut it = Deserializer::from_reader(&mut buf).unwrap().into_iter();
    let mut values = vec![];
    while let Some(value) = it.next() {
        values.push(value.unwrap());
    }

    assert_eq!(
        values,
        [Value::Integer(1), Value::Integer(2), Value::Integer(3)]
    );
    assert_eq!(buf, [0]);
}

#[test]
fn stream_stops_after_an_error() {
    // header, a reserved token, then a valid value that must not be reached
    let buf = [0x3a, 0x29, 0x0a, 0x01, 0x00, 0xc0];
    let mut it = Deserializer::from_slice(&buf).unwrap().into_iter();
    let first = it.next().unwrap();
    assert_eq!(first.unwrap_err().message(), "reserved token");
    assert!(it.next().is_none());
    assert!(it.next().is_none());
}

#[test]
fn stream_stops_at_the_end_of_the_input() {
    let buf = [0x3a, 0x29, 0x0a, 0x01, 0xc2, 0x21];
    let mut it = Deserializer::from_slice(&buf).unwrap().into_iter();
    assert_eq!(it.next().unwrap().unwrap(), Value::Integer(1));
    assert_eq!(it.next().unwrap().unwrap(), Value::Null);
    assert!(it.next().is_none());
}

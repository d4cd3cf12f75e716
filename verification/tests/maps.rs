use serde_smile::de::{Deserializer, KeyDeserializer};
use serde_smile::ser::{KeySerializer, Serializer};

fn text_key_document(key: &str) -> Vec<u8> {
    let mut ser = Serializer::new(vec![]);
    let mut map = ser.serialize_map(Some(1)).unwrap();
    map.serialize_key(key).unwrap();
    map.ser.serialize_str("a").unwrap();
    map.end_map().unwrap();
    ser.into_inner()
}

fn read_key(bytes: &[u8]) -> String {
    let mut de = Deserializer::from_slice(bytes).unwrap();
    de.parse_value().unwrap();
    assert!(de.next_key().unwrap());
    let key = {
        let mut keys = KeyDeserializer { de: &mut de };
        keys.parse_str().unwrap().deref().to_string()
    };
    match de.parse_value().unwrap() {
        serde_smile::de::Event::Str(s) => assert_eq!(s.deref(), "a"),
        _ => panic!("not a string"),
    }
    assert!(!de.next_key().unwrap());
    de.end_map().unwrap();
    de.end().unwrap();
    key
}

fn run_signed(key: i128) {
    let expected_bytes = text_key_document(&key.to_string());

    let mut ser = Serializer::new(vec![]);
    {
        let map = ser.serialize_map(Some(1)).unwrap();
        KeySerializer { ser: &mut *map.ser }.serialize_int(key).unwrap();
        map.ser.serialize_str("a").unwrap();
        map.end_map().unwrap();
    }
    let actual_bytes = ser.into_inner();
    assert_eq!(expected_bytes, actual_bytes);

    let actual = read_key(&expected_bytes);
    assert_eq!(actual.parse::<i128>().unwrap(), key);
}

fn run_unsigned(key: u128) {
    let expected_bytes = text_key_document(&key.to_string());

    let mut ser = Serializer::new(vec![]);
    {
        let map = ser.serialize_map(Some(1)).unwrap();
        KeySerializer { ser: &mut *map.ser }.serialize_uint(key).unwrap();
        map.ser.serialize_str("a").unwrap();
        map.end_map().unwrap();
    }
    let actual_bytes = ser.into_inner();
    assert_eq!(expected_bytes, actual_bytes);

    let actual = read_key(&expected_bytes);
    assert_eq!(actual.parse::<u128>().unwrap(), key);
}

#[test]
fn u8_keys() {
    run_unsigned(1u8 as u128);
}

#[test]
fn u16_keys() {
    run_unsigned(1u16 as u128);
}

#[test]
fn u32_keys() {
    run_unsigned(1u32 as u128);
}

#[test]
fn u64_keys() {
    run_unsigned(1u64 as u128);
}

#[test]
fn u128_keys() {
    run_unsigned(1u128);
}

#[test]
fn i8_keys() {
    run_signed(1i8 as i128);
}

#[test]
fn i16_keys() {
    run_signed(1i16 as i128);
}

#[test]
fn i32_keys() {
    run_signed(1i32 as i128);
}

#[test]
fn i64_keys() {
    run_signed(1i64 as i128);
}

#[test]
fn i128_keys() {
    run_signed(1i128);
}

fn key_document(write: impl FnOnce(KeySerializer<'_>)) -> Vec<u8> {
    let mut ser = Serializer::new(vec![]);
    {
        let map = ser.serialize_map(Some(1)).unwrap();
        write(KeySerializer { ser: &mut *map.ser });
        map.ser.serialize_str("a").unwrap();
        map.end_map().unwrap();
    }
    ser.into_inner()
}

#[test]
fn enum_keys() {
    // a variant without fields is written as its name
    let expected_bytes = text_key_document("Variant");
    let actual_bytes = key_document(|key| {
        key.serialize_unit_variant("TestEnum", 0, "Variant")
            .unwrap()
    });
    assert_eq!(expected_bytes, actual_bytes);
    assert_eq!(read_key(&expected_bytes), "Variant");
}

#[test]
fn newtype_keys() {
    let expected_bytes = text_key_document("hello");
    let actual_bytes = key_document(|key| {
        key.serialize_newtype_struct(
            "TestNewtype",
            &serde_smile::value::Value::String("hello".to_string()),
        )
        .unwrap()
    });
    assert_eq!(expected_bytes, actual_bytes);
    assert_eq!(read_key(&expected_bytes), "hello");
}

#[test]
fn keys_of_one_field() {
    let actual_bytes = key_document(|key| {
        key.serialize_newtype_struct("Id", &serde_smile::value::Value::Long(-7))
            .unwrap()
    });
    assert_eq!(text_key_document("-7"), actual_bytes);

    let mut ser = Serializer::new(vec![]);
    let e = KeySerializer { ser: &mut ser }
        .serialize_newtype_struct("Flag", &serde_smile::value::Value::Boolean(true))
        .unwrap_err();
    assert_eq!(e.message(), "key must be a string");
    assert!(ser.into_inner().is_empty());
}

#[test]
fn integer_keys_are_written_in_decimal() {
    for (key, text) in [
        (0i128, "0"),
        (-1, "-1"),
        (1234567890, "1234567890"),
        (i128::MIN, "-170141183460469231731687303715884105728"),
    ] {
        let mut ser = Serializer::new(vec![]);
        ser.write_header().unwrap();
        let start = ser.get_ref().len();
        KeySerializer { ser: &mut ser }.serialize_int(key).unwrap();
        let bytes = ser.into_inner();
        assert_eq!(bytes[start] as usize, 0x80 + text.len() - 1);
        assert_eq!(&bytes[start + 1..], text.as_bytes());
    }
    let mut ser = Serializer::new(vec![]);
    ser.write_header().unwrap();
    let start = ser.get_ref().len();
    KeySerializer { ser: &mut ser }
        .serialize_uint(u128::MAX)
        .unwrap();
    let bytes = ser.into_inner();
    assert_eq!(
        &bytes[start + 1..],
        "340282366920938463463374607431768211455".as_bytes()
    );
}

#[test]
fn what_is_no_text_is_no_key() {
    let mut ser = Serializer::new(vec![]);
    let e = KeySerializer { ser: &mut ser }
        .serialize_bool(true)
        .unwrap_err();
    assert_eq!(e.message(), "key must be a string");
    let e = KeySerializer { ser: &mut ser }
        .serialize_bytes(&[1])
        .unwrap_err();
    assert!(matches!(
        e.kind(),
        serde_smile::ErrorKind::KeyMustBeAString
    ));
    let e = KeySerializer { ser: &mut ser }.serialize_unit().unwrap_err();
    assert_eq!(e.message(), "key must be a string");
    assert!(ser.into_inner().is_empty());
}

#[test]
fn character_keys_and_values() {
    let mut ser = Serializer::new(vec![]);
    ser.write_header().unwrap();
    let start = ser.get_ref().len();
    KeySerializer { ser: &mut ser }.serialize_char('é').unwrap();
    ser.serialize_char('x').unwrap();
    ser.serialize_char('é').unwrap();
    let bytes = ser.into_inner();
    assert_eq!(
        &bytes[start..],
        [0xc0, 0xc3, 0xa9, 0x40, b'x', 0x80, 0xc3, 0xa9]
    );
}

use serde_smile::de::{Deserializer, Event, KeyDeserializer};
use serde_smile::ser::Serializer;

#[test]
fn unit_variant() {
    let mut expected = Serializer::new(vec![]);
    expected.serialize_str("Unit").unwrap();
    let expected_bytes = expected.into_inner();

    let mut actual = Serializer::new(vec![]);
    actual.serialize_unit_variant("TestEnum", 0, "Unit").unwrap();
    let actual_bytes = actual.into_inner();
    assert_eq!(expected_bytes, actual_bytes);

    let mut de = Deserializer::from_slice(&expected_bytes).unwrap();
    assert!(!de.deserialize_enum().unwrap());
    match de.parse_value().unwrap() {
        Event::Str(s) => assert_eq!(s.deref(), "Unit"),
        _ => panic!("not a string"),
    }
    de.end().unwrap();
}

#[test]
fn newtype_variant() {
    // a structure of one field named as the variant
    let mut expected = Serializer::new(vec![]);
    {
        let mut map = expected.serialize_struct("NewtypeEquivalent", 1).unwrap();
        map.serialize_field("Newtype", &serde_smile::value::Value::Integer(42))
            .unwrap();
        map.end_struct().unwrap();
    }
    let expected_bytes = expected.into_inner();

    let mut actual = Serializer::new(vec![]);
    actual
        .serialize_newtype_variant(
            "TestEnum",
            1,
            "Newtype",
            &serde_smile::value::Value::Integer(42),
        )
        .unwrap();
    let actual_bytes = actual.into_inner();
    assert_eq!(expected_bytes, actual_bytes);

    let mut de = Deserializer::from_slice(&expected_bytes).unwrap();
    assert!(de.deserialize_enum().unwrap());
    let variant = KeyDeserializer { de: &mut de }
        .parse_str()
        .unwrap()
        .deref()
        .to_string();
    assert_eq!(variant, "Newtype");
    assert!(matches!(de.parse_value().unwrap(), Event::I32(42)));
    de.end_map().unwrap();
    de.end().unwrap();
}

#[test]
fn tuple_variant() {
    let mut expected = Serializer::new(vec![]);
    {
        let mut map = expected.serialize_struct("TupleEquivalent", 1).unwrap();
        map.ser.serialize_static_key("Tuple").unwrap();
        let mut seq = map.ser.serialize_tuple(2).unwrap();
        seq.ser.serialize_i32(42).unwrap();
        seq.ser.serialize_bool(true).unwrap();
        seq.end().unwrap();
        map.end_struct().unwrap();
    }
    let expected_bytes = expected.into_inner();

    let mut actual = Serializer::new(vec![]);
    {
        let seq = actual
            .serialize_tuple_variant("TestEnum", 2, "Tuple", 2)
            .unwrap();
        seq.ser.serialize_i32(42).unwrap();
        seq.ser.serialize_bool(true).unwrap();
        seq.end_tuple_variant().unwrap();
    }
    let actual_bytes = actual.into_inner();
    assert_eq!(expected_bytes, actual_bytes);

    let mut de = Deserializer::from_slice(&expected_bytes).unwrap();
    assert!(de.deserialize_enum().unwrap());
    let variant = KeyDeserializer { de: &mut de }
        .parse_str()
        .unwrap()
        .deref()
        .to_string();
    assert_eq!(variant, "Tuple");
    assert!(matches!(de.parse_value().unwrap(), Event::SeqStart));
    assert!(de.next_element().unwrap());
    assert!(matches!(de.parse_value().unwrap(), Event::I32(42)));
    assert!(de.next_element().unwrap());
    assert!(matches!(de.parse_value().unwrap(), Event::Bool(true)));
    assert!(!de.next_element().unwrap());
    de.end_array().unwrap();
    de.end_map().unwrap();
    de.end().unwrap();
}

#[test]
fn struct_variant() {
    let mut expected = Serializer::new(vec![]);
    {
        let outer = expected.serialize_struct("StructEquivalent", 1).unwrap();
        outer.ser.serialize_static_key("Struct").unwrap();
        let mut inner = outer.ser.serialize_struct("StructEquivalentInner", 2).unwrap();
        inner
            .serialize_field("a", &serde_smile::value::Value::Integer(42))
            .unwrap();
        inner
            .serialize_field("b", &serde_smile::value::Value::Boolean(true))
            .unwrap();
        inner.end_struct().unwrap();
        outer.end_struct().unwrap();
    }
    let expected_bytes = expected.into_inner();

    let mut actual = Serializer::new(vec![]);
    {
        let mut map = actual
            .serialize_struct_variant("TestEnum", 3, "Struct", 2)
            .unwrap();
        map.serialize_field("a", &serde_smile::value::Value::Integer(42))
            .unwrap();
        map.serialize_field("b", &serde_smile::value::Value::Boolean(true))
            .unwrap();
        map.end_struct_variant().unwrap();
    }
    let actual_bytes = actual.into_inner();
    assert_eq!(expected_bytes, actual_bytes);

    let mut de = Deserializer::from_slice(&expected_bytes).unwrap();
    assert!(de.deserialize_enum().unwrap());
    let variant = KeyDeserializer { de: &mut de }
        .parse_str()
        .unwrap()
        .deref()
        .to_string();
    assert_eq!(variant, "Struct");
    assert!(matches!(de.parse_value().unwrap(), Event::MapStart));
    assert!(de.next_key().unwrap());
    assert_eq!(
        KeyDeserializer { de: &mut de }.parse_str().unwrap().deref(),
        "a"
    );
    assert!(matches!(de.parse_value().unwrap(), Event::I32(42)));
    assert!(de.next_key().unwrap());
    assert_eq!(
        KeyDeserializer { de: &mut de }.parse_str().unwrap().deref(),
        "b"
    );
    assert!(matches!(de.parse_value().unwrap(), Event::Bool(true)));
    assert!(!de.next_key().unwrap());
    de.end_map().unwrap();
    de.end_map().unwrap();
    de.end().unwrap();
}

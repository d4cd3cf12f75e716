use serde_smile::de::{
    from_slice, Buf, Deserializer, Event, IoRead, KeyDeserializer, MutSliceRead, Read, SliceRead,
    Str, StreamDeserializer,
};
use serde_smile::ser::{to_vec, Serializer};
use serde_smile::value::{BigDecimal, BigInteger, Value};
use serde_smile::ErrorKind;

const HEADER: [u8; 4] = [0x3a, 0x29, 0x0a, 0x01];

fn body(bytes: &[u8]) -> &[u8] {
    assert_eq!(&bytes[..4], HEADER);
    &bytes[4..]
}

#[test]
fn integer_zero() {
    let bytes = to_vec(&Value::Integer(0)).unwrap();
    assert_eq!(bytes, [0x3a, 0x29, 0x0a, 0x01, 0xc0]);
    assert_eq!(from_slice(&bytes).unwrap(), Value::Integer(0));
}

#[test]
fn integer_minus_ten() {
    let bytes = to_vec(&Value::Integer(-10)).unwrap();
    assert_eq!(bytes, [0x3a, 0x29, 0x0a, 0x01, 0xd3]);
    assert_eq!(from_slice(&bytes).unwrap(), Value::Integer(-10));
}

#[test]
fn small_struct() {
    let value = Value::Object(vec![
        ("number".to_string(), Value::Integer(1600)),
        (
            "street".to_string(),
            Value::String("Pennsylvania Avenue".to_string()),
        ),
    ]);
    let bytes = to_vec(&value).unwrap();
    let expected = b":)\n\x01\xfa\x85number\x24\x32\x80\x85street\x52Pennsylvania Avenue\xfb";
    assert_eq!(bytes, expected);
    assert_eq!(from_slice(expected).unwrap(), value);
}

#[test]
fn raw_binary() {
    let mut ser = Serializer::builder().raw_binary(true).build(vec![]);
    ser.serialize_bytes(&[0xde, 0xad, 0xbe, 0xef]).unwrap();
    let bytes = ser.into_inner();
    assert_eq!(
        bytes,
        [0x3a, 0x29, 0x0a, 0x05, 0xfd, 0x84, 0xde, 0xad, 0xbe, 0xef]
    );
    assert_eq!(
        from_slice(&bytes).unwrap(),
        Value::Binary(vec![0xde, 0xad, 0xbe, 0xef])
    );
}

#[test]
fn shared_value_string() {
    let value = Value::Array(vec![
        Value::String("hi".to_string()),
        Value::String("hi".to_string()),
    ]);
    let mut ser = Serializer::builder().shared_strings(true).build(vec![]);
    value.serialize(&mut ser).unwrap();
    let bytes = ser.into_inner();
    assert_eq!(
        bytes,
        [0x3a, 0x29, 0x0a, 0x03, 0xf8, 0x41, 0x68, 0x69, 0x01, 0xf9]
    );
    assert_eq!(from_slice(&bytes).unwrap(), value);
}

#[test]
fn big_integer_two_to_the_hundred() {
    let mut raw = vec![0u8; 13];
    raw[0] = 0x10;
    let bytes = to_vec(&Value::BigInteger(BigInteger::from_be_bytes(raw.clone()))).unwrap();
    let mut expected = vec![0x26, 0x8d, 0x08];
    expected.extend_from_slice(&[0; 14]);
    assert_eq!(body(&bytes), expected);
    assert_eq!(
        from_slice(&bytes).unwrap(),
        Value::BigInteger(BigInteger::from_be_bytes(raw))
    );
}

#[test]
fn recursion_limit() {
    let mut bytes = HEADER.to_vec();
    bytes.extend_from_slice(&[0xf8; 129]);
    bytes.extend_from_slice(&[0xf9; 129]);
    let e = from_slice(&bytes).unwrap_err();
    assert!(matches!(e.kind(), ErrorKind::RecursionLimitExceeded));
    assert_eq!(e.message(), "recursion limit exceeded");

    // nothing is read behind the opener at which the limit is reached
    let mut stream = &bytes[..];
    let mut de = Deserializer::from_reader(&mut stream).unwrap();
    let mut opened = 0;
    let e = loop {
        match de.parse_value() {
            Ok(Event::SeqStart) => opened += 1,
            Ok(_) => panic!("not a sequence"),
            Err(e) => break e,
        }
    };
    assert!(matches!(e.kind(), ErrorKind::RecursionLimitExceeded));
    assert_eq!(opened, 127);
    assert_eq!(stream.len(), 129 - 128 + 129);
}

#[test]
fn nesting_within_the_limit() {
    let mut bytes = HEADER.to_vec();
    bytes.extend_from_slice(&[0xf8; 127]);
    bytes.extend_from_slice(&[0xf9; 127]);
    let mut value = from_slice(&bytes).unwrap();
    let mut depth = 0;
    while let Value::Array(mut items) = value {
        depth += 1;
        if items.is_empty() {
            break;
        }
        value = items.pop().unwrap();
    }
    assert_eq!(depth, 127);

    let mut maps = HEADER.to_vec();
    for _ in 0..128 {
        maps.extend_from_slice(&[0xfa, 0x80, b'k']);
    }
    let e = from_slice(&maps).unwrap_err();
    assert!(matches!(e.kind(), ErrorKind::RecursionLimitExceeded));
}

#[test]
fn the_depth_is_restored_behind_a_container() {
    // 100 nested sequences, closed, and 100 more behind them, in one outer sequence
    let mut bytes = HEADER.to_vec();
    bytes.push(0xf8);
    for _ in 0..2 {
        bytes.extend_from_slice(&[0xf8; 100]);
        bytes.extend_from_slice(&[0xf9; 100]);
    }
    bytes.push(0xf9);
    assert!(from_slice(&bytes).is_ok());
}

#[test]
fn shared_string_identity() {
    let mut ser = Serializer::builder().shared_strings(true).build(vec![]);
    ser.write_header().unwrap();
    ser.serialize_str("twice").unwrap();
    let first = ser.get_ref().len();
    ser.serialize_str("twice").unwrap();
    let bytes = ser.into_inner();
    assert_eq!(&bytes[4..first], b"\x44twice");
    assert_eq!(&bytes[first..], [0x01]);

    let mut de = Deserializer::from_slice(&bytes).unwrap();
    for _ in 0..2 {
        match de.parse_value().unwrap() {
            Event::Str(s) => assert_eq!(s.deref().as_bytes(), b"twice"),
            _ => panic!("not a string"),
        }
    }
    de.end().unwrap();
}

#[test]
fn long_back_references() {
    // 40 different strings, then each of them again
    let mut ser = Serializer::builder()
        .shared_strings(true)
        .shared_properties(true)
        .build(vec![]);
    let words: Vec<String> = (0..70).map(|i| format!("word{}", i)).collect();
    let mut items = vec![];
    for w in &words {
        items.push(Value::Object(vec![(w.clone(), Value::String(w.clone()))]));
    }
    for w in &words {
        items.push(Value::Object(vec![(w.clone(), Value::String(w.clone()))]));
    }
    let value = Value::Array(items);
    value.serialize(&mut ser).unwrap();
    let bytes = ser.into_inner();
    // the last entry: a map, the long key reference to index 69, the long value reference
    let tail = &bytes[bytes.len() - 7..];
    assert_eq!(tail, [0xfa, 0x30, 69, 0xec, 69, 0xfb, 0xf9]);
    // index 31 is the first value string with a long reference, index 63 the last short key
    assert_eq!(from_slice(&bytes).unwrap(), value);
}

#[test]
fn caches_start_afresh_when_full() {
    let mut ser = Serializer::builder().shared_strings(true).build(vec![]);
    let mut items = vec![];
    for i in 0..1030 {
        items.push(Value::String(format!("str{}", i)));
    }
    // "str1024" is the first entry of the fresh cache, "str0" is forgotten
    items.push(Value::String("str1024".to_string()));
    items.push(Value::String("str0".to_string()));
    let value = Value::Array(items);
    value.serialize(&mut ser).unwrap();
    let bytes = ser.into_inner();
    assert_eq!(
        &bytes[bytes.len() - 7..],
        [0x01, 0x43, b's', b't', b'r', b'0', 0xf9]
    );
    assert_eq!(from_slice(&bytes).unwrap(), value);
}

#[test]
fn strings_by_length_class() {
    let ascii = |n: usize| "a".repeat(n);
    let other = |n: usize| format!("é{}", "a".repeat(n - 2));
    let cases: Vec<(String, Vec<u8>, bool)> = vec![
        (ascii(1), vec![0x40], false),
        (ascii(32), vec![0x5f], false),
        (ascii(33), vec![0x60], false),
        (ascii(64), vec![0x7f], false),
        (ascii(65), vec![0xe0], true),
        (other(2), vec![0x80], false),
        (other(33), vec![0x9f], false),
        (other(34), vec![0xa0], false),
        (other(64), vec![0xbe], false),
        (other(65), vec![0xe4], true),
    ];
    for (s, lead, long) in cases {
        let bytes = to_vec(&Value::String(s.clone())).unwrap();
        let mut expected = lead;
        expected.extend_from_slice(s.as_bytes());
        if long {
            expected.push(0xfc);
        }
        assert_eq!(body(&bytes), expected);
        assert_eq!(from_slice(&bytes).unwrap(), Value::String(s));
    }
}

#[test]
fn keys_by_length_class() {
    let ascii = |n: usize| "a".repeat(n);
    let other = |n: usize| format!("é{}", "a".repeat(n - 2));
    let cases: Vec<(String, Vec<u8>, bool)> = vec![
        ("".to_string(), vec![0x20], false),
        (ascii(1), vec![0x80], false),
        (ascii(64), vec![0xbf], false),
        (ascii(65), vec![0x34], true),
        (other(2), vec![0xc0], false),
        (other(56), vec![0xf6], false),
        (other(57), vec![0x34], true),
        (other(64), vec![0x34], true),
    ];
    for (s, lead, long) in cases {
        let value = Value::Object(vec![
            (s.clone(), Value::Null),
            (s.clone(), Value::Boolean(true)),
        ]);
        let bytes = to_vec(&value).unwrap();
        let mut expected = vec![0xfa];
        expected.extend_from_slice(&lead);
        expected.extend_from_slice(s.as_bytes());
        if long {
            expected.push(0xfc);
        }
        expected.push(0x21);
        if s.is_empty() {
            expected.push(0x20);
        } else if s.len() <= 64 {
            // the second time the key is a reference to index 0
            expected.push(0x40);
        } else {
            expected.extend_from_slice(&lead);
            expected.extend_from_slice(s.as_bytes());
            expected.push(0xfc);
        }
        expected.push(0x23);
        expected.push(0xfb);
        assert_eq!(body(&bytes), expected);
        // read back, the key stands once, with the value that came last
        assert_eq!(
            from_slice(&bytes).unwrap(),
            Value::Object(vec![(s.clone(), Value::Boolean(true))])
        );
    }
}

#[test]
fn header_rejection() {
    for high in 1..16u8 {
        for low in 0..16u8 {
            let bytes = [0x3a, 0x29, 0x0a, high << 4 | low, 0xc0];
            let e = from_slice(&bytes).unwrap_err();
            assert!(matches!(e.kind(), ErrorKind::UnsupportedVersion));
        }
    }
    for bytes in [
        [0x3b, 0x29, 0x0a, 0x00],
        [0x3a, 0x28, 0x0a, 0x00],
        [0x3a, 0x29, 0x0b, 0x00],
        [0x3b, 0x29, 0x0a, 0xf0],
    ] {
        let e = from_slice(&bytes).unwrap_err();
        assert!(matches!(e.kind(), ErrorKind::InvalidHeader));
        assert_eq!(e.message(), "invalid header");
    }
    for n in 0..4 {
        let e = from_slice(&HEADER[..n]).unwrap_err();
        assert!(matches!(e.kind(), ErrorKind::EofWhileParsingHeader));
    }
    assert_eq!(
        from_slice(&[0x3a, 0x29, 0x0a, 0x10]).unwrap_err().message(),
        "unsupported version"
    );
}

#[test]
fn header_flags() {
    for flags in 0..8u8 {
        let ser = Serializer::builder()
            .raw_binary(flags & 4 != 0)
            .shared_strings(flags & 2 != 0)
            .shared_properties(flags & 1 != 0)
            .build(vec![]);
        let mut ser = ser;
        ser.write_header().unwrap();
        ser.write_header().unwrap();
        assert_eq!(ser.into_inner(), [0x3a, 0x29, 0x0a, flags]);
    }
}

#[test]
fn trailing_data() {
    for b in 0..=0xfeu8 {
        let bytes = [0x3a, 0x29, 0x0a, 0x01, 0xc0, b];
        let e = from_slice(&bytes).unwrap_err();
        assert!(matches!(e.kind(), ErrorKind::TrailingData));
        assert_eq!(e.message(), "trailing data");
    }
    assert_eq!(
        from_slice(&[0x3a, 0x29, 0x0a, 0x01, 0xc0, 0xff]).unwrap(),
        Value::Integer(0)
    );
    assert_eq!(
        from_slice(&[0x3a, 0x29, 0x0a, 0x01, 0xc0]).unwrap(),
        Value::Integer(0)
    );
}

fn error_of(body: &[u8]) -> ErrorKind {
    let mut bytes = vec![0x3a, 0x29, 0x0a, 0x03];
    bytes.extend_from_slice(body);
    let e = from_slice(&bytes).unwrap_err();
    let mut copy = bytes.clone();
    let e2 = serde_smile::de::from_mut_slice(&mut copy).unwrap_err();
    assert_eq!(e.message(), e2.message());
    let mut stream = &bytes[..];
    let e3 = serde_smile::de::from_reader(&mut stream).unwrap_err();
    assert_eq!(e.message(), e3.message());
    match e.kind() {
        ErrorKind::Io(_) => panic!("no input and output here"),
        ErrorKind::Custom(m) => ErrorKind::Custom(m.clone()),
        ErrorKind::KeyMustBeAString => ErrorKind::KeyMustBeAString,
        ErrorKind::EofWhileParsingValue => ErrorKind::EofWhileParsingValue,
        ErrorKind::ReservedToken => ErrorKind::ReservedToken,
        ErrorKind::InvalidStringReference => ErrorKind::InvalidStringReference,
        ErrorKind::UnterminatedVint => ErrorKind::UnterminatedVint,
        ErrorKind::BufferLengthOverflow => ErrorKind::BufferLengthOverflow,
        ErrorKind::UnsupportedBigInteger => ErrorKind::UnsupportedBigInteger,
        ErrorKind::UnsupportedBigDecimal => ErrorKind::UnsupportedBigDecimal,
        ErrorKind::InvalidUtf8 => ErrorKind::InvalidUtf8,
        ErrorKind::RecursionLimitExceeded => ErrorKind::RecursionLimitExceeded,
        ErrorKind::TrailingData => ErrorKind::TrailingData,
        ErrorKind::EofWhileParsingArray => ErrorKind::EofWhileParsingArray,
        ErrorKind::UnexpectedToken => ErrorKind::UnexpectedToken,
        ErrorKind::EofWhileParsingMap => ErrorKind::EofWhileParsingMap,
        ErrorKind::InvalidHeader => ErrorKind::InvalidHeader,
        ErrorKind::UnsupportedVersion => ErrorKind::UnsupportedVersion,
        ErrorKind::EofWhileParsingHeader => ErrorKind::EofWhileParsingHeader,
    }
}

#[test]
fn errors_of_values() {
    assert!(matches!(error_of(&[]), ErrorKind::EofWhileParsingValue));
    assert!(matches!(error_of(&[0xff]), ErrorKind::EofWhileParsingValue));
    for t in [0x00u8, 0x27, 0x2b, 0x2c, 0x3f, 0xe1, 0xe3, 0xe5, 0xe7, 0xe9, 0xeb, 0xf0, 0xf7, 0xfe] {
        assert!(matches!(error_of(&[t]), ErrorKind::ReservedToken));
    }
    for t in [0xf9u8, 0xfb, 0xfc] {
        assert!(matches!(error_of(&[t]), ErrorKind::UnexpectedToken));
    }
    // back-references into an empty cache, short and long
    assert!(matches!(error_of(&[0x01]), ErrorKind::InvalidStringReference));
    assert!(matches!(error_of(&[0xec, 0x00]), ErrorKind::InvalidStringReference));
    assert!(matches!(error_of(&[0xec]), ErrorKind::EofWhileParsingValue));
    // VInts
    assert!(matches!(
        error_of(&[0x24, 0x01, 0x01, 0x01, 0x01, 0x01, 0x81]),
        ErrorKind::UnterminatedVint
    ));
    assert!(matches!(error_of(&[0x24, 0x01]), ErrorKind::EofWhileParsingValue));
    assert!(matches!(
        error_of(&[0x25, 1, 1, 1, 1, 1, 1, 1, 1, 1, 1, 0x81]),
        ErrorKind::UnterminatedVint
    ));
    // a length beyond any buffer
    assert!(matches!(
        error_of(&[0xe8, 0x7f, 0x7f, 0x7f, 0x7f, 0x7f, 0x7f, 0x7f, 0x7f, 0x7f, 0xbf]),
        ErrorKind::BufferLengthOverflow
    ));
    // strings
    assert!(matches!(error_of(&[0x41, b'a']), ErrorKind::EofWhileParsingValue));
    assert!(matches!(error_of(&[0x80, 0xc3, 0x28]), ErrorKind::InvalidUtf8));
    assert!(matches!(error_of(&[0xe0, 0xff, 0xfc]), ErrorKind::InvalidUtf8));
    assert!(matches!(error_of(&[0xe0, b'a']), ErrorKind::EofWhileParsingValue));
    // numbers of fixed size
    assert!(matches!(error_of(&[0x28, 0, 0, 0, 0]), ErrorKind::EofWhileParsingValue));
    assert!(matches!(error_of(&[0x29, 0, 0, 0, 0, 0, 0, 0, 0, 0]), ErrorKind::EofWhileParsingValue));
    // binary data
    assert!(matches!(error_of(&[0xe8, 0x81, 0x00]), ErrorKind::EofWhileParsingValue));
    assert!(matches!(error_of(&[0xfd, 0x82, 0x00]), ErrorKind::EofWhileParsingValue));
    // containers
    assert!(matches!(error_of(&[0xf8]), ErrorKind::EofWhileParsingArray));
    assert!(matches!(error_of(&[0xf8, 0xc0]), ErrorKind::EofWhileParsingArray));
    assert!(matches!(error_of(&[0xf8, 0xfb]), ErrorKind::UnexpectedToken));
    assert!(matches!(error_of(&[0xfa]), ErrorKind::EofWhileParsingMap));
    assert!(matches!(error_of(&[0xfa, 0x80, b'a', 0xc0]), ErrorKind::EofWhileParsingMap));
    assert!(matches!(error_of(&[0xfa, 0x80, b'a']), ErrorKind::EofWhileParsingValue));
    // keys
    assert!(matches!(error_of(&[0xfa, 0xf9]), ErrorKind::ReservedToken));
    assert!(matches!(error_of(&[0xfa, 0x3a]), ErrorKind::UnexpectedToken));
    assert!(matches!(error_of(&[0xfa, 0x21]), ErrorKind::ReservedToken));
    assert!(matches!(error_of(&[0xfa, 0x40]), ErrorKind::InvalidStringReference));
    assert!(matches!(error_of(&[0xfa, 0x30, 0x00]), ErrorKind::InvalidStringReference));
    assert!(matches!(error_of(&[0xfa, 0x81, 0xc3, 0x28]), ErrorKind::InvalidUtf8));
    assert!(matches!(error_of(&[0xfa, 0x34, b'a']), ErrorKind::EofWhileParsingValue));
}

#[test]
fn trailing_data_inside_containers() {
    let mut de = Deserializer::from_slice(&[0x3a, 0x29, 0x0a, 0x01, 0xf8, 0xc0]).unwrap();
    assert!(matches!(de.parse_value().unwrap(), Event::SeqStart));
    let e = de.end_array().unwrap_err();
    assert!(matches!(e.kind(), ErrorKind::TrailingData));

    let mut de = Deserializer::from_slice(&[0x3a, 0x29, 0x0a, 0x01, 0xfa, 0xf9]).unwrap();
    assert!(matches!(de.parse_value().unwrap(), Event::MapStart));
    let e = de.end_map().unwrap_err();
    assert!(matches!(e.kind(), ErrorKind::TrailingData));
}

#[test]
fn references_without_a_cache_are_invalid() {
    // the header switches both caches off
    let e = from_slice(&[0x3a, 0x29, 0x0a, 0x00, 0xf8, 0x40, b'a', 0x01, 0xf9]).unwrap_err();
    assert!(matches!(e.kind(), ErrorKind::InvalidStringReference));
    let e = from_slice(&[0x3a, 0x29, 0x0a, 0x00, 0xfa, 0x80, b'a', 0x21, 0x40, 0x21, 0xfb])
        .unwrap_err();
    assert!(matches!(e.kind(), ErrorKind::InvalidStringReference));
    // with the caches on the same bytes are fine
    assert!(from_slice(&[0x3a, 0x29, 0x0a, 0x03, 0xf8, 0x40, b'a', 0x01, 0xf9]).is_ok());
    assert!(
        from_slice(&[0x3a, 0x29, 0x0a, 0x03, 0xfa, 0x80, b'a', 0x21, 0x40, 0x21, 0xfb]).is_ok()
    );
}

#[test]
fn vint_values() {
    let cases: [(u64, &[u8]); 7] = [
        (0, &[0x80]),
        (63, &[0xbf]),
        (64, &[0x01, 0x80]),
        (3200, &[0x32, 0x80]),
        (8191, &[0x7f, 0xbf]),
        (8192, &[0x01, 0x00, 0x80]),
        (u64::MAX, &[0x03, 0x7f, 0x7f, 0x7f, 0x7f, 0x7f, 0x7f, 0x7f, 0x7f, 0xbf]),
    ];
    for (v, expected) in cases {
        let mut ser = Serializer::new(vec![]);
        ser.serialize_vint(v).unwrap();
        let bytes = ser.into_inner();
        assert_eq!(bytes, expected);

        let mut doc = HEADER.to_vec();
        doc.extend_from_slice(&bytes);
        doc.push(0x55);
        let mut de = Deserializer::from_slice(&doc).unwrap();
        assert_eq!(de.parse_vint(10).unwrap(), v);
        assert_eq!(de.parse_u8().unwrap(), 0x55);
    }
}

#[test]
fn zigzag_values() {
    for (s, u) in [(0i32, 0u64), (-1, 1), (1, 2), (-2, 3), (i32::MAX, 0xffff_fffe), (i32::MIN, 0xffff_ffff)] {
        assert_eq!(serde_smile::ser::zigzag_i32(s), u);
        assert_eq!(serde_smile::de::zigzag_i32(u as u32), s);
    }
    for (s, u) in [(0i64, 0u64), (-1, 1), (1, 2), (i64::MAX, u64::MAX - 1), (i64::MIN, u64::MAX)] {
        assert_eq!(serde_smile::ser::zigzag_i64(s), u);
        assert_eq!(serde_smile::de::zigzag_i64(u), s);
    }
    for s in -16..16 {
        let bytes = to_vec(&Value::Integer(s)).unwrap();
        assert_eq!(body(&bytes), [0xc0 + serde_smile::ser::zigzag_i32(s) as u8]);
    }
    assert_eq!(body(&to_vec(&Value::Integer(16)).unwrap()), [0x24, 0xa0]);
    assert_eq!(body(&to_vec(&Value::Integer(-17)).unwrap()), [0x24, 0xa1]);
}

#[test]
fn seven_bit_packing() {
    let mut ser = Serializer::new(vec![]);
    ser.serialize_7_bit_binary(&[0xff]).unwrap();
    assert_eq!(ser.into_inner(), [0x81, 0x7f, 0x01]);

    let mut ser = Serializer::new(vec![]);
    ser.serialize_7_bit_binary(&[0xde, 0xad, 0xbe, 0xef]).unwrap();
    assert_eq!(ser.into_inner(), [0x84, 0x6f, 0x2b, 0x37, 0x6e, 0x0f]);

    let mut ser = Serializer::new(vec![]);
    ser.serialize_7_bit_binary(&[0x80, 0, 0, 0, 0, 0, 0x01])
        .unwrap();
    assert_eq!(ser.into_inner(), [0x87, 0x40, 0, 0, 0, 0, 0, 0, 0x01]);

    for len in 0..40usize {
        let raw: Vec<u8> = (0..len).map(|i| (i * 37 + 201) as u8).collect();
        let mut ser = Serializer::new(vec![]);
        ser.serialize_bytes(&raw).unwrap();
        let bytes = ser.into_inner();
        let rem = len % 7;
        let packed = 8 * (len / 7) + if rem == 0 { 0 } else { rem + 1 };
        assert_eq!(bytes.len(), 4 + 1 + 1 + packed);
        assert!(bytes[6..].iter().all(|b| b & 0x80 == 0));
        assert_eq!(from_slice(&bytes).unwrap(), Value::Binary(raw.clone()));
        let mut copy = bytes.clone();
        assert_eq!(
            serde_smile::de::from_mut_slice(&mut copy).unwrap(),
            Value::Binary(raw.clone())
        );
        let mut stream = &bytes[..];
        assert_eq!(
            serde_smile::de::from_reader(&mut stream).unwrap(),
            Value::Binary(raw)
        );
    }
}

#[test]
fn floating_point_patterns() {
    let mut ser = Serializer::new(vec![]);
    ser.serialize_f32((-1.0f32).to_bits()).unwrap();
    // 0xbf800000, the first byte filled up with the sign
    assert_eq!(body(&ser.into_inner()), [0x28, 0x7b, 0x7c, 0x00, 0x00, 0x00]);
    let mut ser = Serializer::new(vec![]);
    ser.serialize_f64((-1.0f64).to_bits()).unwrap();
    // 0xbff0000000000000
    assert_eq!(
        body(&ser.into_inner()),
        [0x29, 0x01, 0x3f, 0x78, 0, 0, 0, 0, 0, 0, 0]
    );
    for v in [0.0f32, -0.0, 1.5, f32::MIN, f32::MAX, f32::NEG_INFINITY, f32::NAN] {
        let bytes = to_vec(&Value::Float(v.to_bits())).unwrap();
        assert_eq!(from_slice(&bytes).unwrap(), Value::Float(v.to_bits()));
    }
    for v in [0.0f64, -0.0, 1.5, f64::MIN, f64::MAX, f64::NEG_INFINITY, f64::NAN] {
        let bytes = to_vec(&Value::Double(v.to_bits())).unwrap();
        assert_eq!(from_slice(&bytes).unwrap(), Value::Double(v.to_bits()));
    }
}

#[test]
fn all_feature_flags_round_trip() {
    let value = Value::Array(vec![
        Value::Object(vec![
            ("id".to_string(), Value::Long(1 << 40)),
            ("name".to_string(), Value::String("one".to_string())),
            ("data".to_string(), Value::Binary(vec![0xff, 0xfe, 0xfd])),
        ]),
        Value::Object(vec![
            ("id".to_string(), Value::Long(-(1 << 40))),
            ("name".to_string(), Value::String("one".to_string())),
            ("data".to_string(), Value::Binary(vec![])),
        ]),
    ]);
    for flags in 0..8u8 {
        let mut ser = Serializer::builder()
            .raw_binary(flags & 4 != 0)
            .shared_strings(flags & 2 != 0)
            .shared_properties(flags & 1 != 0)
            .build(vec![]);
        value.serialize(&mut ser).unwrap();
        ser.end().unwrap();
        let bytes = ser.into_inner();
        assert_eq!(bytes[3], flags);
        assert_eq!(from_slice(&bytes).unwrap(), value);
    }
}

#[test]
fn absent_values() {
    let mut de = Deserializer::from_slice(&[0x3a, 0x29, 0x0a, 0x01, 0x21, 0xc0]).unwrap();
    assert!(!de.deserialize_option().unwrap());
    assert!(de.deserialize_option().unwrap());
    assert!(matches!(de.parse_value().unwrap(), Event::I32(0)));

    let mut ser = Serializer::new(vec![]);
    ser.serialize_none().unwrap();
    ser.serialize_unit().unwrap();
    ser.serialize_unit_struct("Unit").unwrap();
    assert_eq!(body(&ser.into_inner()), [0x21, 0x21, 0x21]);
}

#[test]
fn big_numbers_as_structures() {
    let mut ser = Serializer::new(vec![]);
    {
        let mut s = ser.serialize_struct(BigInteger::STRUCT_NAME, 1).unwrap();
        s.serialize_field(BigInteger::FIELD_NAME, &Value::Binary(vec![0x01, 0x02]))
            .unwrap();
        s.end_struct().unwrap();
    }
    {
        let mut s = ser.serialize_struct(BigDecimal::STRUCT_NAME, 2).unwrap();
        s.serialize_field(BigDecimal::SCALE_FIELD_NAME, &Value::Integer(-10))
            .unwrap();
        s.serialize_field(BigDecimal::VALUE_FIELD_NAME, &Value::Binary(vec![0x7f]))
            .unwrap();
        s.end_struct().unwrap();
    }
    let bytes = ser.into_inner();
    assert_eq!(
        body(&bytes),
        [0x26, 0x82, 0x00, 0x40, 0x02, 0x2a, 0x93, 0x81, 0x3f, 0x01]
    );

    let mut de = Deserializer::from_slice(&bytes).unwrap();
    match de
        .deserialize_struct(BigInteger::STRUCT_NAME, &[BigInteger::FIELD_NAME])
        .unwrap()
    {
        Some(Event::BigInteger(b)) => assert_eq!(b.deref(), [0x01, 0x02]),
        _ => panic!("not a big integer"),
    };
    assert!(de
        .deserialize_struct(BigInteger::STRUCT_NAME, &[BigInteger::FIELD_NAME])
        .unwrap()
        .is_none());
    match de
        .deserialize_struct(
            BigDecimal::STRUCT_NAME,
            &[BigDecimal::SCALE_FIELD_NAME, BigDecimal::VALUE_FIELD_NAME],
        )
        .unwrap()
    {
        Some(Event::BigDecimal(scale, b)) => {
            assert_eq!(scale, -10);
            assert_eq!(b.deref(), [0x7f]);
        }
        _ => panic!("not a big decimal"),
    };
    de.end().unwrap();

    // without the hint a small big integer is a machine integer
    let mut de = Deserializer::from_slice(&bytes).unwrap();
    assert!(matches!(de.parse_value().unwrap(), Event::I64(0x0102)));
}

#[test]
fn builder_defaults_and_accessors() {
    let mut ser = Serializer::new(vec![0xaa]);
    assert_eq!(ser.get_ref(), &[0xaa]);
    ser.get_mut().push(0xbb);
    ser.serialize_bool(true).unwrap();
    ser.serialize_bool(false).unwrap();
    assert!(!ser.is_human_readable());
    assert_eq!(ser.into_inner(), [0xaa, 0xbb, 0x3a, 0x29, 0x0a, 0x01, 0x23, 0x22]);

    let bd = BigDecimal::new(BigInteger::from_be_bytes(vec![1, 2]), 7);
    assert_eq!(bd.scale(), 7);
    assert_eq!(bd.unscaled_value().as_be_bytes(), [1, 2]);
    assert_eq!(bd.clone().into_unscaled_value().into_be_bytes(), vec![1, 2]);
}

#[test]
fn sources_and_their_accessors() {
    let data = [1u8, 2, 0xfc, 3, 4, 5];

    let mut r = SliceRead::new(&data);
    assert_eq!(r.peek().unwrap(), Some(1));
    r.consume();
    assert_eq!(r.next().unwrap(), Some(2));
    assert!(r.read_until(0xfc).unwrap().unwrap().deref().is_empty());
    assert_eq!(r.read(2).unwrap().unwrap().deref(), [3, 4]);
    assert!(r.read(2).unwrap().is_none());
    assert_eq!(r.read_mut(1).unwrap().unwrap().deref(), [5]);
    assert_eq!(r.next().unwrap(), None);
    assert_eq!(r.peek().unwrap(), None);

    let mut copy = data;
    let mut r = MutSliceRead::new(&mut copy);
    assert_eq!(r.peek().unwrap(), Some(1));
    r.consume();
    assert_eq!(r.read_until(0xfc).unwrap().unwrap().deref(), [2]);
    {
        let mut buf = r.read_mut(2).unwrap().unwrap();
        buf.deref_mut()[0] = 9;
        assert_eq!(buf.deref(), [9, 4]);
    }
    assert!(r.read_until(0xfc).unwrap().is_none());
    assert_eq!(r.next().unwrap(), Some(5));
    assert_eq!(r.next().unwrap(), None);

    let mut stream = &data[..];
    let mut r = IoRead::new(&mut stream);
    assert_eq!(r.peek().unwrap(), Some(1));
    assert_eq!(r.next().unwrap(), Some(1));
    assert_eq!(r.read_until(0xfc).unwrap().unwrap().deref(), [2]);
    assert_eq!(r.read(2).unwrap().unwrap().deref(), [3, 4]);
    assert!(r.read_until(0xfc).unwrap().is_none());
    assert_eq!(r.get_ref().len(), 0);
    let _ = r.get_mut();
    let _ = r.into_inner();

    let de = Deserializer::from_slice(&[0x3a, 0x29, 0x0a, 0x01, 0xc0]).unwrap();
    let _ = de.get_ref();
    let mut inner = de.into_inner();
    assert_eq!(inner.next().unwrap(), Some(0xc0));
}

#[test]
fn keys_read_through_the_key_deserializer() {
    let mut de =
        Deserializer::from_slice(&[0x3a, 0x29, 0x0a, 0x01, 0xfa, 0x20, 0x21, 0xfb]).unwrap();
    assert!(matches!(de.parse_value().unwrap(), Event::MapStart));
    assert!(de.next_key().unwrap());
    {
        let mut keys = KeyDeserializer { de: &mut de };
        assert!(!keys.is_human_readable());
        assert_eq!(keys.parse_str().unwrap().deref(), "");
    }
    assert!(matches!(de.parse_value().unwrap(), Event::Null));
    assert!(!de.next_key().unwrap());
    de.end_map().unwrap();
    de.end().unwrap();
}

struct Broken {
    data: Vec<u8>,
    at: usize,
}

impl serde_smile::de::Source for Broken {
    fn fill_buf(&mut self) -> Result<&[u8], std::io::Error> {
        if self.at < self.data.len() {
            Ok(&self.data[self.at..self.at + 1])
        } else {
            Err(std::io::Error::other("the stream broke"))
        }
    }

    fn consume(&mut self, amt: usize) {
        self.at += amt;
    }
}

#[test]
fn a_failing_stream_gives_an_io_error() {
    // the header and the start of a sequence arrive byte by byte, then the stream fails
    let source = Broken {
        data: vec![0x3a, 0x29, 0x0a, 0x01, 0xf8, 0xc1],
        at: 0,
    };
    let mut de = Deserializer::from_reader(source).unwrap();
    assert!(matches!(de.parse_value().unwrap(), Event::SeqStart));
    assert!(de.next_element().unwrap());
    assert!(matches!(de.parse_value().unwrap(), Event::I32(-1)));
    let e = de.next_element().unwrap_err();
    assert!(matches!(e.kind(), ErrorKind::Io(_)));
    assert_eq!(e.message(), "IO error");
    assert_eq!(e.source().unwrap().to_string(), "the stream broke");

    let source = Broken {
        data: vec![0x3a, 0x29],
        at: 0,
    };
    let e = match Deserializer::from_reader(source) {
        Ok(_) => panic!("the header is not there"),
        Err(e) => e,
    };
    assert!(matches!(e.kind(), ErrorKind::Io(_)));

    let source = Broken {
        data: vec![0x3a, 0x29, 0x0a, 0x01, 0xe0, b'a', b'b'],
        at: 0,
    };
    let e = serde_smile::de::from_reader(source).unwrap_err();
    assert!(matches!(e.kind(), ErrorKind::Io(_)));
}

#[test]
fn a_stream_in_small_pieces() {
    let value = Value::Array(vec![
        Value::String("a".repeat(100)),
        Value::Binary((0..50).collect()),
        Value::Double(2.5f64.to_bits()),
        Value::BigInteger(BigInteger::from_be_bytes(vec![1; 20])),
    ]);
    let mut data = to_vec(&value).unwrap();
    data.push(0xff);
    struct Pieces {
        data: Vec<u8>,
        at: usize,
    }
    impl serde_smile::de::Source for Pieces {
        fn fill_buf(&mut self) -> Result<&[u8], std::io::Error> {
            let end = usize::min(self.at + 3, self.data.len());
            Ok(&self.data[self.at..end])
        }

        fn consume(&mut self, amt: usize) {
            self.at += amt;
        }
    }
    let read = serde_smile::de::from_reader(Pieces { data, at: 0 }).unwrap();
    assert_eq!(read, value);
}

#[test]
fn messages_of_errors() {
    let cases = [
        (
            serde_smile::Error::custom("made to measure".to_string()),
            "made to measure",
        ),
        (serde_smile::Error::key_must_be_a_string(), "key must be a string"),
        (serde_smile::Error::eof_while_parsing_value(), "EOF while parsing a value"),
        (serde_smile::Error::reserved_token(), "reserved token"),
        (serde_smile::Error::invalid_string_reference(), "invalid string reference"),
        (serde_smile::Error::unterminated_vint(), "unterminated vint"),
        (serde_smile::Error::buffer_length_overflow(), "buffer length overflow"),
        (serde_smile::Error::unsupported_big_integer(), "unsupported BigInteger"),
        (serde_smile::Error::unsupported_big_decimal(), "unsupported BigDecimal"),
        (serde_smile::Error::invalid_utf8(), "invalid UTF-8"),
        (serde_smile::Error::recursion_limit_exceeded(), "recursion limit exceeded"),
        (serde_smile::Error::trailing_data(), "trailing data"),
        (serde_smile::Error::eof_while_parsing_array(), "EOF while parsing array"),
        (serde_smile::Error::unexpected_token(), "unexpected token"),
        (serde_smile::Error::eof_while_parsing_map(), "EOF while parsing map"),
        (serde_smile::Error::invalid_header(), "invalid header"),
        (serde_smile::Error::unsupported_version(), "unsupported version"),
        (serde_smile::Error::eof_while_parsing_header(), "EOF while parsing header"),
    ];
    for (e, message) in cases {
        assert_eq!(e.message(), message);
        assert!(e.source().is_none());
    }
    let e = serde_smile::Error::custom("made to measure".to_string());
    assert!(matches!(e.kind(), ErrorKind::Custom(m) if m == "made to measure"));
}

#[test]
fn variants_of_one_field() {
    let mut ser = Serializer::new(vec![]);
    ser.serialize_newtype_variant("TestEnum", 1, "Newtype", &Value::Integer(42))
        .unwrap();
    ser.serialize_some(&Value::Boolean(true)).unwrap();
    ser.serialize_newtype_struct("Wrapper", &Value::Null).unwrap();
    let bytes = ser.into_inner();
    assert_eq!(
        body(&bytes),
        b"\xfa\x86Newtype\x24\x01\x94\xfb\x23\x21"
    );
}

#[test]
fn a_short_string_in_the_long_form_is_shared_too() {
    // "ab" between the lead byte of a long string and the end mark, then a reference to it
    let bytes = [
        0x3a, 0x29, 0x0a, 0x03, 0xf8, 0xe0, b'a', b'b', 0xfc, 0x01, 0x20, 0xf9,
    ];
    assert_eq!(
        from_slice(&bytes).unwrap(),
        Value::Array(vec![
            Value::String("ab".to_string()),
            Value::String("ab".to_string()),
            Value::String("".to_string()),
        ])
    );
    // the empty string is not shared
    let bytes = [0x3a, 0x29, 0x0a, 0x03, 0xf8, 0x20, 0x01, 0xf9];
    let e = from_slice(&bytes).unwrap_err();
    assert!(matches!(e.kind(), ErrorKind::InvalidStringReference));
    // a string beyond 64 bytes is not shared either
    let mut bytes = vec![0x3a, 0x29, 0x0a, 0x03, 0xf8, 0xe0];
    bytes.extend_from_slice(&[b'a'; 65]);
    bytes.extend_from_slice(&[0xfc, 0x01, 0xf9]);
    let e = from_slice(&bytes).unwrap_err();
    assert!(matches!(e.kind(), ErrorKind::InvalidStringReference));
}

#[test]
fn bytes_in_memory_as_a_stream() {
    use_source();
}

fn use_source() {
    let data = [1u8, 2, 3, 4];
    let mut s = &data[..];
    assert_eq!(serde_smile::de::Source::fill_buf(&mut s).unwrap(), [1, 2, 3, 4]);
    serde_smile::de::Source::consume(&mut s, 1);
    assert_eq!(serde_smile::de::Source::fill_buf(&mut s).unwrap(), [2, 3, 4]);
    {
        let mut by_ref = &mut s;
        assert_eq!(
            serde_smile::de::Source::fill_buf(&mut by_ref).unwrap(),
            [2, 3, 4]
        );
        serde_smile::de::Source::consume(&mut by_ref, 2);
    }
    assert_eq!(s, [4]);
    // more than there is: all there is
    serde_smile::de::Source::consume(&mut s, 7);
    assert!(serde_smile::de::Source::fill_buf(&mut s).unwrap().is_empty());

    // a stream that is asked for more than it holds has been read to its end
    let mut s = &data[..];
    let mut r = IoRead::new(&mut s);
    assert_eq!(r.read(3).unwrap().unwrap().deref(), [1, 2, 3]);
    assert!(r.read(2).unwrap().is_none());
    assert_eq!(r.next().unwrap(), None);
    assert!(s.is_empty());

    let mut s = &data[..];
    let mut r = IoRead::new(&mut s);
    assert!(r.read_until(9).unwrap().is_none());
    assert_eq!(r.peek().unwrap(), None);
    let mut s = &data[..];
    let mut r = IoRead::new(&mut s);
    assert_eq!(r.read_until(3).unwrap().unwrap().deref(), [1, 2]);
    assert_eq!(r.peek().unwrap(), Some(4));
    r.consume();
    assert_eq!(r.peek().unwrap(), None);
    assert!(s.is_empty());
}

#[test]
fn what_the_sources_hand_out() {
    let data = [1u8, 2, 0xfc, 3, 4, 5];

    let mut r = SliceRead::new(&data);
    assert!(matches!(r.read(2).unwrap().unwrap(), Buf::Long([1, 2])));
    assert!(matches!(r.read_until(0xfc).unwrap().unwrap(), Buf::Long([])));
    assert!(matches!(r.read_mut(1).unwrap().unwrap().deref(), [3]));
    assert!(matches!(r.read(1).unwrap().unwrap(), Buf::Long([4])));

    let mut copy = data;
    let mut r = MutSliceRead::new(&mut copy);
    assert!(matches!(r.read(2).unwrap().unwrap(), Buf::Long([1, 2])));
    assert!(matches!(r.read_until(0xfc).unwrap().unwrap(), Buf::Long([])));
    assert!(matches!(r.read(3).unwrap().unwrap(), Buf::Long([3, 4, 5])));

    let mut stream = &data[..];
    let mut r = IoRead::new(&mut stream);
    assert!(matches!(r.read(2).unwrap().unwrap(), Buf::Short([1, 2])));
    assert!(matches!(r.read_until(0xfc).unwrap().unwrap(), Buf::Short([])));
    assert!(matches!(r.read(3).unwrap().unwrap(), Buf::Short([3, 4, 5])));
}

#[test]
fn bytes_in_memory_keep_their_place_when_nothing_is_handed_out() {
    let data = [1u8, 2, 3];

    let mut r = SliceRead::new(&data);
    assert!(r.read(4).unwrap().is_none());
    assert!(r.read_mut(4).unwrap().is_none());
    assert!(r.read_until(9).unwrap().is_none());
    assert_eq!(r.read(3).unwrap().unwrap().deref(), [1, 2, 3]);

    let mut copy = data;
    let mut r = MutSliceRead::new(&mut copy);
    assert!(r.read(4).unwrap().is_none());
    assert!(r.read_mut(4).unwrap().is_none());
    assert!(r.read_until(9).unwrap().is_none());
    assert_eq!(r.read(3).unwrap().unwrap().deref(), [1, 2, 3]);
}

#[test]
fn where_the_input_stands_after_an_error() {
    // a value, then a byte that is no end mark: the byte has been read
    let bytes = [0x3a, 0x29, 0x0a, 0x01, 0xc0, 0x21, 0xc2];
    let mut de = Deserializer::from_slice(&bytes).unwrap();
    assert_eq!(Value::deserialize(&mut de).unwrap(), Value::Integer(0));
    assert!(matches!(de.end().unwrap_err().kind(), ErrorKind::TrailingData));
    assert_eq!(de.into_inner().next().unwrap(), Some(0xc2));

    // a reserved token inside two arrays: the token has been read, and the levels are given
    // back, so that as many containers as before can be entered
    let bytes = [0x3a, 0x29, 0x0a, 0x01, 0xf8, 0xf8, 0x00, 0xc4];
    let mut de = Deserializer::from_slice(&bytes).unwrap();
    assert!(matches!(
        Value::deserialize(&mut de).unwrap_err().kind(),
        ErrorKind::ReservedToken
    ));
    for _ in 0..127 {
        de.recursion_checked().unwrap();
    }
    assert!(matches!(
        de.recursion_checked().unwrap_err().kind(),
        ErrorKind::RecursionLimitExceeded
    ));
    assert_eq!(de.into_inner().next().unwrap(), Some(0xc4));

    // a string that ends before its length: bytes in memory keep their place
    let bytes = [0x3a, 0x29, 0x0a, 0x01, 0x44, b'a', b'b'];
    let mut de = Deserializer::from_slice(&bytes).unwrap();
    assert!(matches!(
        Value::deserialize(&mut de).unwrap_err().kind(),
        ErrorKind::EofWhileParsingValue
    ));
    assert_eq!(de.into_inner().next().unwrap(), Some(b'a'));

    // a stream has been read to its end
    let mut stream = &bytes[..];
    let mut de = Deserializer::from_reader(&mut stream).unwrap();
    assert!(matches!(
        Value::deserialize(&mut de).unwrap_err().kind(),
        ErrorKind::EofWhileParsingValue
    ));
    assert_eq!(de.into_inner().next().unwrap(), None);
    assert!(stream.is_empty());
}

#[test]
fn the_steps_of_a_stream_of_values() {
    let bytes = [0x3a, 0x29, 0x0a, 0x01, 0xc2, 0xff, 0xc4];
    let mut de = Deserializer::from_slice(&bytes).unwrap();
    let mut done = false;

    // a value stands next
    assert!(matches!(
        StreamDeserializer::step(&mut de, &mut done),
        Some(Ok(()))
    ));
    assert!(!done);
    assert_eq!(Value::deserialize(&mut de).unwrap(), Value::Integer(1));
    StreamDeserializer::<SliceRead>::value_read(&mut done, false);
    assert!(!done);

    // the end mark: read, and nothing behind it is
    assert!(StreamDeserializer::step(&mut de, &mut done).is_none());
    assert!(done);
    assert!(StreamDeserializer::step(&mut de, &mut done).is_none());
    assert_eq!(de.into_inner().next().unwrap(), Some(0xc4));

    // a value that failed ends the stream
    let mut done = false;
    StreamDeserializer::<SliceRead>::value_read(&mut done, true);
    assert!(done);

    // the end of the input ends it too
    let mut de = Deserializer::from_slice(&bytes[..4]).unwrap();
    let mut done = false;
    assert!(StreamDeserializer::step(&mut de, &mut done).is_none());
    assert!(done);
}

#[test]
fn what_the_deserializer_hands_out() {
    // a short string, a long string, raw binary data, a short key and a long key
    let bytes = [
        0x3a, 0x29, 0x0a, 0x05, 0x41, b'a', b'b', 0xe0, b'c', 0xfc, 0xfd, 0x82, 7, 8, 0x80, b'k',
        0x34, b'l', 0xfc,
    ];

    let mut de = Deserializer::from_slice(&bytes).unwrap();
    assert!(matches!(de.parse_value().unwrap(), Event::Str(Str::Long("ab"))));
    assert!(matches!(de.parse_value().unwrap(), Event::Str(Str::Long("c"))));
    assert!(matches!(de.parse_value().unwrap(), Event::Bytes(Buf::Long([7, 8]))));
    let mut keys = KeyDeserializer { de: &mut de };
    assert!(matches!(keys.parse_str().unwrap(), Str::Long("k")));
    assert!(matches!(keys.parse_str().unwrap(), Str::Long("l")));

    let mut stream = &bytes[..];
    let mut de = Deserializer::from_reader(&mut stream).unwrap();
    assert!(matches!(de.parse_value().unwrap(), Event::Str(Str::Short("ab"))));
    assert!(matches!(de.parse_value().unwrap(), Event::Str(Str::Short("c"))));
    assert!(matches!(de.parse_value().unwrap(), Event::Bytes(Buf::Short([7, 8]))));
    let mut keys = KeyDeserializer { de: &mut de };
    assert!(matches!(keys.parse_str().unwrap(), Str::Short("k")));
    assert!(matches!(keys.parse_str().unwrap(), Str::Short("l")));
}

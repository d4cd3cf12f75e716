use serde_smile::de::{Deserializer, Event};
use serde_smile::ser::Serializer;

enum Int {
    I32(i32),
    I64(i64),
    U64(u64),
    I128(i128),
    U128(u128),
}

fn read_back(bytes: &[u8]) -> Int {
    let mut de = Deserializer::from_slice(bytes).unwrap();
    let value = match de.parse_value().unwrap() {
        Event::I32(v) => Int::I32(v),
        Event::I64(v) => Int::I64(v),
        Event::U64(v) => Int::U64(v),
        Event::I128(v) => Int::I128(v),
        Event::U128(v) => Int::U128(v),
        _ => panic!("not an integer"),
    };
    de.end().unwrap();
    value
}

fn widen(v: Int) -> Option<i128> {
    match v {
        Int::I32(v) => Some(v as i128),
        Int::I64(v) => Some(v as i128),
        Int::U64(v) => Some(v as i128),
        Int::I128(v) => Some(v),
        Int::U128(v) => i128::try_from(v).ok(),
    }
}

fn run_u64(value: u64) {
    let mut ser = Serializer::new(vec![]);
    ser.serialize_u64(value).unwrap();
    let bytes = ser.into_inner();
    assert_eq!(widen(read_back(&bytes)), Some(value as i128));
}

fn run_u128(value: u128) {
    let mut ser = Serializer::new(vec![]);
    ser.serialize_u128(value).unwrap();
    let bytes = ser.into_inner();
    match read_back(&bytes) {
        Int::U128(v) => assert_eq!(v, value),
        other => assert_eq!(widen(other), i128::try_from(value).ok()),
    }
}

fn run_i128(value: i128) {
    let mut ser = Serializer::new(vec![]);
    ser.serialize_i128(value).unwrap();
    let bytes = ser.into_inner();
    assert_eq!(widen(read_back(&bytes)), Some(value));
}

#[test]
fn u64() {
    run_u64(u64::MAX)
}

#[test]
fn u128() {
    run_u128(0u128);
    run_u128(u128::MAX);
    run_u128(1u128 << 115);
}

#[test]
fn i128() {
    run_i128(0i128);
    run_i128(i128::MIN);
    run_i128(i128::MAX);
    run_i128(1i128 << 115);
    run_i128(-(1i128 << 115));
}

#[test]
fn u64_max_is_a_big_integer_of_nine_bytes() {
    let mut ser = Serializer::new(vec![]);
    ser.serialize_u64(u64::MAX).unwrap();
    let bytes = ser.into_inner();
    // header, token, length 9, then 9 bytes packed into 8 + 3
    assert_eq!(&bytes[..6], [0x3a, 0x29, 0x0a, 0x01, 0x26, 0x89]);
    assert_eq!(bytes.len(), 6 + 8 + 3);
    let mut de = Deserializer::from_slice(&bytes).unwrap();
    assert!(matches!(de.parse_value().unwrap(), Event::U64(u64::MAX)));
}

#[test]
fn integers_narrow_to_the_smallest_token() {
    let mut ser = Serializer::new(vec![]);
    ser.write_header().unwrap();
    let start = ser.get_ref().len();
    ser.serialize_i64(15).unwrap();
    ser.serialize_i64(-16).unwrap();
    ser.serialize_i64(16).unwrap();
    ser.serialize_u32(u32::MAX).unwrap();
    ser.serialize_i128(-1).unwrap();
    ser.serialize_u8(255).unwrap();
    ser.serialize_i8(-128).unwrap();
    ser.serialize_i16(-17).unwrap();
    ser.serialize_u16(16).unwrap();
    let bytes = ser.into_inner();
    assert_eq!(
        &bytes[start..],
        [
            0xde, // 15 -> 30
            0xdf, // -16 -> 31
            0x24, 0xa0, // 16 -> 32
            0x25, 0x3f, 0x7f, 0x7f, 0x7f, 0xbe, // u32::MAX as a long
            0xc1, // -1 -> 1
            0x24, 0x07, 0xbe, // 255 -> 510
            0x24, 0x03, 0xbf, // -128 -> 255
            0x24, 0xa1, // -17 -> 33
            0x24, 0xa0, // 16 -> 32
        ]
    );
}

#[test]
fn big_integers_of_machine_size_come_back_as_machine_integers() {
    // token 0x26, length, packed bytes
    let cases: [(&[u8], i128); 5] = [
        (&[0xff], -1),
        (&[0x7f, 0xff], 0x7fff),
        (&[0x80, 0, 0, 0, 0, 0, 0, 0], i64::MIN as i128),
        (&[0, 0xff, 0xff, 0xff, 0xff, 0xff, 0xff, 0xff, 0xff], u64::MAX as i128),
        (&[0xff, 0, 0, 0, 0, 0, 0, 0, 0, 0], -(1i128 << 72)),
    ];
    for (raw, expected) in cases {
        let mut ser = Serializer::new(vec![]);
        ser.serialize_big_integer(raw).unwrap();
        let bytes = ser.into_inner();
        assert_eq!(widen(read_back(&bytes)), Some(expected));
    }
}

#[test]
fn big_integers_beyond_machine_size_come_back_as_bytes() {
    let raw = [0x01u8; 17];
    let mut ser = Serializer::new(vec![]);
    ser.serialize_big_integer(&raw).unwrap();
    let bytes = ser.into_inner();
    let mut de = Deserializer::from_slice(&bytes).unwrap();
    match de.parse_value().unwrap() {
        Event::BigInteger(b) => assert_eq!(b.deref(), raw),
        _ => panic!("not a big integer"),
    };

    let mut ser = Serializer::new(vec![]);
    ser.serialize_big_integer(&[]).unwrap();
    let bytes = ser.into_inner();
    let mut de = Deserializer::from_slice(&bytes).unwrap();
    match de.parse_value().unwrap() {
        Event::BigInteger(b) => assert!(b.deref().is_empty()),
        _ => panic!("not a big integer"),
    };
}

use spop::error::ProtocolError;
use spop::types::{typed_data, typed_data_strict, TypedData};

/// Each case is a description, the wire bytes and the value they stand for.
fn test_cases() -> Vec<(&'static str, Vec<u8>, TypedData)> {
    vec![
        ("NULL", vec![0x00], TypedData::Null),
        ("Bool false", vec![0x01], TypedData::Bool(false)),
        ("Bool true", vec![0x11], TypedData::Bool(true)),
        ("Int32", vec![0x02, 0x7B], TypedData::Int32(123)),
        ("UInt32", vec![0x03, 0x7B], TypedData::UInt32(123)),
        ("Int64", vec![0x04, 0x2A], TypedData::Int64(42)),
        ("UInt64", vec![0x05, 0x2A], TypedData::UInt64(42)),
        (
            "IPv4",
            vec![0x06, 192, 168, 0, 1],
            TypedData::IPv4([192, 168, 0, 1]),
        ),
        (
            "IPv4",
            vec![0x06, 10, 0, 0, 42],
            TypedData::IPv4([10, 0, 0, 42]),
        ),
        (
            "IPv6",
            {
                let mut v = vec![0x07];
                v.extend_from_slice(&[0, 0, 0, 0, 0, 0, 0, 0, 0, 0, 0, 0, 0, 0, 0, 1]);
                v
            },
            TypedData::IPv6([0, 0, 0, 0, 0, 0, 0, 0, 0, 0, 0, 0, 0, 0, 0, 1]),
        ),
        (
            "IPv6",
            {
                let mut v = vec![0x07];
                v.extend_from_slice(&[
                    0x20, 0x01, 0x0d, 0xb8, 0x85, 0xa3, 0x00, 0x00, 0x00, 0x00, 0x8a, 0x2e,
                    0x03, 0x70, 0x73, 0x34,
                ]);
                v
            },
            TypedData::IPv6([
                0x20, 0x01, 0x0d, 0xb8, 0x85, 0xa3, 0x00, 0x00, 0x00, 0x00, 0x8a, 0x2e, 0x03,
                0x70, 0x73, 0x34,
            ]),
        ),
        (
            "String",
            vec![0x08, 0x05, b'h', b'e', b'l', b'l', b'o'],
            TypedData::String("hello".to_string()),
        ),
        (
            "Binary",
            vec![0x09, 0x03, 0xAA, 0xBB, 0xCC],
            TypedData::Binary(vec![0xAA, 0xBB, 0xCC]),
        ),
    ]
}

#[test]
fn test_loop_typed_data() {
    for (desc, input, expected) in test_cases() {
        let (rest, parsed) = typed_data(&input)
            .unwrap_or_else(|e| panic!("Test case '{}' failed: {:?}", desc, e));
        assert!(
            rest.is_empty(),
            "Test case '{}' did not consume all input: remaining {:?}",
            desc,
            rest
        );
        assert_eq!(parsed, expected, "Test case '{}' failed", desc);
    }
}

#[test]
fn test_to_bytes() {
    for (desc, input, expected) in test_cases() {
        let mut buf = Vec::new();
        expected.to_bytes(&mut buf);
        assert_eq!(buf, input, "Test case '{}' failed", desc);
    }
}

fn round_trip(value: TypedData) {
    let mut bytes = vec![0xEE];
    value.to_bytes(&mut bytes);
    bytes.push(0x77);
    let (rest, back) = typed_data(&bytes[1..]).unwrap();
    assert_eq!(back, value);
    assert_eq!(rest, &[0x77]);
    let (rest, back) = typed_data_strict(&bytes[1..]).unwrap();
    assert_eq!(back, value);
    assert_eq!(rest, &[0x77]);
}

#[test]
fn typed_data_round_trip() {
    round_trip(TypedData::Null);
    round_trip(TypedData::Bool(true));
    round_trip(TypedData::Bool(false));
    for x in [0i32, 1, -1, 239, 240, i32::MAX, i32::MIN, -123456] {
        round_trip(TypedData::Int32(x));
    }
    for x in [0u32, 239, 240, 2288, 16380, u32::MAX] {
        round_trip(TypedData::UInt32(x));
    }
    for x in [0i64, -1, i64::MAX, i64::MIN, 1 << 40, -(1 << 40)] {
        round_trip(TypedData::Int64(x));
    }
    for x in [0u64, 1 << 40, 1 << 63, u64::MAX] {
        round_trip(TypedData::UInt64(x));
    }
    round_trip(TypedData::IPv4([127, 0, 0, 1]));
    round_trip(TypedData::IPv6([0xfe; 16]));
    round_trip(TypedData::String(String::new()));
    round_trip(TypedData::String("grüße, 世界".to_string()));
    round_trip(TypedData::String("x".repeat(300)));
    round_trip(TypedData::Binary(vec![]));
    round_trip(TypedData::Binary((0..=255).collect()));
}

#[test]
fn signed_values_travel_as_twos_complement() {
    let mut buf = Vec::new();
    TypedData::Int32(-1).to_bytes(&mut buf);
    let mut expected = vec![0x02];
    expected.extend_from_slice(&spop::varint::encode_varint(u64::MAX));
    assert_eq!(buf, expected);

    let mut buf = Vec::new();
    TypedData::Int64(-2).to_bytes(&mut buf);
    let mut expected = vec![0x04];
    expected.extend_from_slice(&spop::varint::encode_varint(u64::MAX - 1));
    assert_eq!(buf, expected);
}

#[test]
fn wide_integers_are_cut_to_their_type() {
    let mut bytes = vec![0x03];
    bytes.extend_from_slice(&spop::varint::encode_varint(0x1_0000_0005));
    assert_eq!(
        typed_data(&bytes).unwrap().1,
        TypedData::UInt32(5)
    );
    let mut bytes = vec![0x02];
    bytes.extend_from_slice(&spop::varint::encode_varint(0xffff_fffe));
    assert_eq!(typed_data(&bytes).unwrap().1, TypedData::Int32(-2));
}

#[test]
fn bool_reads_only_the_lowest_flag() {
    assert_eq!(typed_data(&[0x31]).unwrap().1, TypedData::Bool(true));
    assert_eq!(typed_data(&[0x21]).unwrap().1, TypedData::Bool(false));
    assert_eq!(typed_data(&[0xf0]).unwrap().1, TypedData::Null);
}

#[test]
fn typed_data_errors() {
    assert_eq!(typed_data(&[]), Err(ProtocolError::Truncated));
    assert_eq!(typed_data(&[0x02]), Err(ProtocolError::Truncated));
    assert_eq!(typed_data(&[0x06, 1, 2, 3]), Err(ProtocolError::Truncated));
    assert_eq!(typed_data(&[0x07, 1, 2, 3]), Err(ProtocolError::Truncated));
    assert_eq!(typed_data(&[0x08, 0x05, b'h']), Err(ProtocolError::Truncated));
    assert_eq!(typed_data(&[0x09, 0xf0]), Err(ProtocolError::Truncated));
    for t in 10u8..=15 {
        assert_eq!(typed_data(&[t, 0]), Err(ProtocolError::UnknownValueType(t)));
        assert_eq!(
            typed_data(&[0x30 | t, 0]),
            Err(ProtocolError::UnknownValueType(t))
        );
    }
    assert_eq!(
        typed_data(&[0x05, 0xff, 0xff, 0xff, 0xff, 0xff, 0xff, 0xff, 0xff, 0xff, 0xff]),
        Err(ProtocolError::VarintOverflow)
    );
}

#[test]
fn malformed_text_is_repaired_unless_strict() {
    let bytes = [0x08, 0x03, b'a', 0xff, b'b'];
    let (rest, value) = typed_data(&bytes).unwrap();
    assert!(rest.is_empty());
    assert_eq!(value, TypedData::String("a\u{fffd}b".to_string()));
    assert_eq!(typed_data_strict(&bytes), Err(ProtocolError::InvalidUtf8));
    assert_eq!(TypedData::from_bytes(&bytes), Some(value));
}

#[test]
fn from_bytes_ignores_what_follows() {
    assert_eq!(
        TypedData::from_bytes(&[0x03, 0x7b, 0xff, 0xff]),
        Some(TypedData::UInt32(123))
    );
    assert_eq!(TypedData::from_bytes(&[0x0a]), None);
    assert_eq!(TypedData::from_bytes(&[]), None);
}

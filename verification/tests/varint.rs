use spop::error::ProtocolError;
use spop::varint::{decode_varint, encode_varint};

#[test]
fn varint_corner_value() {
    let (rest, value) = decode_varint(&[0xf0, 0x80, 0x00]).unwrap();
    assert_eq!(value, 2288);
    assert!(rest.is_empty());
}

#[test]
fn varint_round_trip_at_bucket_edges() {
    let mut samples: Vec<u64> = vec![
        0,
        239,
        240,
        2287,
        2288,
        264431,
        264432,
        33818863,
        33818864,
        4328786159,
        1u64 << 40,
        1u64 << 63,
        u64::MAX,
    ];
    let mut x: u64 = 0x9e3779b97f4a7c15;
    for shift in 0..64 {
        x ^= x << 13;
        x ^= x >> 7;
        x ^= x << 17;
        samples.push(x >> shift);
    }
    for x in samples {
        let bytes = encode_varint(x);
        let (rest, back) = decode_varint(&bytes).unwrap();
        assert_eq!(back, x);
        assert!(rest.is_empty());
    }
}

#[test]
fn varint_known_encodings() {
    assert_eq!(encode_varint(0), vec![0x00]);
    assert_eq!(encode_varint(239), vec![0xef]);
    assert_eq!(encode_varint(240), vec![0xf0, 0x00]);
    assert_eq!(encode_varint(2287), vec![0xff, 0x7f]);
    assert_eq!(encode_varint(2288), vec![0xf0, 0x80, 0x00]);
    assert_eq!(encode_varint(16380), vec![0xfc, 0xf0, 0x06]);
    assert_eq!(encode_varint(264431), vec![0xff, 0xff, 0x7f]);
    assert_eq!(encode_varint(264432), vec![0xf0, 0x80, 0x80, 0x00]);
}

#[test]
fn varint_length_by_bucket() {
    let edges: [(u64, usize); 10] = [
        (240, 1),
        (2288, 2),
        (264432, 3),
        (33818864, 4),
        (4328786160, 5),
        (554084600048, 6),
        (70922828777712, 7),
        (9078122083518704, 8),
        (1161999626690365680, 9),
        (u64::MAX, 10),
    ];
    for (edge, len) in edges {
        assert_eq!(encode_varint(edge - 1).len(), len);
        if edge != u64::MAX {
            assert_eq!(encode_varint(edge).len(), len + 1);
        }
    }
    assert_eq!(encode_varint(u64::MAX).len(), 10);
}

#[test]
fn varint_leaves_what_follows() {
    let (rest, value) = decode_varint(&[0x7b, 0x01, 0x02]).unwrap();
    assert_eq!(value, 123);
    assert_eq!(rest, &[0x01, 0x02]);
    let (rest, value) = decode_varint(&[0xfc, 0xf0, 0x06, 0xaa]).unwrap();
    assert_eq!(value, 16380);
    assert_eq!(rest, &[0xaa]);
}

#[test]
fn varint_truncation_needs_more() {
    assert_eq!(decode_varint(&[]), Err(ProtocolError::NeedMore));
    assert_eq!(decode_varint(&[0xf0]), Err(ProtocolError::NeedMore));
    assert_eq!(decode_varint(&[0xf0, 0x80]), Err(ProtocolError::NeedMore));
    let bytes = encode_varint(u64::MAX);
    for cut in 0..bytes.len() {
        assert_eq!(decode_varint(&bytes[..cut]), Err(ProtocolError::NeedMore));
    }
}

#[test]
fn varint_overflow() {
    // Ten bytes without a terminator.
    assert_eq!(
        decode_varint(&[0xf0, 0x80, 0x80, 0x80, 0x80, 0x80, 0x80, 0x80, 0x80, 0x80]),
        Err(ProtocolError::VarintOverflow)
    );
    assert_eq!(
        decode_varint(&[0xf0, 0x80, 0x80, 0x80, 0x80, 0x80, 0x80, 0x80, 0x80, 0x80, 0x00]),
        Err(ProtocolError::VarintOverflow)
    );
    // Ten bytes that end, with a value beyond 64 bits.
    assert_eq!(
        decode_varint(&[0xff, 0xff, 0xff, 0xff, 0xff, 0xff, 0xff, 0xff, 0xff, 0x7f]),
        Err(ProtocolError::VarintOverflow)
    );
    // The largest value is still read.
    let bytes = encode_varint(u64::MAX);
    assert_eq!(decode_varint(&bytes).unwrap().1, u64::MAX);
}

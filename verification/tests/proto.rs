use ro11y::proto::{
    encode_bytes_field, encode_fixed64_field, encode_fixed64_field_always, encode_message_field,
    encode_message_field_in_place, encode_string_field, encode_varint, encode_varint_field,
    encode_varint_field_always,
};

#[test]
fn varint_zero() {
    let mut buf = Vec::new();
    encode_varint(&mut buf, 0);
    assert_eq!(buf, vec![0x00]);
}

#[test]
fn varint_one() {
    let mut buf = Vec::new();
    encode_varint(&mut buf, 1);
    assert_eq!(buf, vec![0x01]);
}

#[test]
fn varint_127() {
    let mut buf = Vec::new();
    encode_varint(&mut buf, 127);
    assert_eq!(buf, vec![0x7F]);
}

#[test]
fn varint_128() {
    let mut buf = Vec::new();
    encode_varint(&mut buf, 128);
    assert_eq!(buf, vec![0x80, 0x01]);
}

#[test]
fn varint_300() {
    let mut buf = Vec::new();
    encode_varint(&mut buf, 300);
    assert_eq!(buf, vec![0xAC, 0x02]);
}

#[test]
fn string_field_encoding() {
    let mut buf = Vec::new();
    encode_string_field(&mut buf, 1, "hi");
    assert_eq!(buf, vec![0x0A, 0x02, b'h', b'i']);
}

#[test]
fn string_field_empty_is_skipped() {
    let mut buf = Vec::new();
    encode_string_field(&mut buf, 1, "");
    assert!(buf.is_empty());
}

#[test]
fn fixed64_encoding() {
    let mut buf = Vec::new();
    encode_fixed64_field(&mut buf, 1, 0x0102030405060708);
    assert_eq!(
        buf,
        vec![0x09, 0x08, 0x07, 0x06, 0x05, 0x04, 0x03, 0x02, 0x01]
    );
}

#[test]
fn fixed64_zero_is_skipped() {
    let mut buf = Vec::new();
    encode_fixed64_field(&mut buf, 1, 0);
    assert!(buf.is_empty());
}

#[test]
fn fixed64_always_encodes_zero() {
    let mut buf = Vec::new();
    encode_fixed64_field_always(&mut buf, 1, 0);
    assert_eq!(buf, vec![0x09, 0, 0, 0, 0, 0, 0, 0, 0]);
}

#[test]
fn varint_always_encodes_zero() {
    let mut buf = Vec::new();
    encode_varint_field_always(&mut buf, 2, 0);
    // tag = (2<<3)|0 = 0x10, value = 0x00
    assert_eq!(buf, vec![0x10, 0x00]);
}

#[test]
fn nested_message_encoding() {
    let mut inner = Vec::new();
    encode_string_field(&mut inner, 1, "ab");

    let mut buf = Vec::new();
    encode_message_field(&mut buf, 2, &inner);

    assert_eq!(buf, vec![0x12, 0x04, 0x0A, 0x02, b'a', b'b']);
}

#[test]
fn varint_field_encoding() {
    let mut buf = Vec::new();
    encode_varint_field(&mut buf, 3, 150);
    assert_eq!(buf, vec![0x18, 0x96, 0x01]);
}

#[test]
fn varint_field_zero_is_skipped() {
    let mut buf = Vec::new();
    encode_varint_field(&mut buf, 3, 0);
    assert!(buf.is_empty());
}

#[test]
fn bytes_field_encoding() {
    let mut buf = Vec::new();
    encode_bytes_field(&mut buf, 1, &[0xDE, 0xAD]);
    assert_eq!(buf, vec![0x0A, 0x02, 0xDE, 0xAD]);
}

fn decode_varint(buf: &[u8]) -> (u64, usize) {
    let mut val: u64 = 0;
    let mut shift = 0;
    for (i, &b) in buf.iter().enumerate() {
        val |= ((b & 0x7F) as u64) << shift;
        if b & 0x80 == 0 {
            return (val, i + 1);
        }
        shift += 7;
    }
    panic!("unterminated varint");
}

#[test]
fn varint_round_trip_at_every_length() {
    for bits in 0..64u32 {
        for val in [1u64 << bits, (1u64 << bits) - 1, u64::MAX >> bits] {
            let mut buf = Vec::new();
            encode_varint(&mut buf, val);
            assert_eq!(decode_varint(&buf), (val, buf.len()));
            assert!(buf.len() <= 10);
            assert_eq!(buf.len() == 1, val < 0x80);
            for (i, b) in buf.iter().enumerate() {
                assert_eq!(*b >= 0x80, i + 1 < buf.len());
            }
        }
    }
}

#[test]
fn varint_field_has_valid_tag_and_value() {
    for val in [1, 127, 128, 300, 1 << 32, u64::MAX] {
        for field_num in [1u32, 15, 16, 2047, 2048, u32::MAX] {
            let mut buf = Vec::new();
            encode_varint_field(&mut buf, field_num, val);
            let (tag, tag_len) = decode_varint(&buf);
            assert_eq!(tag & 0x07, 0);
            assert_eq!(tag >> 3, field_num as u64);
            let (decoded, val_len) = decode_varint(&buf[tag_len..]);
            assert_eq!(decoded, val);
            assert_eq!(tag_len + val_len, buf.len());
        }
    }
}

#[test]
fn string_field_roundtrip() {
    for s in ["a", "\u{e9}\u{4e2d}\u{1f600}", &"x".repeat(200)] {
        let mut buf = Vec::new();
        encode_string_field(&mut buf, 1, s);
        let (tag, tag_len) = decode_varint(&buf);
        assert_eq!(tag & 0x07, 2);
        let (length, len_len) = decode_varint(&buf[tag_len..]);
        assert_eq!(length as usize, s.len());
        assert_eq!(&buf[tag_len + len_len..], s.as_bytes());
    }
}

#[test]
fn message_field_in_place_matches_allocating() {
    for len in [0usize, 1, 127, 128, 499] {
        let body: Vec<u8> = (0..len).map(|i| i as u8).collect();
        let mut expected = vec![0xEE];
        encode_message_field(&mut expected, 7, &body);
        let mut actual = vec![0xEE];
        encode_message_field_in_place(&mut actual, 7, |buf: &mut Vec<u8>| {
            buf.extend_from_slice(&body);
        });
        assert_eq!(actual, expected);
    }
}

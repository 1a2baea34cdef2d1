use ro11y::trace_id::{hex_encode, hex_nibble, hex_to_bytes_16};

#[test]
fn hex_to_bytes_16_valid() {
    let result = hex_to_bytes_16("0102030405060708090a0b0c0d0e0f10");
    assert_eq!(
        result,
        Ok([1, 2, 3, 4, 5, 6, 7, 8, 9, 10, 11, 12, 13, 14, 15, 16])
    );
}

#[test]
fn hex_to_bytes_16_wrong_length() {
    assert!(hex_to_bytes_16("0102").is_err());
}

#[test]
fn hex_to_bytes_16_invalid_chars() {
    assert!(hex_to_bytes_16("zz02030405060708090a0b0c0d0e0f10").is_err());
}

#[test]
fn hex_to_bytes_16_takes_both_cases() {
    assert_eq!(hex_to_bytes_16("aAbBcCdDeEfF00112233445566778899"), Ok([
        0xaa, 0xbb, 0xcc, 0xdd, 0xee, 0xff, 0x00, 0x11, 0x22, 0x33, 0x44, 0x55, 0x66, 0x77, 0x88,
        0x99
    ]));
}

#[test]
fn hex_to_bytes_16_counts_bytes_not_characters() {
    // Thirty-one characters, thirty-two bytes.
    assert!(hex_to_bytes_16("\u{e9}000000000000000000000000000000").is_err());
    assert!(hex_to_bytes_16("").is_err());
    assert!(hex_to_bytes_16("000000000000000000000000000000000").is_err());
}

#[test]
fn hex_encode_is_lower_case() {
    assert_eq!(hex_encode(&[0x00, 0x0f, 0xf0, 0xab, 0xff]), "000ff0abff");
    assert_eq!(hex_encode(&[]), "");
}

#[test]
fn hex_round_trip_on_every_byte() {
    for b in 0..=255u8 {
        let id = [b; 16];
        assert_eq!(hex_to_bytes_16(&hex_encode(&id)), Ok(id));
    }
}

#[test]
fn hex_nibble_on_every_byte() {
    for b in 0..=255u8 {
        let expected = (b as char).to_digit(16).map(|d| d as u8);
        assert_eq!(hex_nibble(b), expected);
    }
}

use greetings::codec::{decode, encode, is_well_formed_text, ByteString};
use greetings::error::BoundaryError;
use greetings::registry::Registry;

#[test]
fn encode_then_decode_round_trips_ascii() {
    let mut reg = Registry::new();
    let text = b"Hello, world".to_vec();
    let h = encode(&mut reg, &text);
    assert_eq!(decode(&reg, h).unwrap(), text);
}

#[test]
fn encode_then_decode_round_trips_multibyte() {
    let mut reg = Registry::new();
    // "héllo €" in UTF-8: two-byte and three-byte scalars among ASCII.
    let text = vec![
        0x68, 0xc3, 0xa9, 0x6c, 0x6c, 0x6f, 0x20, 0xe2, 0x82, 0xac,
    ];
    let h = encode(&mut reg, &text);
    assert_eq!(decode(&reg, h).unwrap(), text);
}

#[test]
fn encode_then_decode_round_trips_empty() {
    let mut reg = Registry::new();
    let text = Vec::new();
    let h = encode(&mut reg, &text);
    assert_eq!(decode(&reg, h).unwrap(), text);
}

#[test]
fn decode_of_null_pointer_fails() {
    let reg = Registry::new();
    assert_eq!(decode(&reg, 0), Err(BoundaryError::NullPointer));
}

#[test]
fn decode_of_invalid_encoding_fails() {
    let mut reg = Registry::new();
    let raw = ByteString::from_bytes(vec![0xff, 0xfe]).unwrap();
    let h = reg.allocate(raw);
    assert_eq!(decode(&reg, h), Err(BoundaryError::InvalidEncoding));
}

#[test]
fn decode_of_released_allocation_fails() {
    let mut reg = Registry::new();
    let h = encode(&mut reg, &b"gone".to_vec());
    reg.release(h).unwrap();
    assert_eq!(decode(&reg, h), Err(BoundaryError::UseAfterRelease));
}

#[test]
fn decode_of_unknown_handle_fails() {
    let reg = Registry::new();
    assert_eq!(decode(&reg, 7), Err(BoundaryError::UseAfterRelease));
}

#[test]
fn byte_string_rejects_interior_zero() {
    assert!(ByteString::from_bytes(vec![104, 0, 105]).is_none());
}

#[test]
fn byte_string_keeps_content() {
    let b = ByteString::from_bytes(vec![104, 105]).unwrap();
    assert_eq!(b.content_bytes(), vec![104, 105]);
}

#[test]
fn well_formed_text_accepts_plain_ascii() {
    assert!(is_well_formed_text(&b"plain".to_vec()));
}

#[test]
fn well_formed_text_rejects_zero_byte() {
    assert!(!is_well_formed_text(&vec![104, 0, 105]));
}

#[test]
fn validator_rejects_overlong_two_byte_form() {
    // 0xc0 0x80 is an overlong encoding of the one-byte scalar 0.
    assert!(!is_well_formed_text(&vec![0xc0, 0x80]));
}

#[test]
fn validator_rejects_overlong_three_byte_form() {
    // 0xe0 0x80 0x80 is an overlong encoding.
    assert!(!is_well_formed_text(&vec![0xe0, 0x80, 0x80]));
}

#[test]
fn validator_rejects_surrogate() {
    // 0xed 0xa0 0x80 encodes the surrogate 0xd800.
    assert!(!is_well_formed_text(&vec![0xed, 0xa0, 0x80]));
}

#[test]
fn validator_rejects_truncated_sequence() {
    // A three-byte leading byte with only one continuation byte.
    assert!(!is_well_formed_text(&vec![0xe2, 0x82]));
}

#[test]
fn validator_rejects_bare_continuation_byte() {
    assert!(!is_well_formed_text(&vec![0x80]));
}

#[test]
fn validator_rejects_scalar_above_maximum() {
    // 0xf4 0x90 0x80 0x80 would encode 0x110000, past the last scalar.
    assert!(!is_well_formed_text(&vec![0xf4, 0x90, 0x80, 0x80]));
}

#[test]
fn validator_accepts_four_byte_scalar() {
    // 0xf0 0x9f 0x98 0x80 encodes a four-byte scalar.
    assert!(is_well_formed_text(&vec![0xf0, 0x9f, 0x98, 0x80]));
}

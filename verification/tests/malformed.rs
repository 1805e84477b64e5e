use cesu8::{decode, Error};

#[test]
fn lone_continuation_byte_is_rejected() {
    assert!(decode(&[0x80]).is_err());
}

#[test]
fn overlong_two_byte_lead_is_rejected() {
    // 0xC0 0x80 is the "modified UTF-8" encoding of NUL; this codec refuses
    // overlong forms.
    assert!(decode(&[0xC0, 0x80]).is_err());
    assert!(decode(&[0xC1, 0xBF]).is_err());
}

#[test]
fn truncated_two_byte_sequence_is_rejected() {
    assert!(decode(&[0xC2]).is_err());
}

#[test]
fn two_byte_lead_without_continuation_is_rejected() {
    assert!(decode(&[0xC2, 0x41]).is_err());
}

#[test]
fn overlong_three_byte_sequence_is_rejected() {
    assert!(decode(&[0xE0, 0x80, 0x80]).is_err());
}

#[test]
fn truncated_three_byte_sequence_is_rejected() {
    assert!(decode(&[0xE4, 0xB8]).is_err());
}

#[test]
fn lone_low_surrogate_is_rejected() {
    assert!(decode(&[0xED, 0xB0, 0x80]).is_err());
}

#[test]
fn high_surrogate_followed_by_high_surrogate_is_rejected() {
    assert!(decode(&[0xED, 0xA0, 0x81, 0xED, 0xA0, 0x81]).is_err());
}

#[test]
fn high_surrogate_followed_by_ordinary_text_is_rejected() {
    assert!(decode(&[0xED, 0xA0, 0x81, 0x41, 0x42, 0x43]).is_err());
}

#[test]
fn truncated_surrogate_pair_is_rejected() {
    assert!(decode(&[0xED, 0xA0, 0x81, 0xED, 0xB0]).is_err());
}

#[test]
fn invalid_lead_byte_is_rejected() {
    assert!(decode(&[0xF5, 0x80, 0x80, 0x80]).is_err());
    assert!(decode(&[0xFF]).is_err());
}

#[test]
fn four_byte_lead_with_bad_continuation_is_rejected() {
    // Not valid UTF-8 (broken continuation), and CESU-8 refuses four-byte
    // leads outright.
    assert!(decode(&[0xF0, 0x28, 0x8C, 0x28]).is_err());
}

#[test]
fn error_messages_describe_the_failure() {
    let err: Error = decode(&[0xED, 0xA0, 0x81]).unwrap_err();
    assert_eq!(err.message(), "invalid CESU-8 data");
    assert_eq!(
        cesu8::error::DecodingError.message(),
        "could not convert CESU-8 data to UTF-8 data"
    );
}

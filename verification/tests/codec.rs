use cesu8::{decode, encode, is_valid, len, Decoded, Encoded};

#[test]
fn hello_world_is_unchanged_both_ways() {
    let text = "Hello, world!";
    let encoded = encode(text);
    assert!(encoded.is_borrowed());
    assert_eq!(encoded.as_bytes(), text.as_bytes());

    let decoded = decode(text.as_bytes()).unwrap();
    assert!(decoded.is_borrowed());
    assert_eq!(decoded.as_str(), text);
}

#[test]
fn ascii_bytes_decode_to_themselves() {
    let bytes: &[u8] = b"plain ASCII only: 0123456789 ~!";
    let decoded = decode(bytes).unwrap();
    assert!(decoded.is_borrowed());
    assert_eq!(decoded.as_str().as_bytes(), bytes);
}

#[test]
fn empty_input_decodes_to_empty_text() {
    let bytes: &[u8] = &[];
    let decoded = decode(bytes).unwrap();
    assert_eq!(decoded.as_str(), "");
}

#[test]
fn u10437_encodes_to_surrogate_pair_bytes() {
    let encoded = encode("\u{10437}");
    assert!(!encoded.is_borrowed());
    assert_eq!(encoded.as_bytes(), &[0xED, 0xA0, 0x81, 0xED, 0xB0, 0xB7]);
}

#[test]
fn surrogate_pair_bytes_decode_to_u10437() {
    let decoded = decode(&[0xED, 0xA0, 0x81, 0xED, 0xB0, 0xB7]).unwrap();
    assert!(!decoded.is_borrowed());
    assert_eq!(decoded.as_str(), "\u{10437}");
}

#[test]
fn surrogate_pair_bytes_decode_to_u10400() {
    let decoded = decode(&[0xED, 0xA0, 0x81, 0xED, 0xB0, 0x80]).unwrap();
    assert_eq!(decoded.as_str(), "\u{10400}");
}

#[test]
fn u10401_encodes_to_surrogate_pair_bytes() {
    let encoded = encode("\u{10401}");
    assert_eq!(encoded.as_bytes(), &[0xED, 0xA0, 0x81, 0xED, 0xB0, 0x81]);
}

#[test]
fn unpaired_high_surrogate_is_rejected() {
    assert!(decode(&[0xED, 0xA0, 0x81]).is_err());
}

#[test]
fn round_trip_of_mixed_text() {
    let text = "a\u{E9}\u{4E2D}\u{10437}z";
    let encoded = encode(text);
    let decoded = decode(encoded.as_bytes()).unwrap();
    assert_eq!(decoded.as_str(), text);
}

#[test]
fn round_trip_of_bmp_text() {
    let text = "caf\u{E9} \u{FFFD} \u{3042}";
    let encoded = encode(text);
    assert!(encoded.is_borrowed());
    let decoded = decode(encoded.as_bytes()).unwrap();
    assert_eq!(decoded.as_str(), text);
}

#[test]
fn bmp_top_uses_three_bytes_in_both_encodings() {
    let text = "\u{FFFF}";
    assert!(is_valid(text));
    assert_eq!(len(text), 3);
    let encoded = encode(text);
    assert!(encoded.is_borrowed());
    assert_eq!(encoded.as_bytes(), &[0xEF, 0xBF, 0xBF]);
    let decoded = decode(&[0xEF, 0xBF, 0xBF]).unwrap();
    assert_eq!(decoded.as_str(), text);
}

#[test]
fn first_supplementary_needs_six_bytes_in_cesu8() {
    let text = "\u{10000}";
    assert!(!is_valid(text));
    assert_eq!(len(text), 6);
    let encoded = encode(text);
    assert!(!encoded.is_borrowed());
    assert_eq!(encoded.as_bytes(), &[0xED, 0xA0, 0x80, 0xED, 0xB0, 0x80]);
    let decoded = decode(&[0xED, 0xA0, 0x80, 0xED, 0xB0, 0x80]).unwrap();
    assert!(!decoded.is_borrowed());
    assert_eq!(decoded.as_str(), text);
}

#[test]
fn four_byte_utf8_input_decodes_borrowed() {
    // The four-byte UTF-8 form of U+10000 is valid UTF-8, so decoding takes
    // the zero-copy path even though the bytes are not valid CESU-8.
    let decoded = decode(&[0xF0, 0x90, 0x80, 0x80]).unwrap();
    assert!(decoded.is_borrowed());
    assert_eq!(decoded.as_str(), "\u{10000}");
}

#[test]
fn is_valid_detects_supplementary_characters() {
    assert!(is_valid("Hello, world!"));
    assert!(is_valid("\u{FFFF}"));
    assert!(!is_valid("\u{10000}"));
    assert!(!is_valid("ab\u{10FFFF}cd"));
}

#[test]
fn zero_copy_exactly_when_valid() {
    for text in ["", "ascii", "caf\u{E9}", "\u{FFFF}", "\u{10000}", "x\u{10437}y"] {
        let encoded = encode(text);
        assert_eq!(encoded.is_borrowed(), is_valid(text));
        if is_valid(text) {
            assert_eq!(encoded.as_bytes(), text.as_bytes());
        }
    }
}

#[test]
fn len_matches_encoded_length() {
    for text in ["", "ascii", "caf\u{E9}", "\u{FFFF}", "\u{10000}", "a\u{E9}\u{4E2D}\u{10437}z"] {
        let encoded = encode(text);
        assert_eq!(len(text), encoded.as_bytes().len());
    }
}

#[test]
fn len_counts_mixed_widths() {
    // 1 (ASCII) + 2 (U+00E9) + 3 (U+4E2D) + 6 (U+10437) bytes.
    assert_eq!(len("a\u{E9}\u{4E2D}\u{10437}"), 12);
}

#[test]
fn ordinary_three_byte_ed_lead_is_plain_utf8() {
    // U+D7FF, just below the surrogate range, also has lead byte 0xED.
    let decoded = decode(&[0xED, 0x9F, 0xBF]).unwrap();
    assert!(decoded.is_borrowed());
    assert_eq!(decoded.as_str(), "\u{D7FF}");
}

#[test]
fn surrogate_pair_embedded_in_ascii_decodes_owned() {
    let bytes = [0x41, 0xED, 0xA0, 0x81, 0xED, 0xB0, 0xB7, 0x42];
    let decoded = decode(&bytes).unwrap();
    assert!(!decoded.is_borrowed());
    assert_eq!(decoded.as_str(), "A\u{10437}B");
}

#[test]
fn decoded_as_str_matches_owned_form() {
    let text = "\u{10400}";
    match decode(&[0xED, 0xA0, 0x81, 0xED, 0xB0, 0x80]).unwrap() {
        Decoded::Owned(s) => assert_eq!(s, text),
        Decoded::Borrowed(_) => panic!("expected an owned result"),
    }
}

#[test]
fn encoded_owned_form_holds_rewritten_bytes() {
    match encode("\u{10437}") {
        Encoded::Owned(v) => assert_eq!(v, vec![0xED, 0xA0, 0x81, 0xED, 0xB0, 0xB7]),
        Encoded::Borrowed(_) => panic!("expected an owned result"),
    }
}

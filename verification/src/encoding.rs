//! Specification of the CESU-8 encoding.
//!
//! CESU-8 encodes every character of the Basic Multilingual Plane exactly as
//! UTF-8 does.  A supplementary character (scalar value at or above `0x10000`)
//! is instead split into a UTF-16 surrogate pair, and each of the two
//! surrogate code units is rendered with the ordinary three-byte UTF-8 bit
//! layout, giving six bytes in place of UTF-8's four.
//!
//! These definitions build on `vstd::utf8`, which supplies the UTF-8 side:
//! byte classification, `encode_scalar`, `valid_utf8`, and friends.

use vstd::prelude::*;
use vstd::utf8::{
    codepoint_width_3, decode_first_scalar, encode_scalar, is_leading_byte_width_3, is_scalar,
    last_continuation_byte, leading_byte_width_3, length_of_first_scalar,
    second_last_continuation_byte, valid_first_scalar,
};

verus! {

/// True when the character lies in the Basic Multilingual Plane, i.e. its
/// scalar value is below `0x10000` and CESU-8 encodes it exactly as UTF-8.
pub open spec fn is_bmp(c: char) -> bool {
    (c as u32) < 0x10000
}

/// True when every character of the text lies in the Basic Multilingual Plane,
/// i.e. no character needs a surrogate pair in CESU-8.  A text's UTF-8 bytes
/// are themselves legal CESU-8 exactly when this holds.
pub open spec fn all_bmp(chars: Seq<char>) -> bool {
    forall|i: int| 0 <= i < chars.len() ==> is_bmp(#[trigger] chars[i])
}

/// The high (leading) UTF-16 surrogate of a supplementary scalar value.
pub open spec fn high_surrogate(scalar: u32) -> u32
    recommends
        0x10000 <= scalar <= 0x10FFFF,
{
    (0xD800 + (scalar - 0x10000) / 0x400) as u32
}

/// The low (trailing) UTF-16 surrogate of a supplementary scalar value.
pub open spec fn low_surrogate(scalar: u32) -> u32
    recommends
        0x10000 <= scalar <= 0x10FFFF,
{
    (0xDC00 + (scalar - 0x10000) % 0x400) as u32
}

/// The supplementary scalar value represented jointly by a surrogate pair.
pub open spec fn combine_surrogates(high: u32, low: u32) -> u32
    recommends
        0xD800 <= high <= 0xDBFF,
        0xDC00 <= low <= 0xDFFF,
{
    (0x10000 + (high - 0xD800) * 0x400 + (low - 0xDC00)) as u32
}

/// A UTF-16 code unit rendered with the standard three-byte UTF-8 bit layout
/// (lead `1110xxxx`, two continuations `10xxxxxx`).  CESU-8 applies this to
/// surrogate values, which strict UTF-8 refuses.
pub open spec fn surrogate_bytes(unit: u32) -> Seq<u8>
    recommends
        0xD800 <= unit <= 0xDFFF,
{
    seq![
        leading_byte_width_3(unit),
        second_last_continuation_byte(unit),
        last_continuation_byte(unit),
    ]
}

/// The CESU-8 encoding of a single Unicode scalar value: identical to UTF-8
/// up to `0xFFFF`, a six-byte surrogate pair beyond it.
pub open spec fn encode_scalar_cesu8(scalar: u32) -> Seq<u8>
    recommends
        is_scalar(scalar),
{
    if scalar < 0x10000 {
        encode_scalar(scalar)
    } else {
        surrogate_bytes(high_surrogate(scalar)) + surrogate_bytes(low_surrogate(scalar))
    }
}

/// The CESU-8 encoding of a character sequence.
pub open spec fn encode_cesu8(chars: Seq<char>) -> Seq<u8>
    decreases chars.len(),
{
    if chars.len() == 0 {
        seq![]
    } else {
        encode_scalar_cesu8(chars[0] as u32) + encode_cesu8(chars.drop_first())
    }
}

/// True when the byte sequence begins with a six-byte CESU-8 surrogate pair:
/// two three-byte units whose code unit values are a high surrogate followed
/// by a low surrogate.
pub open spec fn valid_first_surrogate_pair(bytes: Seq<u8>) -> bool {
    &&& bytes.len() >= 6
    &&& is_leading_byte_width_3(bytes[0])
    &&& vstd::utf8::is_continuation_byte(bytes[1])
    &&& vstd::utf8::is_continuation_byte(bytes[2])
    &&& 0xD800 <= codepoint_width_3(bytes[0], bytes[1], bytes[2]) <= 0xDBFF
    &&& is_leading_byte_width_3(bytes[3])
    &&& vstd::utf8::is_continuation_byte(bytes[4])
    &&& vstd::utf8::is_continuation_byte(bytes[5])
    &&& 0xDC00 <= codepoint_width_3(bytes[3], bytes[4], bytes[5]) <= 0xDFFF
}

/// True when the byte sequence begins with one well-formed CESU-8 unit:
/// either a strict UTF-8 scalar encoding of at most three bytes, or a
/// surrogate pair.  The two cases are mutually exclusive, since a strict
/// scalar encoding is never a surrogate.
pub open spec fn valid_first_cesu8_scalar(bytes: Seq<u8>) -> bool {
    ||| (valid_first_scalar(bytes) && length_of_first_scalar(bytes) <= 3)
    ||| valid_first_surrogate_pair(bytes)
}

/// Byte length of the first CESU-8 unit of the sequence.
pub open spec fn length_of_first_cesu8_scalar(bytes: Seq<u8>) -> int
    recommends
        valid_first_cesu8_scalar(bytes),
{
    if valid_first_surrogate_pair(bytes) {
        6
    } else {
        length_of_first_scalar(bytes)
    }
}

/// The scalar value of the first CESU-8 unit of the sequence.
pub open spec fn first_cesu8_scalar(bytes: Seq<u8>) -> u32
    recommends
        valid_first_cesu8_scalar(bytes),
{
    if valid_first_surrogate_pair(bytes) {
        combine_surrogates(
            codepoint_width_3(bytes[0], bytes[1], bytes[2]),
            codepoint_width_3(bytes[3], bytes[4], bytes[5]),
        )
    } else {
        decode_first_scalar(bytes)
    }
}

/// True when the whole byte sequence is well-formed CESU-8: a sequence of
/// well-formed CESU-8 units.  The empty sequence is well-formed.
pub open spec fn valid_cesu8(bytes: Seq<u8>) -> bool
    decreases bytes.len(),
{
    bytes.len() != 0 ==> {
        &&& valid_first_cesu8_scalar(bytes)
        &&& valid_cesu8(bytes.skip(length_of_first_cesu8_scalar(bytes)))
    }
}

/// The characters encoded by a well-formed CESU-8 byte sequence.
pub open spec fn decode_cesu8_chars(bytes: Seq<u8>) -> Seq<char>
    recommends
        valid_cesu8(bytes),
    decreases bytes.len(),
    when valid_cesu8(bytes)
{
    if bytes.len() == 0 {
        seq![]
    } else {
        seq![first_cesu8_scalar(bytes) as char] + decode_cesu8_chars(
            bytes.skip(length_of_first_cesu8_scalar(bytes)),
        )
    }
}

} // verus!

//! Conversion between UTF-8 and CESU-8.
//!
//! CESU-8 is a legacy-compatible byte encoding of Unicode that agrees with
//! UTF-8 on the Basic Multilingual Plane but renders each supplementary
//! character (scalar value at or above `0x10000`) as a UTF-16 surrogate pair,
//! each surrogate taking the standard three-byte UTF-8 bit layout: six bytes
//! where UTF-8 uses four.
//!
//! The crate offers four operations: [`decode`] turns CESU-8 (or plain UTF-8)
//! bytes into text, [`encode`] turns text into CESU-8 bytes, [`is_valid`]
//! tells whether a text's UTF-8 bytes are already legal CESU-8, and [`len`]
//! gives the exact byte length [`encode`] would produce.  When no rewriting
//! is needed, [`decode`] and [`encode`] return the input borrowed, and the
//! [`Decoded`] and [`Encoded`] results expose that no copy occurred.

use vstd::prelude::*;

pub mod encoding;
pub mod error;
pub mod lemmas;

pub use crate::error::DecodingError;

use crate::encoding::{all_bmp, decode_cesu8_chars, valid_cesu8};
use vstd::utf8::{decode_utf8, encode_utf8, valid_utf8};

verus! {

broadcast use vstd::utf8::utf8_byte_ranges_bitwise;

/// The result of [`decode`]: the decoded text, either borrowed from the input
/// (the input was already valid UTF-8 and no rewriting was needed) or owned
/// (surrogate pairs were rewritten into four-byte sequences).
#[derive(Debug)]
pub enum Decoded<'a> {
    /// The input bytes themselves, reinterpreted as text without copying.
    Borrowed(&'a str),
    /// Freshly built text; the input contained CESU-8 surrogate pairs.
    Owned(String),
}

impl<'a> View for Decoded<'a> {
    type V = Seq<char>;

    open spec fn view(&self) -> Seq<char> {
        match self {
            Decoded::Borrowed(text) => text@,
            Decoded::Owned(text) => text@,
        }
    }
}

impl<'a> Decoded<'a> {
    /// The decoded text.
    pub fn as_str(&self) -> (r: &str)
        ensures
            r@ == self@,
    {
        match self {
            Decoded::Borrowed(text) => text,
            Decoded::Owned(text) => text.as_str(),
        }
    }

    /// True when the result borrows the input bytes, i.e. no copy was made.
    pub fn is_borrowed(&self) -> (r: bool)
        ensures
            r == (self is Borrowed),
    {
        match self {
            Decoded::Borrowed(_) => true,
            Decoded::Owned(_) => false,
        }
    }
}

/// The result of [`encode`]: the CESU-8 bytes, either borrowed from the input
/// text (its UTF-8 form was already valid CESU-8) or owned (supplementary
/// characters were rewritten into surrogate pairs).
#[derive(Debug)]
pub enum Encoded<'a> {
    /// The text's own UTF-8 bytes, without copying.
    Borrowed(&'a [u8]),
    /// Freshly built bytes; the text contained supplementary characters.
    Owned(Vec<u8>),
}

impl<'a> View for Encoded<'a> {
    type V = Seq<u8>;

    open spec fn view(&self) -> Seq<u8> {
        match self {
            Encoded::Borrowed(bytes) => bytes@,
            Encoded::Owned(bytes) => bytes@,
        }
    }
}

impl<'a> Encoded<'a> {
    /// The encoded bytes.
    pub fn as_bytes(&self) -> (r: &[u8])
        ensures
            r@ == self@,
    {
        match self {
            Encoded::Borrowed(bytes) => bytes,
            Encoded::Owned(bytes) => bytes.as_slice(),
        }
    }

    /// True when the result borrows the text's own bytes, i.e. no copy was
    /// made.
    pub fn is_borrowed(&self) -> (r: bool)
        ensures
            r == (self is Borrowed),
    {
        match self {
            Encoded::Borrowed(_) => true,
            Encoded::Owned(_) => false,
        }
    }
}

/// Relies on `core::str::from_utf8`: it succeeds exactly on valid UTF-8 and
/// returns the input bytes viewed as text, without copying.
#[verifier::external_body]
fn bytes_as_utf8_str<'a>(bytes: &'a [u8]) -> (r: Option<&'a str>)
    ensures
        r is Some <==> valid_utf8(bytes@),
        r matches Some(text) ==> encode_utf8(text@) == bytes@,
{
    core::str::from_utf8(bytes).ok()
}

/// Relies on `String::from_utf8`: bytes that are valid UTF-8 convert to the
/// text they encode.  The caller must have established validity, so the
/// conversion cannot fail.
#[verifier::external_body]
fn string_from_valid_utf8(bytes: Vec<u8>) -> (r: String)
    requires
        valid_utf8(bytes@),
    ensures
        encode_utf8(r@) == bytes@,
{
    String::from_utf8(bytes).unwrap()
}

/// Returns `true` when the text's UTF-8 byte form is already legal CESU-8,
/// which holds exactly when the text has no supplementary character (none
/// above U+FFFF).  [`encode`] returns such a text's own bytes unchanged.
pub fn is_valid(text: &str) -> (r: bool)
    ensures
        r == all_bmp(text@),
{
    let bytes = text.as_bytes();
    proof {
        crate::lemmas::lemma_utf8_lead_bytes(text@);
    }
    let n = bytes.len();
    let mut index: usize = 0;
    #[verifier::loop_isolation(false)]
    while index < n
        invariant
            index <= n,
            forall|j: int| 0 <= j < index ==> bytes@[j] < 0xF0,
        decreases n - index,
    {
        let byte = bytes[index];
        if !is_continuation_byte(byte) {
            match utf8_char_width(byte) {
                Some(width) => {
                    if width > 3 {
                        return false;
                    }
                },
                None => {
                    return false;
                },
            }
        }
        index += 1;
    }
    true
}

/// The error returned by [`decode`] when the input is neither valid UTF-8 nor
/// valid CESU-8.  It carries no further detail: malformed input is rejected
/// in full, never decoded partially.
#[derive(Clone, Copy, Debug, PartialEq, Eq)]
pub struct Error;

impl Error {
    /// A short description of the failure.
    pub fn message(&self) -> (s: String)
        ensures
            s@ == "invalid CESU-8 data"@,
    {
        "invalid CESU-8 data".to_owned()
    }
}

/// Returns how many bytes the CESU-8 encoding of the text takes: 1 for each
/// ASCII character, the UTF-8 width (2 or 3) for any other character of the
/// Basic Multilingual Plane, and 6 for each supplementary character.  This is
/// exactly the length of the bytes [`encode`] produces, computed without
/// allocating them.
pub fn len(text: &str) -> (r: usize)
    requires
        crate::encoding::encode_cesu8(text@).len() <= usize::MAX,
    ensures
        r == crate::encoding::encode_cesu8(text@).len(),
{
    let bytes = text.as_bytes();
    let ghost chars = text@;
    let n = bytes.len();
    let mut index: usize = 0;
    let mut total: usize = 0;
    let ghost mut k: int = 0;
    proof {
        assert(bytes@.skip(0) =~= bytes@);
        assert(chars.skip(0) =~= chars);
        assert(chars.take(0) =~= Seq::<char>::empty());
    }
    #[verifier::loop_isolation(false)]
    while index < n
        invariant
            0 <= k <= chars.len(),
            index <= n,
            index == encode_utf8(chars.take(k)).len(),
            total == crate::encoding::encode_cesu8(chars.take(k)).len(),
            bytes@.skip(index as int) == encode_utf8(chars.skip(k)),
        decreases n - index,
    {
        proof {
            crate::lemmas::lemma_scan_step(chars, k);
            assert(bytes@[index as int] == bytes@.skip(index as int)[0]);
        }
        let byte = bytes[index];
        if byte <= 0x7F {
            total = total + 1;
            index = index + 1;
        } else {
            let width = utf8_char_width(byte).unwrap();
            total = total + (if width <= 3 {
                width
            } else {
                6
            });
            index = index + width;
        }
        proof {
            k = k + 1;
            assert(bytes@.skip(index as int) =~= encode_utf8(chars.skip(k)));
        }
    }
    proof {
        assert(bytes@.skip(index as int).len() == 0);
        crate::lemmas::lemma_scan_end(chars, k);
    }
    total
}

/// Splits a supplementary scalar value into its UTF-16 surrogate pair.
fn to_surrogate_pair(code_point: u32) -> (r: (u32, u32))
    requires
        0x10000 <= code_point <= 0x10FFFF,
    ensures
        r.0 == crate::encoding::high_surrogate(code_point),
        r.1 == crate::encoding::low_surrogate(code_point),
        0xD800 <= r.0 <= 0xDBFF,
        0xDC00 <= r.1 <= 0xDFFF,
{
    proof {
        crate::lemmas::lemma_split_surrogates(code_point);
        assert((code_point - 0x10000) / 0x400 <= 0x3FF) by {
            vstd::arithmetic::div_mod::lemma_div_is_ordered(
                code_point - 0x10000,
                0xFFFFF,
                0x400,
            );
        }
    }
    let reduced = code_point - 0x10000;
    let first = 0xD800 + reduced / 0x400;
    let second = 0xDC00 + reduced % 0x400;
    (first, second)
}

/// Appends the three-byte rendering of one UTF-16 code unit: the standard
/// three-byte UTF-8 bit layout applied to the unit's 16 bits.
fn encode_surrogate(surrogate: u32, out: &mut Vec<u8>)
    requires
        0xD800 <= surrogate <= 0xDFFF,
    ensures
        final(out)@ == old(out)@ + crate::encoding::surrogate_bytes(surrogate),
{
    let b1 = 0xE0 | (((surrogate >> 12) & 0x0F) as u8);
    let b2 = 0x80 | (((surrogate >> 6) & 0x3F) as u8);
    let b3 = 0x80 | ((surrogate & 0x3F) as u8);
    out.push(b1);
    out.push(b2);
    out.push(b3);
    proof {
        assert(out@ =~= old(out)@ + crate::encoding::surrogate_bytes(surrogate));
    }
}

/// Appends the six-byte CESU-8 form of a supplementary scalar: its two
/// surrogates, each rendered as a three-byte sequence.
fn encode_surrogate_pair(code_point: u32, out: &mut Vec<u8>)
    requires
        0x10000 <= code_point <= 0x10FFFF,
    ensures
        final(out)@ == old(out)@ + crate::encoding::encode_scalar_cesu8(code_point),
{
    let (high, low) = to_surrogate_pair(code_point);
    encode_surrogate(high, out);
    encode_surrogate(low, out);
    proof {
        assert(out@ =~= old(out)@ + crate::encoding::encode_scalar_cesu8(code_point));
    }
}

/// Builds the CESU-8 bytes of a text that needs rewriting: sequences of up to
/// three bytes are copied through, four-byte sequences become surrogate
/// pairs.
fn encode_cesu8(text: &str) -> (r: Vec<u8>)
    ensures
        r@ == crate::encoding::encode_cesu8(text@),
{
    let bytes = text.as_bytes();
    let ghost chars = text@;
    let n = bytes.len();
    let mut out: Vec<u8> = Vec::with_capacity(n);
    let mut index: usize = 0;
    let ghost mut k: int = 0;
    proof {
        assert(bytes@.skip(0) =~= bytes@);
        assert(chars.skip(0) =~= chars);
        assert(chars.take(0) =~= Seq::<char>::empty());
    }
    #[verifier::loop_isolation(false)]
    while index < n
        invariant
            0 <= k <= chars.len(),
            index <= n,
            out@ == crate::encoding::encode_cesu8(chars.take(k)),
            bytes@.skip(index as int) == encode_utf8(chars.skip(k)),
        decreases n - index,
    {
        proof {
            crate::lemmas::lemma_scan_step(chars, k);
            assert(bytes@[index as int] == bytes@.skip(index as int)[0]);
        }
        let ghost c = chars[k] as u32;
        let byte = bytes[index];
        if byte <= 0x7F {
            out.push(byte);
            index = index + 1;
        } else {
            let width = utf8_char_width(byte).unwrap();
            if width <= 3 {
                out.push(byte);
                out.push(bytes[index + 1]);
                if width == 3 {
                    out.push(bytes[index + 2]);
                }
                proof {
                    assert(out@ =~= crate::encoding::encode_cesu8(chars.take(k))
                        + crate::encoding::encode_scalar_cesu8(c));
                }
            } else {
                let b1 = bytes[index + 1];
                let b2 = bytes[index + 2];
                let b3 = bytes[index + 3];
                let code_point = (((byte & 0x07) as u32) << 18) | (((b1 & 0x3F) as u32) << 12) | ((
                (b2 & 0x3F) as u32) << 6) | ((b3 & 0x3F) as u32);
                proof {
                    crate::lemmas::lemma_wide_unit_bytes(c);
                    assert(code_point == c);
                }
                encode_surrogate_pair(code_point, &mut out);
            }
            index = index + width;
        }
        proof {
            k = k + 1;
            assert(bytes@.skip(index as int) =~= encode_utf8(chars.skip(k)));
        }
    }
    proof {
        assert(bytes@.skip(index as int).len() == 0);
        crate::lemmas::lemma_scan_end(chars, k);
    }
    out
}

/// Reads the code unit held in a three-byte sequence: the four data bits of
/// the lead byte followed by six data bits from each continuation byte.
fn decode_surrogate(first: u8, second: u8, third: u8) -> (r: u32)
    ensures
        r == vstd::utf8::codepoint_width_3(first, second, third),
{
    (((first & 0x0F) as u32) << 12) | (((second & 0x3F) as u32) << 6) | ((third & 0x3F) as u32)
}

/// Appends the four-byte UTF-8 encoding of a supplementary scalar value.
fn decode_code_point(code_point: u32, out: &mut Vec<u8>)
    requires
        0x10000 <= code_point <= 0x10FFFF,
    ensures
        final(out)@ == old(out)@ + vstd::utf8::encode_scalar(code_point),
{
    let b1 = 0xF0 | (((code_point >> 18) & 0x07) as u8);
    let b2 = 0x80 | (((code_point >> 12) & 0x3F) as u8);
    let b3 = 0x80 | (((code_point >> 6) & 0x3F) as u8);
    let b4 = 0x80 | ((code_point & 0x3F) as u8);
    out.push(b1);
    out.push(b2);
    out.push(b3);
    out.push(b4);
    proof {
        assert(out@ =~= old(out)@ + vstd::utf8::encode_scalar(code_point));
    }
}

/// Appends the UTF-8 form of the scalar that a surrogate pair represents:
/// the pair is combined into one supplementary value and re-encoded as a
/// single four-byte sequence.
fn decode_surrogate_pair(high: u32, low: u32, out: &mut Vec<u8>)
    requires
        0xD800 <= high <= 0xDBFF,
        0xDC00 <= low <= 0xDFFF,
    ensures
        final(out)@ == old(out)@ + vstd::utf8::encode_scalar(
            crate::encoding::combine_surrogates(high, low),
        ),
{
    proof {
        crate::lemmas::lemma_combine_surrogates(high, low);
    }
    let code_point = 0x10000 + ((high - 0xD800) * 0x400 + (low - 0xDC00));
    decode_code_point(code_point, out);
}

/// Runs the CESU-8 state machine over the whole input, building the UTF-8
/// form of every unit it accepts and rejecting the input at the first
/// malformed unit.
fn decode_cesu8(bytes: &[u8]) -> (r: Result<String, Error>)
    ensures
        r is Ok <==> valid_cesu8(bytes@),
        r matches Ok(text) ==> text@ == decode_cesu8_chars(bytes@),
{
    let n = bytes.len();
    let mut out: Vec<u8> = Vec::with_capacity(n);
    let mut index: usize = 0;
    let ghost mut done: Seq<char> = Seq::empty();
    proof {
        assert(bytes@.skip(0) =~= bytes@);
    }
    #[verifier::loop_isolation(false)]
    while index < n
        invariant
            index <= n,
            out@ == encode_utf8(done),
            valid_cesu8(bytes@) <==> valid_cesu8(bytes@.skip(index as int)),
            valid_cesu8(bytes@.skip(index as int)) ==> decode_cesu8_chars(bytes@) == done
                + decode_cesu8_chars(bytes@.skip(index as int)),
        decreases n - index,
    {
        let ghost tail = bytes@.skip(index as int);
        let ghost start = index as int;
        proof {
            assert(tail.len() == n - index);
            assert(forall|j: int| 0 <= j < tail.len() ==> #[trigger] tail[j] == bytes@[start + j]);
        }
        let first = bytes[index];
        if first <= 0x7F {
            proof {
                crate::lemmas::lemma_step_ascii(tail);
                crate::lemmas::lemma_machine_step(bytes@, start);
                crate::lemmas::lemma_encode_utf8_snoc(done, first as char);
            }
            out.push(first);
            index = index + 1;
            proof {
                done = done.push(first as char);
            }
        } else if 0xC2 <= first && first <= 0xDF {
            proof {
                crate::lemmas::lemma_step_two(tail);
            }
            if index + 1 >= n {
                proof {
                    assert(!valid_cesu8(tail));
                }
                return Err(Error);
            }
            let second = bytes[index + 1];
            if !is_continuation_byte(second) {
                proof {
                    assert(!valid_cesu8(tail));
                }
                return Err(Error);
            }
            let ghost c = vstd::utf8::codepoint_width_2(first, second);
            proof {
                crate::lemmas::lemma_machine_step(bytes@, start);
                crate::lemmas::lemma_encode_utf8_snoc(done, c as char);
            }
            out.push(first);
            out.push(second);
            index = index + 2;
            proof {
                done = done.push(c as char);
            }
        } else if 0xE0 <= first && first <= 0xEF {
            proof {
                crate::lemmas::lemma_step_three(tail);
            }
            if n - index < 3 {
                proof {
                    assert(!valid_cesu8(tail));
                }
                return Err(Error);
            }
            let second = bytes[index + 1];
            let third = bytes[index + 2];
            if !is_continuation_byte(second) || !is_continuation_byte(third) {
                proof {
                    assert(!valid_cesu8(tail));
                }
                return Err(Error);
            }
            let unit = decode_surrogate(first, second, third);
            if unit < 0x800 || (0xDC00 <= unit && unit <= 0xDFFF) {
                // An overlong three-byte encoding, or a low surrogate with no
                // preceding high surrogate.
                proof {
                    assert(!valid_cesu8(tail));
                }
                return Err(Error);
            }
            if 0xD800 <= unit && unit <= 0xDBFF {
                // A high surrogate: only a complete pair is acceptable.
                if n - index < 6 {
                    proof {
                        assert(!valid_cesu8(tail));
                    }
                    return Err(Error);
                }
                let fourth = bytes[index + 3];
                if fourth != 0xED {
                    proof {
                        assert(!valid_cesu8(tail));
                    }
                    return Err(Error);
                }
                let fifth = bytes[index + 4];
                if !(0xB0 <= fifth && fifth <= 0xBF) {
                    proof {
                        assert(!valid_cesu8(tail));
                    }
                    return Err(Error);
                }
                let sixth = bytes[index + 5];
                if !is_continuation_byte(sixth) {
                    proof {
                        assert(!valid_cesu8(tail));
                    }
                    return Err(Error);
                }
                let unit2 = decode_surrogate(fourth, fifth, sixth);
                let ghost c = crate::encoding::combine_surrogates(unit, unit2);
                proof {
                    crate::lemmas::lemma_machine_step(bytes@, start);
                    crate::lemmas::lemma_encode_utf8_snoc(done, c as char);
                }
                decode_surrogate_pair(unit, unit2, &mut out);
                index = index + 6;
                proof {
                    done = done.push(c as char);
                }
            } else {
                // An ordinary three-byte unit, copied through unchanged.
                proof {
                    crate::lemmas::lemma_machine_step(bytes@, start);
                    crate::lemmas::lemma_encode_utf8_snoc(done, unit as char);
                }
                out.push(first);
                out.push(second);
                out.push(third);
                index = index + 3;
                proof {
                    done = done.push(unit as char);
                }
            }
        } else {
            // A continuation byte with no lead, an overlong two-byte lead, or
            // a four-byte (or invalid) lead: never legal in CESU-8.
            proof {
                crate::lemmas::lemma_step_bad_lead(tail);
                assert(!valid_cesu8(tail));
            }
            return Err(Error);
        }
        proof {
            assert(valid_cesu8(bytes@.skip(index as int)) ==> decode_cesu8_chars(bytes@) =~= done
                + decode_cesu8_chars(bytes@.skip(index as int)));
        }
    }
    proof {
        assert(bytes@.skip(index as int).len() == 0);
        assert(valid_cesu8(bytes@));
        assert(decode_cesu8_chars(bytes@.skip(index as int)) =~= Seq::<char>::empty());
        assert(decode_cesu8_chars(bytes@) =~= done);
        vstd::utf8::encode_utf8_valid_utf8(done);
    }
    let text = string_from_valid_utf8(out);
    proof {
        vstd::utf8::encode_utf8_decode_utf8(text@);
        vstd::utf8::encode_utf8_decode_utf8(done);
    }
    Ok(text)
}

/// Converts a byte sequence holding CESU-8 (or plain UTF-8) data to text.
///
/// When the bytes already form valid UTF-8 they are returned borrowed,
/// reinterpreted as text without copying — every CESU-8 sequence free of
/// surrogate pairs is valid UTF-8, and valid UTF-8 is returned as-is.
/// Otherwise the bytes are read as CESU-8: well-formed units are copied
/// through and each surrogate pair becomes one four-byte UTF-8 sequence.
/// Bytes that are neither valid UTF-8 nor valid CESU-8 are rejected whole.
pub fn decode<'a>(bytes: &'a [u8]) -> (r: Result<Decoded<'a>, Error>)
    ensures
        match r {
            Ok(d) => {
                &&& valid_utf8(bytes@) || valid_cesu8(bytes@)
                &&& (d is Borrowed <==> valid_utf8(bytes@))
                &&& d@ == (if valid_utf8(bytes@) {
                    decode_utf8(bytes@)
                } else {
                    decode_cesu8_chars(bytes@)
                })
            },
            Err(_) => !valid_utf8(bytes@) && !valid_cesu8(bytes@),
        },
{
    match bytes_as_utf8_str(bytes) {
        Some(text) => {
            proof {
                vstd::utf8::encode_utf8_decode_utf8(text@);
            }
            Ok(Decoded::Borrowed(text))
        },
        None => match decode_cesu8(bytes) {
            Ok(text) => Ok(Decoded::Owned(text)),
            Err(e) => Err(e),
        },
    }
}

/// Converts a text to its CESU-8 byte form.
///
/// When the text contains no supplementary character its UTF-8 bytes already
/// are its CESU-8 form, and they are returned borrowed, without copying.
/// Otherwise a fresh buffer is built in which every four-byte UTF-8 sequence
/// has become a six-byte surrogate pair.
pub fn encode<'a>(text: &'a str) -> (r: Encoded<'a>)
    ensures
        r@ == crate::encoding::encode_cesu8(text@),
        r is Borrowed <==> all_bmp(text@),
{
    if is_valid(text) {
        proof {
            crate::lemmas::lemma_bmp_encoding_identity(text@);
        }
        Encoded::Borrowed(text.as_bytes())
    } else {
        Encoded::Owned(encode_cesu8(text))
    }
}

/// Width in bytes of the UTF-8 sequence a lead byte introduces, or `None`
/// when the byte cannot begin a sequence (a continuation byte, an overlong
/// two-byte lead, or a lead above `0xF4`).
fn utf8_char_width(byte: u8) -> (r: Option<usize>)
    ensures
        match r {
            Some(w) => (w == 1 && byte <= 0x7F) || (w == 2 && 0xC2 <= byte <= 0xDF) || (w == 3
                && 0xE0 <= byte <= 0xEF) || (w == 4 && 0xF0 <= byte <= 0xF4),
            None => 0x80 <= byte <= 0xC1 || 0xF5 <= byte,
        },
{
    if byte <= 0x7F {
        Some(1)
    } else if 0xC2 <= byte && byte <= 0xDF {
        Some(2)
    } else if 0xE0 <= byte && byte <= 0xEF {
        Some(3)
    } else if 0xF0 <= byte && byte <= 0xF4 {
        Some(4)
    } else {
        None
    }
}

/// True for a UTF-8 continuation byte, of the form `10xxxxxx`.
fn is_continuation_byte(byte: u8) -> (r: bool)
    ensures
        r == vstd::utf8::is_continuation_byte(byte),
{
    byte & 0xC0 == 0x80
}

} // verus!

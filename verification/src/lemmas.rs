//! Proofs about the CESU-8 encoding.
//!
//! The module culminates in the public laws at the bottom: the round trip
//! through [`crate::encoding::encode_cesu8`] and
//! [`crate::encoding::decode_cesu8_chars`], the agreement of CESU-8 and UTF-8
//! on texts confined to the Basic Multilingual Plane, and the identity of
//! decoding on plain ASCII bytes.

use vstd::prelude::*;
use vstd::utf8::{
    codepoint_width_1, codepoint_width_2, codepoint_width_3, codepoint_width_4,
    decode_first_scalar, encode_scalar, encode_utf8, is_continuation_byte, is_scalar,
    last_continuation_byte, leading_byte_width_1, leading_byte_width_2,
    leading_byte_width_3, leading_byte_width_4, length_of_first_scalar,
    second_last_continuation_byte, third_last_continuation_byte, valid_first_scalar,
};

use crate::encoding::{
    all_bmp, combine_surrogates, decode_cesu8_chars, encode_cesu8, encode_scalar_cesu8,
    first_cesu8_scalar, high_surrogate, is_bmp, length_of_first_cesu8_scalar, low_surrogate,
    valid_cesu8, valid_first_cesu8_scalar, valid_first_surrogate_pair,
};

verus! {

broadcast use vstd::seq::group_seq_axioms, vstd::seq_lib::group_seq_lib_default;

/* Bit-level facts about a single encoded unit. */

proof fn bv_encode_width_1(c: u32)
    by (bit_vector)
    requires
        c <= 0x7F,
    ensures
        ({
            let b1 = leading_byte_width_1(c);
            &&& b1 <= 0x7F
            &&& codepoint_width_1(b1) == c
        }),
{
}

proof fn bv_decode_width_1(b1: u8)
    by (bit_vector)
    requires
        b1 <= 0x7F,
    ensures
        ({
            let c = codepoint_width_1(b1);
            &&& c <= 0x7F
            &&& leading_byte_width_1(c) == b1
        }),
{
}

proof fn bv_encode_width_2(c: u32)
    by (bit_vector)
    requires
        0x80 <= c <= 0x7FF,
    ensures
        ({
            let b1 = leading_byte_width_2(c);
            let b2 = last_continuation_byte(c);
            &&& 0xC2 <= b1 <= 0xDF
            &&& is_continuation_byte(b2)
            &&& codepoint_width_2(b1, b2) == c
        }),
{
}

proof fn bv_decode_width_2(b1: u8, b2: u8)
    by (bit_vector)
    requires
        0xC0 <= b1 <= 0xDF,
        is_continuation_byte(b2),
    ensures
        ({
            let c = codepoint_width_2(b1, b2);
            &&& c <= 0x7FF
            &&& (0xC2 <= b1 ==> 0x80 <= c)
            &&& (b1 <= 0xC1 ==> c <= 0x7F)
            &&& leading_byte_width_2(c) == b1
            &&& last_continuation_byte(c) == b2
        }),
{
}

// Covers both the three-byte scalars of strict UTF-8 and the surrogate code
// units of a CESU-8 pair, which use the same bit layout.
proof fn bv_encode_width_3(c: u32)
    by (bit_vector)
    requires
        0x800 <= c <= 0xFFFF,
    ensures
        ({
            let b1 = leading_byte_width_3(c);
            let b2 = second_last_continuation_byte(c);
            let b3 = last_continuation_byte(c);
            &&& 0xE0 <= b1 <= 0xEF
            &&& is_continuation_byte(b2)
            &&& is_continuation_byte(b3)
            &&& codepoint_width_3(b1, b2, b3) == c
        }),
{
}

proof fn bv_decode_width_3(b1: u8, b2: u8, b3: u8)
    by (bit_vector)
    requires
        0xE0 <= b1 <= 0xEF,
        is_continuation_byte(b2),
        is_continuation_byte(b3),
    ensures
        ({
            let c = codepoint_width_3(b1, b2, b3);
            &&& c <= 0xFFFF
            &&& (0x800 <= c <==> (b1 != 0xE0 || 0xA0 <= b2))
            &&& (0xD800 <= c <= 0xDBFF <==> (b1 == 0xED && 0xA0 <= b2 <= 0xAF))
            &&& (0xDC00 <= c <= 0xDFFF <==> (b1 == 0xED && 0xB0 <= b2))
            &&& leading_byte_width_3(c) == b1
            &&& second_last_continuation_byte(c) == b2
            &&& last_continuation_byte(c) == b3
        }),
{
}

proof fn bv_encode_width_4(c: u32)
    by (bit_vector)
    requires
        0x10000 <= c <= 0x10FFFF,
    ensures
        ({
            let b1 = leading_byte_width_4(c);
            let b2 = third_last_continuation_byte(c);
            let b3 = second_last_continuation_byte(c);
            let b4 = last_continuation_byte(c);
            &&& 0xF0 <= b1 <= 0xF4
            &&& is_continuation_byte(b2)
            &&& is_continuation_byte(b3)
            &&& is_continuation_byte(b4)
            &&& codepoint_width_4(b1, b2, b3, b4) == c
        }),
{
}

/* Splitting a supplementary scalar into surrogates and recombining. */

/// The surrogate halves of a supplementary scalar are in their ranges and
/// recombine to the original value.
pub proof fn lemma_split_surrogates(c: u32)
    requires
        0x10000 <= c <= 0x10FFFF,
    ensures
        0xD800 <= high_surrogate(c) <= 0xDBFF,
        0xDC00 <= low_surrogate(c) <= 0xDFFF,
        combine_surrogates(high_surrogate(c), low_surrogate(c)) == c,
{
    let t = c - 0x10000;
    assert(0 <= t <= 0xFFFFF);
    assert(t == 0x400 * (t / 0x400) + t % 0x400) by {
        vstd::arithmetic::div_mod::lemma_fundamental_div_mod(t as int, 0x400);
    }
    assert(0 <= t / 0x400 <= 0x3FF) by {
        vstd::arithmetic::div_mod::lemma_div_is_ordered(t as int, 0xFFFFF, 0x400);
    }
    assert(0 <= t % 0x400 < 0x400);
}

/// Recombining a surrogate pair yields a supplementary scalar whose halves
/// are the two original code units.
pub proof fn lemma_combine_surrogates(high: u32, low: u32)
    requires
        0xD800 <= high <= 0xDBFF,
        0xDC00 <= low <= 0xDFFF,
    ensures
        0x10000 <= combine_surrogates(high, low) <= 0x10FFFF,
        high_surrogate(combine_surrogates(high, low)) == high,
        low_surrogate(combine_surrogates(high, low)) == low,
{
    let t = (high - 0xD800) * 0x400 + (low - 0xDC00);
    assert(t / 0x400 == high - 0xD800 && t % 0x400 == low - 0xDC00) by {
        vstd::arithmetic::div_mod::lemma_fundamental_div_mod_converse(
            t,
            0x400,
            high - 0xD800,
            low - 0xDC00,
        );
    }
}

/* The first unit of an encoded stream. */

/// A stream beginning with the UTF-8 encoding of a scalar starts with a
/// well-formed first scalar of the matching length and value, whatever
/// follows; a BMP scalar also forms a well-formed CESU-8 unit and never a
/// surrogate pair.
pub proof fn lemma_unit_shape(c: u32, rest: Seq<u8>)
    requires
        is_scalar(c),
    ensures
        ({
            let unit = encode_scalar(c);
            let s = encode_scalar(c) + rest;
            &&& unit.len() == (if c <= 0x7F {
                1int
            } else if c <= 0x7FF {
                2int
            } else if c <= 0xFFFF {
                3int
            } else {
                4int
            })
            &&& (c <= 0x7F <==> s[0] <= 0x7F)
            &&& (0x80 <= c <= 0x7FF <==> 0xC2 <= s[0] <= 0xDF)
            &&& (0x800 <= c <= 0xFFFF <==> 0xE0 <= s[0] <= 0xEF)
            &&& (0x10000 <= c <==> 0xF0 <= s[0] <= 0xF4)
            &&& valid_first_scalar(s)
            &&& decode_first_scalar(s) == c
            &&& length_of_first_scalar(s) == unit.len()
            &&& (c < 0x10000 ==> {
                &&& !valid_first_surrogate_pair(s)
                &&& valid_first_cesu8_scalar(s)
                &&& first_cesu8_scalar(s) == c
                &&& length_of_first_cesu8_scalar(s) == unit.len()
            })
        }),
{
    let unit = encode_scalar(c);
    let s = encode_scalar(c) + rest;
    if c <= 0x7F {
        bv_encode_width_1(c);
        assert(s[0] == leading_byte_width_1(c));
    } else if c <= 0x7FF {
        bv_encode_width_2(c);
        assert(s[0] == leading_byte_width_2(c) && s[1] == last_continuation_byte(c));
    } else if c <= 0xFFFF {
        bv_encode_width_3(c);
        assert(s[0] == leading_byte_width_3(c) && s[1] == second_last_continuation_byte(c) && s[2]
            == last_continuation_byte(c));
        assert(!(0xD800 <= codepoint_width_3(s[0], s[1], s[2]) <= 0xDBFF));
    } else {
        bv_encode_width_4(c);
        assert(s[0] == leading_byte_width_4(c) && s[1] == third_last_continuation_byte(c) && s[2]
            == second_last_continuation_byte(c) && s[3] == last_continuation_byte(c));
    }
}

/// A stream beginning with the CESU-8 surrogate pair of a supplementary
/// scalar starts with a well-formed pair of that value, whatever follows,
/// and never with a strict UTF-8 scalar.
pub proof fn lemma_pair_shape(c: u32, rest: Seq<u8>)
    requires
        0x10000 <= c <= 0x10FFFF,
    ensures
        ({
            let unit = encode_scalar_cesu8(c);
            let s = encode_scalar_cesu8(c) + rest;
            &&& unit.len() == 6
            &&& s[0] == 0xED && 0xA0 <= s[1] <= 0xAF
            &&& valid_first_surrogate_pair(s)
            &&& valid_first_cesu8_scalar(s)
            &&& first_cesu8_scalar(s) == c
            &&& length_of_first_cesu8_scalar(s) == 6
            &&& !valid_first_scalar(s)
        }),
{
    let hi = high_surrogate(c);
    let lo = low_surrogate(c);
    lemma_split_surrogates(c);
    bv_encode_width_3(hi);
    bv_encode_width_3(lo);
    let s = encode_scalar_cesu8(c) + rest;
    assert(s[0] == leading_byte_width_3(hi) && s[1] == second_last_continuation_byte(hi) && s[2]
        == last_continuation_byte(hi));
    assert(s[3] == leading_byte_width_3(lo) && s[4] == second_last_continuation_byte(lo) && s[5]
        == last_continuation_byte(lo));
    assert(codepoint_width_3(s[0], s[1], s[2]) == hi);
    assert(codepoint_width_3(s[3], s[4], s[5]) == lo);
    assert(leading_byte_width_3(hi) == 0xED && 0xA0 <= second_last_continuation_byte(hi)
        <= 0xAF) by (bit_vector)
        requires
            0xD800 <= hi <= 0xDBFF,
    ;
    assert(!vstd::utf8::not_surrogate(decode_first_scalar(s)));
}

/* Concatenation distributes over encoding. */

/// UTF-8 encoding of a concatenation is the concatenation of the encodings.
pub proof fn lemma_encode_utf8_concat(a: Seq<char>, b: Seq<char>)
    ensures
        encode_utf8(a + b) == encode_utf8(a) + encode_utf8(b),
    decreases a.len(),
{
    if a.len() == 0 {
        assert(a + b =~= b);
        assert(encode_utf8(a) + encode_utf8(b) =~= encode_utf8(b));
    } else {
        lemma_encode_utf8_concat(a.drop_first(), b);
        assert((a + b).drop_first() =~= a.drop_first() + b);
        assert(encode_scalar(a[0] as u32) + (encode_utf8(a.drop_first()) + encode_utf8(b)) =~= (
        encode_scalar(a[0] as u32) + encode_utf8(a.drop_first())) + encode_utf8(b));
    }
}

/// CESU-8 encoding of a concatenation is the concatenation of the encodings.
pub proof fn lemma_encode_cesu8_concat(a: Seq<char>, b: Seq<char>)
    ensures
        encode_cesu8(a + b) == encode_cesu8(a) + encode_cesu8(b),
    decreases a.len(),
{
    if a.len() == 0 {
        assert(a + b =~= b);
        assert(encode_cesu8(a) + encode_cesu8(b) =~= encode_cesu8(b));
    } else {
        lemma_encode_cesu8_concat(a.drop_first(), b);
        assert((a + b).drop_first() =~= a.drop_first() + b);
        assert(encode_scalar_cesu8(a[0] as u32) + (encode_cesu8(a.drop_first()) + encode_cesu8(b))
            =~= (encode_scalar_cesu8(a[0] as u32) + encode_cesu8(a.drop_first())) + encode_cesu8(
            b,
        ));
    }
}

/* The branches of the CESU-8 state machine, one lemma per lead-byte class. */

/// Appending one character to decoded text appends its UTF-8 unit.
pub(crate) proof fn lemma_encode_utf8_snoc(chars: Seq<char>, c: char)
    ensures
        encode_utf8(chars.push(c)) == encode_utf8(chars) + encode_scalar(c as u32),
{
    assert(chars.push(c) =~= chars + seq![c]);
    lemma_encode_utf8_concat(chars, seq![c]);
    assert(seq![c].drop_first() =~= Seq::<char>::empty());
    assert(encode_scalar(c as u32) + encode_utf8(Seq::<char>::empty()) =~= encode_scalar(
        c as u32,
    ));
}

/// An ASCII byte is a complete one-byte CESU-8 unit.
pub(crate) proof fn lemma_step_ascii(tail: Seq<u8>)
    requires
        tail.len() > 0,
        tail[0] <= 0x7F,
    ensures
        valid_first_cesu8_scalar(tail),
        length_of_first_cesu8_scalar(tail) == 1,
        first_cesu8_scalar(tail) == tail[0] as u32,
        is_scalar(tail[0] as u32),
        encode_scalar(tail[0] as u32) == seq![tail[0]],
{
    let b = tail[0];
    bv_decode_width_1(b);
    assert(codepoint_width_1(b) == b as u32) by (bit_vector)
        requires
            b <= 0x7F,
    ;
    assert(!valid_first_surrogate_pair(tail));
    assert(encode_scalar(b as u32) =~= seq![b]);
}

/// A two-byte lead either completes with one continuation byte, forming a
/// two-byte unit copied through unchanged, or the input is malformed.
pub(crate) proof fn lemma_step_two(tail: Seq<u8>)
    requires
        tail.len() > 0,
        0xC2 <= tail[0] <= 0xDF,
    ensures
        (tail.len() >= 2 && is_continuation_byte(tail[1])) ==> ({
            let c = codepoint_width_2(tail[0], tail[1]);
            &&& valid_first_cesu8_scalar(tail)
            &&& length_of_first_cesu8_scalar(tail) == 2
            &&& first_cesu8_scalar(tail) == c
            &&& is_scalar(c)
            &&& encode_scalar(c) == seq![tail[0], tail[1]]
        }),
        !(tail.len() >= 2 && is_continuation_byte(tail[1])) ==> !valid_first_cesu8_scalar(tail),
{
    assert(!valid_first_surrogate_pair(tail));
    if tail.len() >= 2 && is_continuation_byte(tail[1]) {
        bv_decode_width_2(tail[0], tail[1]);
        assert(encode_scalar(codepoint_width_2(tail[0], tail[1])) =~= seq![tail[0], tail[1]]);
    }
}

/// A three-byte lead opens either an ordinary three-byte unit, a surrogate
/// pair (when the three bytes decode to a high surrogate and three more bytes
/// encode a low surrogate), or malformed input: an overlong encoding, a low
/// surrogate standing first, or a broken pair.
pub(crate) proof fn lemma_step_three(tail: Seq<u8>)
    requires
        tail.len() > 0,
        0xE0 <= tail[0] <= 0xEF,
    ensures
        !(tail.len() >= 3 && is_continuation_byte(tail[1]) && is_continuation_byte(tail[2]))
            ==> !valid_first_cesu8_scalar(tail),
        (tail.len() >= 3 && is_continuation_byte(tail[1]) && is_continuation_byte(tail[2])) ==> ({
            let u = codepoint_width_3(tail[0], tail[1], tail[2]);
            &&& u <= 0xFFFF
            &&& ((0x800 <= u && !(0xD800 <= u <= 0xDFFF)) ==> {
                &&& valid_first_cesu8_scalar(tail)
                &&& length_of_first_cesu8_scalar(tail) == 3
                &&& first_cesu8_scalar(tail) == u
                &&& is_scalar(u)
                &&& encode_scalar(u) == seq![tail[0], tail[1], tail[2]]
            })
            &&& ((u < 0x800 || 0xDC00 <= u <= 0xDFFF) ==> !valid_first_cesu8_scalar(tail))
            &&& ((0xD800 <= u <= 0xDBFF) ==> {
                let pair_shape = tail.len() >= 6 && tail[3] == 0xED && 0xB0 <= tail[4] <= 0xBF
                    && is_continuation_byte(tail[5]);
                &&& (pair_shape ==> ({
                    let u2 = codepoint_width_3(tail[3], tail[4], tail[5]);
                    let c = combine_surrogates(u, u2);
                    &&& 0xDC00 <= u2 <= 0xDFFF
                    &&& valid_first_cesu8_scalar(tail)
                    &&& valid_first_surrogate_pair(tail)
                    &&& length_of_first_cesu8_scalar(tail) == 6
                    &&& first_cesu8_scalar(tail) == c
                    &&& 0x10000 <= c <= 0x10FFFF
                    &&& is_scalar(c)
                }))
                &&& (!pair_shape ==> !valid_first_cesu8_scalar(tail))
            })
        }),
{
    if tail.len() >= 3 && is_continuation_byte(tail[1]) && is_continuation_byte(tail[2]) {
        let u = codepoint_width_3(tail[0], tail[1], tail[2]);
        bv_decode_width_3(tail[0], tail[1], tail[2]);
        if 0x800 <= u && !(0xD800 <= u <= 0xDFFF) {
            assert(!valid_first_surrogate_pair(tail));
            assert(encode_scalar(u) =~= seq![tail[0], tail[1], tail[2]]);
        }
        if 0xD800 <= u <= 0xDBFF {
            let pair_shape = tail.len() >= 6 && tail[3] == 0xED && 0xB0 <= tail[4] <= 0xBF
                && is_continuation_byte(tail[5]);
            if pair_shape {
                bv_decode_width_3(tail[3], tail[4], tail[5]);
                let u2 = codepoint_width_3(tail[3], tail[4], tail[5]);
                lemma_combine_surrogates(u, u2);
            } else {
                if valid_first_surrogate_pair(tail) {
                    bv_decode_width_3(tail[3], tail[4], tail[5]);
                }
            }
        }
    }
}

/// A byte that can lead no CESU-8 unit: a continuation byte standing first,
/// an overlong two-byte lead, or a four-byte (or invalid) lead, which CESU-8
/// refuses outright.
pub(crate) proof fn lemma_step_bad_lead(tail: Seq<u8>)
    requires
        tail.len() > 0,
        0x80 <= tail[0] <= 0xC1 || 0xF0 <= tail[0],
    ensures
        !valid_first_cesu8_scalar(tail),
{
    let b = tail[0];
    assert(!valid_first_surrogate_pair(tail));
    if 0xC0 <= b <= 0xC1 {
        if valid_first_scalar(tail) {
            bv_decode_width_2(b, tail[1]);
        }
    }
}

/// Consuming one well-formed unit: the rest of the stream is well-formed
/// exactly when the whole was, and the whole decodes to the unit's character
/// followed by the rest's characters.
pub(crate) proof fn lemma_machine_step(bytes: Seq<u8>, i: int)
    requires
        0 <= i <= bytes.len(),
        valid_first_cesu8_scalar(bytes.skip(i)),
    ensures
        ({
            let tail = bytes.skip(i);
            let w = length_of_first_cesu8_scalar(tail);
            &&& 1 <= w <= tail.len()
            &&& bytes.skip(i + w) == tail.skip(w)
            &&& (valid_cesu8(tail) <==> valid_cesu8(bytes.skip(i + w)))
            &&& (valid_cesu8(tail) ==> decode_cesu8_chars(tail) == seq![
                first_cesu8_scalar(tail) as char,
            ] + decode_cesu8_chars(bytes.skip(i + w)))
        }),
{
    let tail = bytes.skip(i);
    let w = length_of_first_cesu8_scalar(tail);
    assert(1 <= w <= tail.len());
    assert(bytes.skip(i + w) =~= tail.skip(w));
}

/* The public laws. */

/// On a text confined to the Basic Multilingual Plane, CESU-8 and UTF-8
/// coincide byte for byte; encoding such a text is the identity on its UTF-8
/// byte form.
pub proof fn lemma_bmp_encoding_identity(chars: Seq<char>)
    requires
        all_bmp(chars),
    ensures
        encode_cesu8(chars) == encode_utf8(chars),
    decreases chars.len(),
{
    if chars.len() == 0 {
    } else {
        broadcast use vstd::utf8::char_is_scalar;

        assert(is_bmp(chars[0]));
        assert(all_bmp(chars.drop_first())) by {
            assert(forall|i: int|
                0 <= i < chars.drop_first().len() ==> #[trigger] chars.drop_first()[i] == chars[i
                    + 1]);
        }
        lemma_bmp_encoding_identity(chars.drop_first());
    }
}

/// Round trip: the CESU-8 encoding of any text is well-formed CESU-8 and
/// decodes back to that very text; and whenever the encoding happens to be
/// valid UTF-8 as well, reading it as UTF-8 gives the same text.
pub proof fn lemma_round_trip(chars: Seq<char>)
    ensures
        valid_cesu8(encode_cesu8(chars)),
        decode_cesu8_chars(encode_cesu8(chars)) == chars,
        vstd::utf8::valid_utf8(encode_cesu8(chars)) ==> vstd::utf8::decode_utf8(
            encode_cesu8(chars),
        ) == chars,
    decreases chars.len(),
{
    broadcast use vstd::utf8::char_is_scalar, vstd::utf8::char_u32_cast;

    if chars.len() == 0 {
        assert(decode_cesu8_chars(encode_cesu8(chars)) =~= chars);
        assert(vstd::utf8::decode_utf8(encode_cesu8(chars)) =~= chars);
    } else {
        vstd::utf8::char_is_scalar(chars[0]);
        let c = chars[0] as u32;
        let rest = chars.drop_first();
        let s = encode_cesu8(chars);
        lemma_round_trip(rest);
        if c < 0x10000 {
            lemma_unit_shape(c, encode_cesu8(rest));
            assert(s =~= encode_scalar(c) + encode_cesu8(rest));
            assert(s.skip(length_of_first_cesu8_scalar(s)) =~= encode_cesu8(rest));
        } else {
            lemma_pair_shape(c, encode_cesu8(rest));
            assert(s.skip(6) =~= encode_cesu8(rest));
        }
        assert(valid_cesu8(s));
        vstd::utf8::char_u32_cast(chars[0], c);
        assert(decode_cesu8_chars(s) =~= chars);
        if vstd::utf8::valid_utf8(s) {
            if !all_bmp(chars) {
                lemma_supplementary_not_utf8_aux(chars);
            }
            lemma_bmp_encoding_identity(chars);
            vstd::utf8::encode_utf8_decode_utf8(chars);
        }
    }
}

/// Decoding plain ASCII bytes is the identity: they are valid UTF-8, and each
/// byte becomes the character of the same value.
pub proof fn lemma_ascii_decode_identity(bytes: Seq<u8>)
    requires
        forall|i: int| 0 <= i < bytes.len() ==> #[trigger] bytes[i] <= 0x7F,
    ensures
        vstd::utf8::valid_utf8(bytes),
        vstd::utf8::decode_utf8(bytes) == Seq::new(bytes.len(), |i: int| bytes[i] as char),
    decreases bytes.len(),
{
    if bytes.len() == 0 {
        assert(vstd::utf8::decode_utf8(bytes) =~= Seq::new(
            bytes.len(),
            |i: int| bytes[i] as char,
        ));
    } else {
        let b = bytes[0];
        assert(codepoint_width_1(b) == b as u32) by (bit_vector)
            requires
                b <= 0x7F,
        ;
        assert(valid_first_scalar(bytes));
        assert(length_of_first_scalar(bytes) == 1);
        assert(vstd::utf8::pop_first_scalar(bytes) =~= bytes.drop_first());
        lemma_ascii_decode_identity(bytes.drop_first());
        assert(vstd::utf8::decode_utf8(bytes) =~= Seq::new(
            bytes.len(),
            |i: int| bytes[i] as char,
        ));
    }
}

/* Which bytes can appear in the UTF-8 form of a text. */

/// True for a byte that may occur in the UTF-8 encoding of a text confined to
/// the Basic Multilingual Plane: anything but a four-byte lead.
pub open spec fn cesu8_safe_byte(b: u8) -> bool {
    ||| b <= 0x7F
    ||| is_continuation_byte(b)
    ||| 0xC2 <= b <= 0xDF
    ||| 0xE0 <= b <= 0xEF
}

/// Every byte of a UTF-8 encoding is a lead byte of one of the four widths or
/// a continuation byte; a four-byte lead (`0xF0..=0xF4`) occurs exactly when
/// the text has a supplementary character.
pub proof fn lemma_utf8_lead_bytes(chars: Seq<char>)
    ensures
        forall|i: int|
            0 <= i < encode_utf8(chars).len() ==> cesu8_safe_byte(
                #[trigger] encode_utf8(chars)[i],
            ) || 0xF0 <= encode_utf8(chars)[i] <= 0xF4,
        all_bmp(chars) ==> forall|i: int|
            0 <= i < encode_utf8(chars).len() ==> cesu8_safe_byte(
                #[trigger] encode_utf8(chars)[i],
            ),
        !all_bmp(chars) ==> exists|i: int|
            0 <= i < encode_utf8(chars).len() && 0xF0 <= #[trigger] encode_utf8(chars)[i],
    decreases chars.len(),
{
    if chars.len() == 0 {
    } else {
        vstd::utf8::char_is_scalar(chars[0]);
        let c = chars[0] as u32;
        let rest = chars.drop_first();
        let unit = encode_scalar(c);
        let s = encode_utf8(chars);
        lemma_utf8_lead_bytes(rest);
        lemma_unit_shape(c, encode_utf8(rest));
        assert(s =~= unit + encode_utf8(rest));
        if c <= 0x7F {
            bv_encode_width_1(c);
        } else if c <= 0x7FF {
            bv_encode_width_2(c);
        } else if c <= 0xFFFF {
            bv_encode_width_3(c);
        } else {
            bv_encode_width_4(c);
        }
        assert(forall|j: int| 0 <= j < unit.len() ==> cesu8_safe_byte(#[trigger] unit[j]) || 0xF0
            <= unit[j] <= 0xF4);
        assert(c < 0x10000 ==> forall|j: int|
            0 <= j < unit.len() ==> cesu8_safe_byte(#[trigger] unit[j]));
        if all_bmp(chars) {
            assert(all_bmp(rest)) by {
                assert(forall|i: int|
                    0 <= i < rest.len() ==> #[trigger] rest[i] == chars[i + 1]);
            }
        }
        if !all_bmp(chars) {
            if c >= 0x10000 {
                assert(0xF0 <= s[0]);
            } else {
                assert(!all_bmp(rest)) by {
                    let j = choose|j: int| 0 <= j < chars.len() && !is_bmp(chars[j]);
                    assert(rest[j - 1] == chars[j]);
                }
                let j = choose|j: int|
                    0 <= j < encode_utf8(rest).len() && 0xF0 <= #[trigger] encode_utf8(rest)[j];
                assert(0xF0 <= s[unit.len() + j]);
            }
        }
    }
}

/* Stepping a byte-wise scan over a text's UTF-8 form. */

/// One step of a scan that walks a text's UTF-8 bytes character by
/// character: after `k` characters the remaining bytes begin with the
/// encoding of character `k`, whose width class its lead byte reveals, and
/// the running UTF-8 and CESU-8 totals grow by that character's widths.
pub(crate) proof fn lemma_scan_step(chars: Seq<char>, k: int)
    requires
        0 <= k <= chars.len(),
        encode_utf8(chars.skip(k)).len() > 0,
    ensures
        ({
            let c = chars[k] as u32;
            let unit = encode_scalar(c);
            let suffix = encode_utf8(chars.skip(k));
            &&& k < chars.len()
            &&& is_scalar(c)
            &&& 1 <= unit.len() <= suffix.len()
            &&& suffix == unit + encode_utf8(chars.skip(k + 1))
            &&& suffix.skip(unit.len() as int) == encode_utf8(chars.skip(k + 1))
            &&& (c <= 0x7F <==> suffix[0] <= 0x7F)
            &&& (0x80 <= c <= 0x7FF <==> 0xC2 <= suffix[0] <= 0xDF)
            &&& (0x800 <= c <= 0xFFFF <==> 0xE0 <= suffix[0] <= 0xEF)
            &&& (0x10000 <= c <==> 0xF0 <= suffix[0] <= 0xF4)
            &&& unit.len() == (if c <= 0x7F {
                1int
            } else if c <= 0x7FF {
                2int
            } else if c <= 0xFFFF {
                3int
            } else {
                4int
            })
            &&& (forall|j: int| 0 <= j < unit.len() ==> suffix[j] == #[trigger] unit[j])
            &&& encode_utf8(chars.take(k + 1)).len() == encode_utf8(chars.take(k)).len()
                + unit.len()
            &&& encode_cesu8(chars.take(k + 1)) == encode_cesu8(chars.take(k))
                + encode_scalar_cesu8(c)
            &&& encode_scalar_cesu8(c).len() == (if c < 0x10000 {
                unit.len() as int
            } else {
                6int
            })
            &&& encode_cesu8(chars.take(k + 1)).len() <= encode_cesu8(chars).len()
        }),
{
    if chars.skip(k).len() == 0 {
        assert(encode_utf8(chars.skip(k)).len() == 0);
    }
    vstd::utf8::char_is_scalar(chars[k]);
    let c = chars[k] as u32;
    let unit = encode_scalar(c);
    assert(chars.skip(k)[0] == chars[k]);
    assert(chars.skip(k).drop_first() =~= chars.skip(k + 1));
    lemma_unit_shape(c, encode_utf8(chars.skip(k + 1)));
    let suffix = encode_utf8(chars.skip(k));
    assert(suffix == unit + encode_utf8(chars.skip(k + 1)));
    assert(suffix.skip(unit.len() as int) =~= encode_utf8(chars.skip(k + 1)));
    if c >= 0x10000 {
        lemma_split_surrogates(c);
    }
    assert(chars.take(k + 1) =~= chars.take(k) + seq![chars[k]]);
    assert(encode_utf8(seq![chars[k]]) =~= unit) by {
        assert(seq![chars[k]].drop_first() =~= Seq::<char>::empty());
        assert(unit + encode_utf8(Seq::<char>::empty()) =~= unit);
    }
    lemma_encode_utf8_concat(chars.take(k), seq![chars[k]]);
    assert(encode_cesu8(seq![chars[k]]) =~= encode_scalar_cesu8(c)) by {
        assert(seq![chars[k]].drop_first() =~= Seq::<char>::empty());
        assert(encode_scalar_cesu8(c) + encode_cesu8(Seq::<char>::empty()) =~= encode_scalar_cesu8(
            c,
        ));
    }
    lemma_encode_cesu8_concat(chars.take(k), seq![chars[k]]);
    assert(chars =~= chars.take(k + 1) + chars.skip(k + 1));
    lemma_encode_cesu8_concat(chars.take(k + 1), chars.skip(k + 1));
}

/// Reading the data bits back out of the four-byte UTF-8 encoding of a
/// supplementary scalar recovers the scalar.
pub(crate) proof fn lemma_wide_unit_bytes(c: u32)
    requires
        is_scalar(c),
        0x10000 <= c,
    ensures
        ({
            let unit = encode_scalar(c);
            codepoint_width_4(unit[0], unit[1], unit[2], unit[3]) == c
        }),
{
    bv_encode_width_4(c);
}

/// When the scan has consumed all bytes it has consumed all characters.
pub(crate) proof fn lemma_scan_end(chars: Seq<char>, k: int)
    requires
        0 <= k <= chars.len(),
        encode_utf8(chars.skip(k)).len() == 0,
    ensures
        k == chars.len(),
        chars.take(k) == chars,
{
    if k < chars.len() {
        assert(chars.skip(k).len() > 0);
        assert(encode_utf8(chars.skip(k)) == encode_scalar(chars.skip(k)[0] as u32) + encode_utf8(
            chars.skip(k).drop_first(),
        ));
        assert(encode_scalar(chars.skip(k)[0] as u32).len() >= 1);
    }
    assert(chars.take(k) =~= chars);
}

/// A text with a supplementary character has a CESU-8 encoding that is not
/// valid UTF-8: the surrogate-pair bytes are exactly what strict UTF-8
/// refuses.
proof fn lemma_supplementary_not_utf8_aux(chars: Seq<char>)
    requires
        !all_bmp(chars),
    ensures
        !vstd::utf8::valid_utf8(encode_cesu8(chars)),
    decreases chars.len(),
{
    broadcast use vstd::utf8::char_is_scalar;

    vstd::utf8::char_is_scalar(chars[0]);
    let c = chars[0] as u32;
    let rest = chars.drop_first();
    let s = encode_cesu8(chars);
    if c < 0x10000 {
        assert(!all_bmp(rest)) by {
            let j = choose|j: int| 0 <= j < chars.len() && !is_bmp(chars[j]);
            assert(rest[j - 1] == chars[j]);
        }
        lemma_supplementary_not_utf8_aux(rest);
        lemma_unit_shape(c, encode_cesu8(rest));
        if vstd::utf8::valid_utf8(s) {
            assert(vstd::utf8::pop_first_scalar(s) =~= encode_cesu8(rest));
        }
    } else {
        lemma_pair_shape(c, encode_cesu8(rest));
        assert(s.len() >= 6);
    }
}

} // verus!

//! Implementations for characters, which are stored in UTF-8.

use vstd::prelude::*;
use vstd::utf8::{
    char_u32_cast,
    codepoint_width_2,
    codepoint_width_3,
    codepoint_width_4,
    encode_scalar,
    has_width_2_encoding,
    has_width_3_encoding,
    has_width_4_encoding,
    is_continuation_byte,
    is_scalar,
    last_continuation_byte,
    leading_byte_width_1,
    leading_byte_width_2,
    leading_byte_width_3,
    leading_byte_width_4,
    second_last_continuation_byte,
    third_last_continuation_byte,
};

use super::Codec;
use crate::decode::{Data, Decode, DecodeBearer, DecodeError};
use crate::encode::{write_chunk, Encode, EncodeBearer, EncodeError};
use crate::laws::{lemma_read_chunk, lemma_read_parts, lemma_take_one, Tail};
use crate::stream::Feed;

verus! {

/// `char::from_u32` gives the character of a Unicode scalar value and nothing for other
/// numbers.
pub assume_specification[ char::from_u32 ](i: u32) -> (r: Option<char>)
    ensures
        r is Some <==> is_scalar(i),
        r matches Some(c) ==> c as u32 == i,
;

impl Data for char {
    type Value = char;

    open spec fn value(&self) -> char {
        *self
    }
}

/// Returns the UTF-8 representation of `c`.
fn utf8_bytes(c: char) -> (r: Vec<u8>)
    ensures
        r@ == encode_scalar(c as u32),
{
    let code: u32 = c as u32;
    let mut bytes: Vec<u8> = Vec::with_capacity(4);
    if code <= 0x7F {
        bytes.push((code & 0x7F) as u8);
    } else if code <= 0x7FF {
        bytes.push(0xC0 | ((code >> 6) & 0x1F) as u8);
        bytes.push(0x80 | (code & 0x3F) as u8);
    } else if code <= 0xFFFF {
        bytes.push(0xE0 | ((code >> 12) & 0x0F) as u8);
        bytes.push(0x80 | ((code >> 6) & 0x3F) as u8);
        bytes.push(0x80 | (code & 0x3F) as u8);
    } else {
        bytes.push(0xF0 | ((code >> 18) & 0x7) as u8);
        bytes.push(0x80 | ((code >> 12) & 0x3F) as u8);
        bytes.push(0x80 | ((code >> 6) & 0x3F) as u8);
        bytes.push(0x80 | (code & 0x3F) as u8);
    }
    assert(bytes@ =~= encode_scalar(code));
    bytes
}

/// Returns the length of the UTF-8 representation of `c`.
fn utf8_len(c: char) -> (r: usize)
    ensures
        r == encode_scalar(c as u32).len(),
{
    let code: u32 = c as u32;
    if code <= 0x7F {
        1
    } else if code <= 0x7FF {
        2
    } else if code <= 0xFFFF {
        3
    } else {
        4
    }
}

impl Encode for char {
    open spec fn wire(&self) -> Seq<Seq<u8>> {
        seq![encode_scalar(*self as u32)]
    }

    open spec fn size_hint(&self) -> nat {
        encode_scalar(*self as u32).len()
    }

    fn encode<B: EncodeBearer>(bearer: &mut B, src: &Self) -> (r: Result<(), EncodeError>) {
        let bytes = utf8_bytes(*src);
        write_chunk(bearer, bytes.as_slice())
    }

    fn size_of(&self) -> (r: usize) {
        utf8_len(*self)
    }
}

/// How many bytes follow the `leading` one.
pub open spec fn following(leading: u8) -> Option<nat> {
    if leading <= 0x7F {
        Some(0)
    } else if 0xC0 <= leading <= 0xDF {
        Some(1)
    } else if 0xE0 <= leading <= 0xEF {
        Some(2)
    } else if 0xF0 <= leading <= 0xF7 {
        Some(3)
    } else {
        None
    }
}

/// The character of a `leading` byte and those that follow it.
///
/// Encodings longer than necessary are admitted.
pub open spec fn char_of(leading: u8, remaining: Seq<u8>) -> Option<char> {
    let code = if remaining.len() == 1 {
        codepoint_width_2(leading, remaining[0])
    } else if remaining.len() == 2 {
        codepoint_width_3(leading, remaining[0], remaining[1])
    } else {
        codepoint_width_4(leading, remaining[0], remaining[1], remaining[2])
    };
    if (forall|i: int| 0 <= i < remaining.len() ==> is_continuation_byte(#[trigger] remaining[i]))
        && is_scalar(code) {
        Some(code as char)
    } else {
        None
    }
}

/// Decodes bytes into a UTF-8 character.
pub fn decode_char_from_bytes(leading: u8, remaining: &[u8]) -> (r: Option<char>)
    requires
        1 <= remaining@.len() <= 3,
    ensures
        r == char_of(leading, remaining@),
{
    let mut at: usize = 0;
    while at < remaining.len()
        invariant
            at <= remaining@.len(),
            forall|i: int| 0 <= i < at ==> is_continuation_byte(#[trigger] remaining@[i]),
        decreases remaining@.len() - at,
    {
        if remaining[at] < 0x80 || remaining[at] > 0xBF {
            assert(!is_continuation_byte(remaining@[at as int]));
            return None;
        }
        at = at + 1;
    }
    let code: u32 = if remaining.len() == 1 {
        (((leading & 0x1F) as u32) << 6) | ((remaining[0] & 0x3F) as u32)
    } else if remaining.len() == 2 {
        (((leading & 0x0F) as u32) << 12) | (((remaining[0] & 0x3F) as u32) << 6) | ((remaining[1]
            & 0x3F) as u32)
    } else {
        (((leading & 0x07) as u32) << 18) | (((remaining[0] & 0x3F) as u32) << 12) | (((remaining[1]
            & 0x3F) as u32) << 6) | ((remaining[2] & 0x3F) as u32)
    };
    let r = char::from_u32(code);
    proof {
        if r is Some {
            char_u32_cast(r->0, code);
        }
    }
    r
}

impl Decode for char {
    /// The leading byte tells how many bytes follow.
    open spec fn decoding(feed: Feed) -> (Result<char, DecodeError>, Feed) {
        match u8::decoding(feed) {
            (Err(e), feed) => (Err(e), feed),
            (Ok(leading), feed) => match following(leading) {
                None => (Err(DecodeError::InvalidPattern), feed),
                Some(len) => if len == 0 {
                    (Ok(leading as char), feed)
                } else {
                    match feed.read(len) {
                        (Err(e), feed) => (Err(DecodeError::BearerError(e)), feed),
                        (Ok(remaining), feed) => match char_of(leading, remaining) {
                            Some(c) => (Ok(c), feed),
                            None => (Err(DecodeError::InvalidPattern), feed),
                        },
                    }
                },
            },
        }
    }

    fn decode<B: DecodeBearer>(bearer: &mut B) -> (r: Result<Self, DecodeError>) {
        let leading: u8 = match u8::decode(bearer) {
            Ok(leading) => leading,
            Err(e) => return Err(e),
        };
        let len: usize = if leading <= 0x7F {
            return Ok(leading as char);
        } else if 0xC0 <= leading && leading <= 0xDF {
            1
        } else if 0xE0 <= leading && leading <= 0xEF {
            2
        } else if 0xF0 <= leading && leading <= 0xF7 {
            3
        } else {
            return Err(DecodeError::InvalidPattern);
        };
        match bearer.read(len) {
            Ok(remaining) => match decode_char_from_bytes(leading, remaining) {
                Some(c) => Ok(c),
                None => Err(DecodeError::InvalidPattern),
            },
            Err(e) => Err(DecodeError::BearerError(e)),
        }
    }
}

proof fn lemma_width_1(c: u32)
    by (bit_vector)
    requires
        c <= 0x7F,
    ensures
        leading_byte_width_1(c) == c,
{
}

proof fn lemma_width_2(c: u32)
    by (bit_vector)
    requires
        has_width_2_encoding(c),
    ensures
        0xC0 <= leading_byte_width_2(c) <= 0xDF,
        is_continuation_byte(last_continuation_byte(c)),
        codepoint_width_2(leading_byte_width_2(c), last_continuation_byte(c)) == c,
{
}

proof fn lemma_width_3(c: u32)
    by (bit_vector)
    requires
        has_width_3_encoding(c),
    ensures
        0xE0 <= leading_byte_width_3(c) <= 0xEF,
        is_continuation_byte(second_last_continuation_byte(c)),
        is_continuation_byte(last_continuation_byte(c)),
        codepoint_width_3(
            leading_byte_width_3(c),
            second_last_continuation_byte(c),
            last_continuation_byte(c),
        ) == c,
{
}

proof fn lemma_width_4(c: u32)
    by (bit_vector)
    requires
        has_width_4_encoding(c),
    ensures
        0xF0 <= leading_byte_width_4(c) <= 0xF7,
        is_continuation_byte(third_last_continuation_byte(c)),
        is_continuation_byte(second_last_continuation_byte(c)),
        is_continuation_byte(last_continuation_byte(c)),
        codepoint_width_4(
            leading_byte_width_4(c),
            third_last_continuation_byte(c),
            second_last_continuation_byte(c),
            last_continuation_byte(c),
        ) == c,
{
}

/// The bytes of a character are interpreted as that character.
pub proof fn lemma_char_of(c: char)
    ensures
        ({
            let bytes = encode_scalar(c as u32);
            &&& 1 <= bytes.len() <= 4
            &&& following(bytes[0]) == Some((bytes.len() - 1) as nat)
            &&& bytes.len() == 1 ==> bytes[0] as char == c
            &&& bytes.len() > 1 ==> char_of(bytes[0], bytes.skip(1)) == Some(c)
        }),
{
    let code = c as u32;
    let bytes = encode_scalar(code);
    if code <= 0x7F {
        lemma_width_1(code);
    } else if code <= 0x7FF {
        lemma_width_2(code);
        assert(bytes.skip(1) =~= seq![last_continuation_byte(code)]);
    } else if code <= 0xFFFF {
        lemma_width_3(code);
        assert(bytes.skip(1) =~= seq![
            second_last_continuation_byte(code),
            last_continuation_byte(code),
        ]);
    } else {
        lemma_width_4(code);
        assert(bytes.skip(1) =~= seq![
            third_last_continuation_byte(code),
            second_last_continuation_byte(code),
            last_continuation_byte(code),
        ]);
    }
}

impl Codec for char {
    open spec fn faithful(&self) -> bool {
        true
    }

    proof fn law_chunks_within(&self) {
        lemma_char_of(*self);
    }

    proof fn law_round_trip(&self, feed: Feed, tail: Tail) {
        let bytes = encode_scalar(*self as u32);
        lemma_char_of(*self);
        lemma_take_one(tail, bytes);
        lemma_read_parts(feed, tail, bytes, 1);
        assert(bytes.take(1).skip(1) =~= Seq::empty());
        assert(crate::little_endian::le_value(bytes.take(1)) == bytes[0]) by {
            reveal_with_fuel(crate::little_endian::le_value, 2);
        }
        if bytes.len() == 1 {
            lemma_read_chunk(feed, tail, bytes);
            assert(bytes.take(1) =~= bytes);
        }
    }
}

} // verus!

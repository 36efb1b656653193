//! What characters are decoded from.

use vstd::prelude::*;
use vstd::utf8::{
    char_u32_cast,
    codepoint_width_2,
    codepoint_width_3,
    codepoint_width_4,
};

use crate::codec::character::{char_of, decode_char_from_bytes};
use crate::decode::{Decode, DecodeError};
use crate::stream::Feed;

verus! {

proof fn lemma_width_2_sum(a: u8, b: u8)
    by (bit_vector)
    ensures
        codepoint_width_2(a, b) == (a % 32) as u32 * 64 + (b % 64) as u32,
{
}

proof fn lemma_width_3_sum(a: u8, b: u8, c: u8)
    by (bit_vector)
    ensures
        codepoint_width_3(a, b, c) == (a % 16) as u32 * 4096 + (b % 64) as u32 * 64 + (c
            % 64) as u32,
{
}

proof fn lemma_width_4_sum(a: u8, b: u8, c: u8, d: u8)
    by (bit_vector)
    ensures
        codepoint_width_4(a, b, c, d) == (a % 8) as u32 * 262144 + (b % 64) as u32 * 4096 + (c
            % 64) as u32 * 64 + (d % 64) as u32,
{
}

/// Bytes make a character if those following the leading one are between 0x80 and 0xBF and
/// the number they make up is that of a character, which is the one returned.
///
/// The number is made up of the lower five, four or three bits of the leading byte and the
/// lower six bits of each of the others, the first being the most significant.
pub proof fn law_character(leading: u8, remaining: &[u8], r: Option<char>)
    requires
        1 <= remaining@.len() <= 3,
        call_ensures(decode_char_from_bytes, (leading, remaining), r),
    ensures
        ({
            let bytes = remaining@;
            let code: int = if bytes.len() == 1 {
                (leading % 32) * 64 + bytes[0] % 64
            } else if bytes.len() == 2 {
                (leading % 16) * 4096 + (bytes[0] % 64) * 64 + bytes[1] % 64
            } else {
                (leading % 8) * 262144 + (bytes[0] % 64) * 4096 + (bytes[1] % 64) * 64 + bytes[2]
                    % 64
            };
            let marked = forall|i: int|
                0 <= i < bytes.len() ==> 0x80 <= #[trigger] bytes[i] <= 0xBF;
            &&& r is Some <==> marked && (code < 0xD800 || 0xE000 <= code <= 0x10FFFF)
            &&& r is Some ==> r->0 as u32 == code
        }),
{
    let bytes = remaining@;
    if bytes.len() == 1 {
        lemma_width_2_sum(leading, bytes[0]);
    } else if bytes.len() == 2 {
        lemma_width_3_sum(leading, bytes[0], bytes[1]);
    } else {
        lemma_width_4_sum(leading, bytes[0], bytes[1], bytes[2]);
    }
    if let Some(c) = r {
        char_u32_cast(c, c as u32);
    }
}

proof fn lemma_read_len(feed: Feed, n: nat)
    requires
        feed.cursor <= feed.curr.bytes.len(),
    ensures
        feed.read(n).0 is Ok ==> feed.read(n).0->Ok_0.len() == n,
        feed.read(n).1.cursor <= feed.read(n).1.curr.bytes.len(),
{
}

/// A byte below 0x80 is a character. From 0xC0, 0xE0 and 0xF0 on it leads one, two and three
/// more. Other bytes do not start a character.
pub proof fn law_character_decoding(feed: Feed)
    requires
        feed.ready(),
    ensures
        match u8::decoding(feed) {
            (Err(e), after) => char::decoding(feed) == (Err::<char, DecodeError>(e), after),
            (Ok(leading), after) => {
                let more: nat = if 0xF0 <= leading {
                    3
                } else if 0xE0 <= leading {
                    2
                } else {
                    1
                };
                if leading < 0x80 {
                    char::decoding(feed) == (Ok::<char, DecodeError>(leading as char), after)
                } else if leading < 0xC0 || leading > 0xF7 {
                    char::decoding(feed) == (
                        Err::<char, DecodeError>(DecodeError::InvalidPattern),
                        after,
                    )
                } else {
                    match after.read(more) {
                        (Err(e), left) => char::decoding(feed) == (
                            Err::<char, DecodeError>(DecodeError::BearerError(e)),
                            left,
                        ),
                        (Ok(remaining), left) => {
                            &&& remaining.len() == more
                            &&& char::decoding(feed).1 == left
                            &&& match char_of(leading, remaining) {
                                Some(c) => char::decoding(feed).0 == Ok::<char, DecodeError>(c),
                                None => char::decoding(feed).0 == Err::<char, DecodeError>(
                                    DecodeError::InvalidPattern,
                                ),
                            }
                        },
                    }
                }
            },
        },
{
    lemma_read_len(feed, 1);
    if let (Ok(leading), after) = u8::decoding(feed) {
        let more: nat = if 0xF0 <= leading {
            3
        } else if 0xE0 <= leading {
            2
        } else {
            1
        };
        lemma_read_len(after, more);
    }
}

} // verus!

//! How integers are stored: in as many bytes as they have, pointer-sized ones in eight, the
//! least significant byte first, negative ones in two's complement.

use vstd::prelude::*;

use super::regions::law_feed_read;
use crate::codec::integer::complement;
use crate::codec::Codec;
use crate::decode::{Data, Decode, DecodeError};
use crate::encode::Encode;
use crate::little_endian::{
    le_bytes,
    le_value,
    lemma_le_bytes_len,
    lemma_le_bytes_of_value,
    lemma_span_values,
};
use crate::stream::Feed;

verus! {

/// A `u8` is stored as the 1 byte of its value and always comes back.
pub proof fn law_u8(value: u8, feed: Feed)
    requires
        feed.ready(),
    ensures
        value.value() == value,
        value.faithful(),
        value.wire() == seq![le_bytes(value as nat, 1)],
        value.wire()[0].len() == 1,
        value.size_hint() == 1,
        match feed.read(1) {
            (Ok(bytes), after) => {
                &&& u8::decoding(feed).0 == Ok::<u8, DecodeError>(le_value(bytes) as u8)
                &&& le_value(bytes) <= u8::MAX
                &&& u8::decoding(feed).1 == after
            },
            (Err(e), after) => u8::decoding(feed) == (
                Err::<u8, DecodeError>(DecodeError::BearerError(e)),
                after,
            ),
        },
{
    lemma_le_bytes_len(value as nat, 1);
    lemma_span_values();
    law_feed_read(feed, 1);
    if let Ok(bytes) = feed.read(1).0 {
        lemma_le_bytes_of_value(bytes);
    }
}

/// A `u16` is stored as the 2 bytes of its value and always comes back.
pub proof fn law_u16(value: u16, feed: Feed)
    requires
        feed.ready(),
    ensures
        value.value() == value,
        value.faithful(),
        value.wire() == seq![le_bytes(value as nat, 2)],
        value.wire()[0].len() == 2,
        value.size_hint() == 2,
        match feed.read(2) {
            (Ok(bytes), after) => {
                &&& u16::decoding(feed).0 == Ok::<u16, DecodeError>(le_value(bytes) as u16)
                &&& le_value(bytes) <= u16::MAX
                &&& u16::decoding(feed).1 == after
            },
            (Err(e), after) => u16::decoding(feed) == (
                Err::<u16, DecodeError>(DecodeError::BearerError(e)),
                after,
            ),
        },
{
    lemma_le_bytes_len(value as nat, 2);
    lemma_span_values();
    law_feed_read(feed, 2);
    if let Ok(bytes) = feed.read(2).0 {
        lemma_le_bytes_of_value(bytes);
    }
}

/// A `u32` is stored as the 4 bytes of its value and always comes back.
pub proof fn law_u32(value: u32, feed: Feed)
    requires
        feed.ready(),
    ensures
        value.value() == value,
        value.faithful(),
        value.wire() == seq![le_bytes(value as nat, 4)],
        value.wire()[0].len() == 4,
        value.size_hint() == 4,
        match feed.read(4) {
            (Ok(bytes), after) => {
                &&& u32::decoding(feed).0 == Ok::<u32, DecodeError>(le_value(bytes) as u32)
                &&& le_value(bytes) <= u32::MAX
                &&& u32::decoding(feed).1 == after
            },
            (Err(e), after) => u32::decoding(feed) == (
                Err::<u32, DecodeError>(DecodeError::BearerError(e)),
                after,
            ),
        },
{
    lemma_le_bytes_len(value as nat, 4);
    lemma_span_values();
    law_feed_read(feed, 4);
    if let Ok(bytes) = feed.read(4).0 {
        lemma_le_bytes_of_value(bytes);
    }
}

/// A `u64` is stored as the 8 bytes of its value and always comes back.
pub proof fn law_u64(value: u64, feed: Feed)
    requires
        feed.ready(),
    ensures
        value.value() == value,
        value.faithful(),
        value.wire() == seq![le_bytes(value as nat, 8)],
        value.wire()[0].len() == 8,
        value.size_hint() == 8,
        match feed.read(8) {
            (Ok(bytes), after) => {
                &&& u64::decoding(feed).0 == Ok::<u64, DecodeError>(le_value(bytes) as u64)
                &&& le_value(bytes) <= u64::MAX
                &&& u64::decoding(feed).1 == after
            },
            (Err(e), after) => u64::decoding(feed) == (
                Err::<u64, DecodeError>(DecodeError::BearerError(e)),
                after,
            ),
        },
{
    lemma_le_bytes_len(value as nat, 8);
    lemma_span_values();
    law_feed_read(feed, 8);
    if let Ok(bytes) = feed.read(8).0 {
        lemma_le_bytes_of_value(bytes);
    }
}

/// A `u128` is stored as the 16 bytes of its value and always comes back.
pub proof fn law_u128(value: u128, feed: Feed)
    requires
        feed.ready(),
    ensures
        value.value() == value,
        value.faithful(),
        value.wire() == seq![le_bytes(value as nat, 16)],
        value.wire()[0].len() == 16,
        value.size_hint() == 16,
        match feed.read(16) {
            (Ok(bytes), after) => {
                &&& u128::decoding(feed).0 == Ok::<u128, DecodeError>(le_value(bytes) as u128)
                &&& le_value(bytes) <= u128::MAX
                &&& u128::decoding(feed).1 == after
            },
            (Err(e), after) => u128::decoding(feed) == (
                Err::<u128, DecodeError>(DecodeError::BearerError(e)),
                after,
            ),
        },
{
    lemma_le_bytes_len(value as nat, 16);
    lemma_span_values();
    law_feed_read(feed, 16);
    if let Ok(bytes) = feed.read(16).0 {
        lemma_le_bytes_of_value(bytes);
    }
}

/// A `usize` is stored as the 8 bytes of its value and always comes back.
pub proof fn law_usize(value: usize, feed: Feed)
    requires
        feed.ready(),
    ensures
        value.value() == value,
        value.faithful(),
        value.wire() == seq![le_bytes(value as nat, 8)],
        value.wire()[0].len() == 8,
        value.size_hint() == 8,
        match feed.read(8) {
            (Ok(bytes), after) => {
                &&& usize::decoding(feed).0 == Ok::<usize, DecodeError>(le_value(bytes) as usize)
                &&& le_value(bytes) < 0x1_0000_0000_0000_0000
                &&& usize::decoding(feed).1 == after
            },
            (Err(e), after) => usize::decoding(feed) == (
                Err::<usize, DecodeError>(DecodeError::BearerError(e)),
                after,
            ),
        },
{
    lemma_le_bytes_len(value as nat, 8);
    lemma_span_values();
    law_feed_read(feed, 8);
    if let Ok(bytes) = feed.read(8).0 {
        lemma_le_bytes_of_value(bytes);
    }
}

/// An `i8` is stored as the 1 byte of its value, in two's complement if it is negative,
/// and always comes back.
pub proof fn law_i8(value: i8, feed: Feed)
    requires
        feed.ready(),
    ensures
        value.value() == value,
        value.faithful(),
        value >= 0 ==> value.wire() == seq![le_bytes(value as nat, 1)],
        value < 0 ==> value.wire() == seq![
            le_bytes((value as int + 0x100) as nat, 1),
        ],
        value.wire()[0].len() == 1,
        value.size_hint() == 1,
        match feed.read(1) {
            (Ok(bytes), after) => {
                let number = le_value(bytes);
                &&& i8::decoding(feed).1 == after
                &&& number < 0x100
                &&& 2 * number < 0x100 ==> i8::decoding(feed).0
                    == Ok::<i8, DecodeError>(number as i8)
                &&& 2 * number >= 0x100 ==> i8::decoding(feed).0
                    == Ok::<i8, DecodeError>((number - 0x100) as i8)
            },
            (Err(e), after) => i8::decoding(feed) == (
                Err::<i8, DecodeError>(DecodeError::BearerError(e)),
                after,
            ),
        },
{
    lemma_span_values();
    lemma_le_bytes_len(complement(value as int, 1), 1);
    law_feed_read(feed, 1);
    if let Ok(bytes) = feed.read(1).0 {
        lemma_le_bytes_of_value(bytes);
    }
}

/// An `i16` is stored as the 2 bytes of its value, in two's complement if it is negative,
/// and always comes back.
pub proof fn law_i16(value: i16, feed: Feed)
    requires
        feed.ready(),
    ensures
        value.value() == value,
        value.faithful(),
        value >= 0 ==> value.wire() == seq![le_bytes(value as nat, 2)],
        value < 0 ==> value.wire() == seq![
            le_bytes((value as int + 0x1_0000) as nat, 2),
        ],
        value.wire()[0].len() == 2,
        value.size_hint() == 2,
        match feed.read(2) {
            (Ok(bytes), after) => {
                let number = le_value(bytes);
                &&& i16::decoding(feed).1 == after
                &&& number < 0x1_0000
                &&& 2 * number < 0x1_0000 ==> i16::decoding(feed).0
                    == Ok::<i16, DecodeError>(number as i16)
                &&& 2 * number >= 0x1_0000 ==> i16::decoding(feed).0
                    == Ok::<i16, DecodeError>((number - 0x1_0000) as i16)
            },
            (Err(e), after) => i16::decoding(feed) == (
                Err::<i16, DecodeError>(DecodeError::BearerError(e)),
                after,
            ),
        },
{
    lemma_span_values();
    lemma_le_bytes_len(complement(value as int, 2), 2);
    law_feed_read(feed, 2);
    if let Ok(bytes) = feed.read(2).0 {
        lemma_le_bytes_of_value(bytes);
    }
}

/// An `i32` is stored as the 4 bytes of its value, in two's complement if it is negative,
/// and always comes back.
pub proof fn law_i32(value: i32, feed: Feed)
    requires
        feed.ready(),
    ensures
        value.value() == value,
        value.faithful(),
        value >= 0 ==> value.wire() == seq![le_bytes(value as nat, 4)],
        value < 0 ==> value.wire() == seq![
            le_bytes((value as int + 0x1_0000_0000) as nat, 4),
        ],
        value.wire()[0].len() == 4,
        value.size_hint() == 4,
        match feed.read(4) {
            (Ok(bytes), after) => {
                let number = le_value(bytes);
                &&& i32::decoding(feed).1 == after
                &&& number < 0x1_0000_0000
                &&& 2 * number < 0x1_0000_0000 ==> i32::decoding(feed).0
                    == Ok::<i32, DecodeError>(number as i32)
                &&& 2 * number >= 0x1_0000_0000 ==> i32::decoding(feed).0
                    == Ok::<i32, DecodeError>((number - 0x1_0000_0000) as i32)
            },
            (Err(e), after) => i32::decoding(feed) == (
                Err::<i32, DecodeError>(DecodeError::BearerError(e)),
                after,
            ),
        },
{
    lemma_span_values();
    lemma_le_bytes_len(complement(value as int, 4), 4);
    law_feed_read(feed, 4);
    if let Ok(bytes) = feed.read(4).0 {
        lemma_le_bytes_of_value(bytes);
    }
}

/// An `i64` is stored as the 8 bytes of its value, in two's complement if it is negative,
/// and always comes back.
pub proof fn law_i64(value: i64, feed: Feed)
    requires
        feed.ready(),
    ensures
        value.value() == value,
        value.faithful(),
        value >= 0 ==> value.wire() == seq![le_bytes(value as nat, 8)],
        value < 0 ==> value.wire() == seq![
            le_bytes((value as int + 0x1_0000_0000_0000_0000) as nat, 8),
        ],
        value.wire()[0].len() == 8,
        value.size_hint() == 8,
        match feed.read(8) {
            (Ok(bytes), after) => {
                let number = le_value(bytes);
                &&& i64::decoding(feed).1 == after
                &&& number < 0x1_0000_0000_0000_0000
                &&& 2 * number < 0x1_0000_0000_0000_0000 ==> i64::decoding(feed).0
                    == Ok::<i64, DecodeError>(number as i64)
                &&& 2 * number >= 0x1_0000_0000_0000_0000 ==> i64::decoding(feed).0
                    == Ok::<i64, DecodeError>((number - 0x1_0000_0000_0000_0000) as i64)
            },
            (Err(e), after) => i64::decoding(feed) == (
                Err::<i64, DecodeError>(DecodeError::BearerError(e)),
                after,
            ),
        },
{
    lemma_span_values();
    lemma_le_bytes_len(complement(value as int, 8), 8);
    law_feed_read(feed, 8);
    if let Ok(bytes) = feed.read(8).0 {
        lemma_le_bytes_of_value(bytes);
    }
}

/// An `i128` is stored as the 16 bytes of its value, in two's complement if it is negative,
/// and always comes back.
pub proof fn law_i128(value: i128, feed: Feed)
    requires
        feed.ready(),
    ensures
        value.value() == value,
        value.faithful(),
        value >= 0 ==> value.wire() == seq![le_bytes(value as nat, 16)],
        value < 0 ==> value.wire() == seq![
            le_bytes((value as int + 0x1_0000_0000_0000_0000_0000_0000_0000_0000) as nat, 16),
        ],
        value.wire()[0].len() == 16,
        value.size_hint() == 16,
        match feed.read(16) {
            (Ok(bytes), after) => {
                let number = le_value(bytes);
                &&& i128::decoding(feed).1 == after
                &&& number < 0x1_0000_0000_0000_0000_0000_0000_0000_0000
                &&& 2 * number < 0x1_0000_0000_0000_0000_0000_0000_0000_0000 ==> i128::decoding(feed).0
                    == Ok::<i128, DecodeError>(number as i128)
                &&& 2 * number >= 0x1_0000_0000_0000_0000_0000_0000_0000_0000 ==> i128::decoding(feed).0
                    == Ok::<i128, DecodeError>((number - 0x1_0000_0000_0000_0000_0000_0000_0000_0000) as i128)
            },
            (Err(e), after) => i128::decoding(feed) == (
                Err::<i128, DecodeError>(DecodeError::BearerError(e)),
                after,
            ),
        },
{
    lemma_span_values();
    lemma_le_bytes_len(complement(value as int, 16), 16);
    law_feed_read(feed, 16);
    if let Ok(bytes) = feed.read(16).0 {
        lemma_le_bytes_of_value(bytes);
    }
}

/// An `isize` is stored as the 8 bytes of its value, in two's complement if it is negative,
/// and always comes back.
pub proof fn law_isize(value: isize, feed: Feed)
    requires
        feed.ready(),
    ensures
        value.value() == value,
        value.faithful(),
        value >= 0 ==> value.wire() == seq![le_bytes(value as nat, 8)],
        value < 0 ==> value.wire() == seq![
            le_bytes((value as int + 0x1_0000_0000_0000_0000) as nat, 8),
        ],
        value.wire()[0].len() == 8,
        value.size_hint() == 8,
        match feed.read(8) {
            (Ok(bytes), after) => {
                let number = le_value(bytes);
                &&& isize::decoding(feed).1 == after
                &&& number < 0x1_0000_0000_0000_0000
                &&& 2 * number < 0x1_0000_0000_0000_0000 ==> isize::decoding(feed).0
                    == Ok::<isize, DecodeError>(number as isize)
                &&& 2 * number >= 0x1_0000_0000_0000_0000 ==> isize::decoding(feed).0
                    == Ok::<isize, DecodeError>((number - 0x1_0000_0000_0000_0000) as isize)
            },
            (Err(e), after) => isize::decoding(feed) == (
                Err::<isize, DecodeError>(DecodeError::BearerError(e)),
                after,
            ),
        },
{
    lemma_span_values();
    lemma_le_bytes_len(complement(value as int, 8), 8);
    law_feed_read(feed, 8);
    if let Ok(bytes) = feed.read(8).0 {
        lemma_le_bytes_of_value(bytes);
    }
}

} // verus!

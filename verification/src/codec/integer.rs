//! Implementations for integers, which are stored in little-endian byte order.
//! Pointer-sized integers take 8 bytes.

use vstd::prelude::*;

use super::{lemma_uint_round_trip, read_uint, uint_decoding, write_uint, Codec};
use crate::decode::{Data, Decode, DecodeBearer, DecodeError};
use crate::encode::{Encode, EncodeBearer, EncodeError};
use crate::laws::Tail;
use crate::little_endian::{le_bytes, lemma_le_bytes_len, lemma_span_values, span};
use crate::stream::Feed;

verus! {

/// Two's complement of `value` in `len` bytes.
pub open spec fn complement(value: int, len: nat) -> nat {
    if value < 0 {
        (value + span(len)) as nat
    } else {
        value as nat
    }
}

/// The number whose two's complement in `len` bytes is `value`.
pub open spec fn signed(value: nat, len: nat) -> int {
    if 2 * value >= span(len) {
        value - span(len)
    } else {
        value as int
    }
}

/// Two's complement is undone by reading it as such.
pub proof fn lemma_signed_complement(value: int, len: nat)
    requires
        -span(len) <= 2 * value < span(len),
    ensures
        complement(value, len) < span(len),
        signed(complement(value, len), len) == value,
{
}

/// Returns the greatest number of `len` bytes.
fn greatest(len: usize) -> (r: u128)
    requires
        len == 1 || len == 2 || len == 4 || len == 8 || len == 16,
    ensures
        r == span(len as nat) - 1,
{
    proof {
        lemma_span_values();
    }
    if len == 1 {
        0xFF
    } else if len == 2 {
        0xFFFF
    } else if len == 4 {
        0xFFFF_FFFF
    } else if len == 8 {
        0xFFFF_FFFF_FFFF_FFFF
    } else {
        u128::MAX
    }
}

/// Returns two's complement of `value` in `len` bytes.
pub fn to_complement(value: i128, len: usize) -> (r: u128)
    requires
        len == 1 || len == 2 || len == 4 || len == 8 || len == 16,
        -span(len as nat) <= 2 * value < span(len as nat),
    ensures
        r == complement(value as int, len as nat),
{
    proof {
        lemma_span_values();
    }
    if value < 0 {
        greatest(len) - (-(value + 1)) as u128
    } else {
        value as u128
    }
}

/// Returns the number whose two's complement in `len` bytes is `value`.
pub fn from_complement(value: u128, len: usize) -> (r: i128)
    requires
        len == 1 || len == 2 || len == 4 || len == 8 || len == 16,
        value < span(len as nat),
    ensures
        r == signed(value as nat, len as nat),
        -span(len as nat) <= 2 * r < span(len as nat),
{
    proof {
        lemma_span_values();
    }
    let greatest: u128 = greatest(len);
    if value > greatest / 2 {
        -((greatest - value) as i128) - 1
    } else {
        value as i128
    }
}

impl Data for u8 {
    type Value = u8;

    open spec fn value(&self) -> u8 {
        *self
    }
}

impl Encode for u8 {
    open spec fn wire(&self) -> Seq<Seq<u8>> {
        seq![le_bytes(*self as nat, 1)]
    }

    open spec fn size_hint(&self) -> nat {
        1
    }

    fn encode<B: EncodeBearer>(bearer: &mut B, src: &Self) -> (r: Result<(), EncodeError>) {
        write_uint(bearer, *src as u128, 1)
    }

    fn size_of(&self) -> (r: usize) {
        1
    }
}

impl Decode for u8 {
    open spec fn decoding(feed: Feed) -> (Result<u8, DecodeError>, Feed) {
        match uint_decoding(feed, 1) {
            (Ok(value), feed) => (Ok(value as u8), feed),
            (Err(e), feed) => (Err(e), feed),
        }
    }

    fn decode<B: DecodeBearer>(bearer: &mut B) -> (r: Result<Self, DecodeError>) {
        proof {
            lemma_span_values();
        }
        match read_uint(bearer, 1) {
            Ok(value) => Ok(value as u8),
            Err(e) => Err(e),
        }
    }
}

impl Codec for u8 {
    open spec fn faithful(&self) -> bool {
        true
    }

    proof fn law_chunks_within(&self) {
        lemma_le_bytes_len(*self as nat, 1);
    }

    proof fn law_round_trip(&self, feed: Feed, tail: Tail) {
        lemma_span_values();
        lemma_uint_round_trip(*self as nat, 1, feed, tail);
    }
}

impl Data for u16 {
    type Value = u16;

    open spec fn value(&self) -> u16 {
        *self
    }
}

impl Encode for u16 {
    open spec fn wire(&self) -> Seq<Seq<u8>> {
        seq![le_bytes(*self as nat, 2)]
    }

    open spec fn size_hint(&self) -> nat {
        2
    }

    fn encode<B: EncodeBearer>(bearer: &mut B, src: &Self) -> (r: Result<(), EncodeError>) {
        write_uint(bearer, *src as u128, 2)
    }

    fn size_of(&self) -> (r: usize) {
        2
    }
}

impl Decode for u16 {
    open spec fn decoding(feed: Feed) -> (Result<u16, DecodeError>, Feed) {
        match uint_decoding(feed, 2) {
            (Ok(value), feed) => (Ok(value as u16), feed),
            (Err(e), feed) => (Err(e), feed),
        }
    }

    fn decode<B: DecodeBearer>(bearer: &mut B) -> (r: Result<Self, DecodeError>) {
        proof {
            lemma_span_values();
        }
        match read_uint(bearer, 2) {
            Ok(value) => Ok(value as u16),
            Err(e) => Err(e),
        }
    }
}

impl Codec for u16 {
    open spec fn faithful(&self) -> bool {
        true
    }

    proof fn law_chunks_within(&self) {
        lemma_le_bytes_len(*self as nat, 2);
    }

    proof fn law_round_trip(&self, feed: Feed, tail: Tail) {
        lemma_span_values();
        lemma_uint_round_trip(*self as nat, 2, feed, tail);
    }
}

impl Data for u32 {
    type Value = u32;

    open spec fn value(&self) -> u32 {
        *self
    }
}

impl Encode for u32 {
    open spec fn wire(&self) -> Seq<Seq<u8>> {
        seq![le_bytes(*self as nat, 4)]
    }

    open spec fn size_hint(&self) -> nat {
        4
    }

    fn encode<B: EncodeBearer>(bearer: &mut B, src: &Self) -> (r: Result<(), EncodeError>) {
        write_uint(bearer, *src as u128, 4)
    }

    fn size_of(&self) -> (r: usize) {
        4
    }
}

impl Decode for u32 {
    open spec fn decoding(feed: Feed) -> (Result<u32, DecodeError>, Feed) {
        match uint_decoding(feed, 4) {
            (Ok(value), feed) => (Ok(value as u32), feed),
            (Err(e), feed) => (Err(e), feed),
        }
    }

    fn decode<B: DecodeBearer>(bearer: &mut B) -> (r: Result<Self, DecodeError>) {
        proof {
            lemma_span_values();
        }
        match read_uint(bearer, 4) {
            Ok(value) => Ok(value as u32),
            Err(e) => Err(e),
        }
    }
}

impl Codec for u32 {
    open spec fn faithful(&self) -> bool {
        true
    }

    proof fn law_chunks_within(&self) {
        lemma_le_bytes_len(*self as nat, 4);
    }

    proof fn law_round_trip(&self, feed: Feed, tail: Tail) {
        lemma_span_values();
        lemma_uint_round_trip(*self as nat, 4, feed, tail);
    }
}

impl Data for u64 {
    type Value = u64;

    open spec fn value(&self) -> u64 {
        *self
    }
}

impl Encode for u64 {
    open spec fn wire(&self) -> Seq<Seq<u8>> {
        seq![le_bytes(*self as nat, 8)]
    }

    open spec fn size_hint(&self) -> nat {
        8
    }

    fn encode<B: EncodeBearer>(bearer: &mut B, src: &Self) -> (r: Result<(), EncodeError>) {
        write_uint(bearer, *src as u128, 8)
    }

    fn size_of(&self) -> (r: usize) {
        8
    }
}

impl Decode for u64 {
    open spec fn decoding(feed: Feed) -> (Result<u64, DecodeError>, Feed) {
        match uint_decoding(feed, 8) {
            (Ok(value), feed) => (Ok(value as u64), feed),
            (Err(e), feed) => (Err(e), feed),
        }
    }

    fn decode<B: DecodeBearer>(bearer: &mut B) -> (r: Result<Self, DecodeError>) {
        proof {
            lemma_span_values();
        }
        match read_uint(bearer, 8) {
            Ok(value) => Ok(value as u64),
            Err(e) => Err(e),
        }
    }
}

impl Codec for u64 {
    open spec fn faithful(&self) -> bool {
        true
    }

    proof fn law_chunks_within(&self) {
        lemma_le_bytes_len(*self as nat, 8);
    }

    proof fn law_round_trip(&self, feed: Feed, tail: Tail) {
        lemma_span_values();
        lemma_uint_round_trip(*self as nat, 8, feed, tail);
    }
}

impl Data for u128 {
    type Value = u128;

    open spec fn value(&self) -> u128 {
        *self
    }
}

impl Encode for u128 {
    open spec fn wire(&self) -> Seq<Seq<u8>> {
        seq![le_bytes(*self as nat, 16)]
    }

    open spec fn size_hint(&self) -> nat {
        16
    }

    fn encode<B: EncodeBearer>(bearer: &mut B, src: &Self) -> (r: Result<(), EncodeError>) {
        write_uint(bearer, *src as u128, 16)
    }

    fn size_of(&self) -> (r: usize) {
        16
    }
}

impl Decode for u128 {
    open spec fn decoding(feed: Feed) -> (Result<u128, DecodeError>, Feed) {
        match uint_decoding(feed, 16) {
            (Ok(value), feed) => (Ok(value as u128), feed),
            (Err(e), feed) => (Err(e), feed),
        }
    }

    fn decode<B: DecodeBearer>(bearer: &mut B) -> (r: Result<Self, DecodeError>) {
        proof {
            lemma_span_values();
        }
        match read_uint(bearer, 16) {
            Ok(value) => Ok(value as u128),
            Err(e) => Err(e),
        }
    }
}

impl Codec for u128 {
    open spec fn faithful(&self) -> bool {
        true
    }

    proof fn law_chunks_within(&self) {
        lemma_le_bytes_len(*self as nat, 16);
    }

    proof fn law_round_trip(&self, feed: Feed, tail: Tail) {
        lemma_span_values();
        lemma_uint_round_trip(*self as nat, 16, feed, tail);
    }
}

impl Data for usize {
    type Value = usize;

    open spec fn value(&self) -> usize {
        *self
    }
}

impl Encode for usize {
    open spec fn wire(&self) -> Seq<Seq<u8>> {
        seq![le_bytes(*self as nat, 8)]
    }

    open spec fn size_hint(&self) -> nat {
        8
    }

    fn encode<B: EncodeBearer>(bearer: &mut B, src: &Self) -> (r: Result<(), EncodeError>) {
        write_uint(bearer, *src as u128, 8)
    }

    fn size_of(&self) -> (r: usize) {
        8
    }
}

impl Decode for usize {
    open spec fn decoding(feed: Feed) -> (Result<usize, DecodeError>, Feed) {
        match uint_decoding(feed, 8) {
            (Ok(value), feed) => (Ok(value as usize), feed),
            (Err(e), feed) => (Err(e), feed),
        }
    }

    fn decode<B: DecodeBearer>(bearer: &mut B) -> (r: Result<Self, DecodeError>) {
        proof {
            lemma_span_values();
        }
        match read_uint(bearer, 8) {
            Ok(value) => Ok(value as usize),
            Err(e) => Err(e),
        }
    }
}

impl Codec for usize {
    open spec fn faithful(&self) -> bool {
        true
    }

    proof fn law_chunks_within(&self) {
        lemma_le_bytes_len(*self as nat, 8);
    }

    proof fn law_round_trip(&self, feed: Feed, tail: Tail) {
        lemma_span_values();
        lemma_uint_round_trip(*self as nat, 8, feed, tail);
    }
}

impl Data for i8 {
    type Value = i8;

    open spec fn value(&self) -> i8 {
        *self
    }
}

impl Encode for i8 {
    open spec fn wire(&self) -> Seq<Seq<u8>> {
        seq![le_bytes(complement(*self as int, 1), 1)]
    }

    open spec fn size_hint(&self) -> nat {
        1
    }

    fn encode<B: EncodeBearer>(bearer: &mut B, src: &Self) -> (r: Result<(), EncodeError>) {
        proof {
            lemma_span_values();
        }
        write_uint(bearer, to_complement(*src as i128, 1), 1)
    }

    fn size_of(&self) -> (r: usize) {
        1
    }
}

impl Decode for i8 {
    open spec fn decoding(feed: Feed) -> (Result<i8, DecodeError>, Feed) {
        match uint_decoding(feed, 1) {
            (Ok(value), feed) => (Ok(signed(value, 1) as i8), feed),
            (Err(e), feed) => (Err(e), feed),
        }
    }

    fn decode<B: DecodeBearer>(bearer: &mut B) -> (r: Result<Self, DecodeError>) {
        proof {
            lemma_span_values();
        }
        match read_uint(bearer, 1) {
            Ok(value) => Ok(from_complement(value, 1) as i8),
            Err(e) => Err(e),
        }
    }
}

impl Codec for i8 {
    open spec fn faithful(&self) -> bool {
        true
    }

    proof fn law_chunks_within(&self) {
        lemma_le_bytes_len(complement(*self as int, 1), 1);
    }

    proof fn law_round_trip(&self, feed: Feed, tail: Tail) {
        lemma_span_values();
        lemma_uint_round_trip(complement(*self as int, 1), 1, feed, tail);
        lemma_signed_complement(*self as int, 1);
    }
}

impl Data for i16 {
    type Value = i16;

    open spec fn value(&self) -> i16 {
        *self
    }
}

impl Encode for i16 {
    open spec fn wire(&self) -> Seq<Seq<u8>> {
        seq![le_bytes(complement(*self as int, 2), 2)]
    }

    open spec fn size_hint(&self) -> nat {
        2
    }

    fn encode<B: EncodeBearer>(bearer: &mut B, src: &Self) -> (r: Result<(), EncodeError>) {
        proof {
            lemma_span_values();
        }
        write_uint(bearer, to_complement(*src as i128, 2), 2)
    }

    fn size_of(&self) -> (r: usize) {
        2
    }
}

impl Decode for i16 {
    open spec fn decoding(feed: Feed) -> (Result<i16, DecodeError>, Feed) {
        match uint_decoding(feed, 2) {
            (Ok(value), feed) => (Ok(signed(value, 2) as i16), feed),
            (Err(e), feed) => (Err(e), feed),
        }
    }

    fn decode<B: DecodeBearer>(bearer: &mut B) -> (r: Result<Self, DecodeError>) {
        proof {
            lemma_span_values();
        }
        match read_uint(bearer, 2) {
            Ok(value) => Ok(from_complement(value, 2) as i16),
            Err(e) => Err(e),
        }
    }
}

impl Codec for i16 {
    open spec fn faithful(&self) -> bool {
        true
    }

    proof fn law_chunks_within(&self) {
        lemma_le_bytes_len(complement(*self as int, 2), 2);
    }

    proof fn law_round_trip(&self, feed: Feed, tail: Tail) {
        lemma_span_values();
        lemma_uint_round_trip(complement(*self as int, 2), 2, feed, tail);
        lemma_signed_complement(*self as int, 2);
    }
}

impl Data for i32 {
    type Value = i32;

    open spec fn value(&self) -> i32 {
        *self
    }
}

impl Encode for i32 {
    open spec fn wire(&self) -> Seq<Seq<u8>> {
        seq![le_bytes(complement(*self as int, 4), 4)]
    }

    open spec fn size_hint(&self) -> nat {
        4
    }

    fn encode<B: EncodeBearer>(bearer: &mut B, src: &Self) -> (r: Result<(), EncodeError>) {
        proof {
            lemma_span_values();
        }
        write_uint(bearer, to_complement(*src as i128, 4), 4)
    }

    fn size_of(&self) -> (r: usize) {
        4
    }
}

impl Decode for i32 {
    open spec fn decoding(feed: Feed) -> (Result<i32, DecodeError>, Feed) {
        match uint_decoding(feed, 4) {
            (Ok(value), feed) => (Ok(signed(value, 4) as i32), feed),
            (Err(e), feed) => (Err(e), feed),
        }
    }

    fn decode<B: DecodeBearer>(bearer: &mut B) -> (r: Result<Self, DecodeError>) {
        proof {
            lemma_span_values();
        }
        match read_uint(bearer, 4) {
            Ok(value) => Ok(from_complement(value, 4) as i32),
            Err(e) => Err(e),
        }
    }
}

impl Codec for i32 {
    open spec fn faithful(&self) -> bool {
        true
    }

    proof fn law_chunks_within(&self) {
        lemma_le_bytes_len(complement(*self as int, 4), 4);
    }

    proof fn law_round_trip(&self, feed: Feed, tail: Tail) {
        lemma_span_values();
        lemma_uint_round_trip(complement(*self as int, 4), 4, feed, tail);
        lemma_signed_complement(*self as int, 4);
    }
}

impl Data for i64 {
    type Value = i64;

    open spec fn value(&self) -> i64 {
        *self
    }
}

impl Encode for i64 {
    open spec fn wire(&self) -> Seq<Seq<u8>> {
        seq![le_bytes(complement(*self as int, 8), 8)]
    }

    open spec fn size_hint(&self) -> nat {
        8
    }

    fn encode<B: EncodeBearer>(bearer: &mut B, src: &Self) -> (r: Result<(), EncodeError>) {
        proof {
            lemma_span_values();
        }
        write_uint(bearer, to_complement(*src as i128, 8), 8)
    }

    fn size_of(&self) -> (r: usize) {
        8
    }
}

impl Decode for i64 {
    open spec fn decoding(feed: Feed) -> (Result<i64, DecodeError>, Feed) {
        match uint_decoding(feed, 8) {
            (Ok(value), feed) => (Ok(signed(value, 8) as i64), feed),
            (Err(e), feed) => (Err(e), feed),
        }
    }

    fn decode<B: DecodeBearer>(bearer: &mut B) -> (r: Result<Self, DecodeError>) {
        proof {
            lemma_span_values();
        }
        match read_uint(bearer, 8) {
            Ok(value) => Ok(from_complement(value, 8) as i64),
            Err(e) => Err(e),
        }
    }
}

impl Codec for i64 {
    open spec fn faithful(&self) -> bool {
        true
    }

    proof fn law_chunks_within(&self) {
        lemma_le_bytes_len(complement(*self as int, 8), 8);
    }

    proof fn law_round_trip(&self, feed: Feed, tail: Tail) {
        lemma_span_values();
        lemma_uint_round_trip(complement(*self as int, 8), 8, feed, tail);
        lemma_signed_complement(*self as int, 8);
    }
}

impl Data for i128 {
    type Value = i128;

    open spec fn value(&self) -> i128 {
        *self
    }
}

impl Encode for i128 {
    open spec fn wire(&self) -> Seq<Seq<u8>> {
        seq![le_bytes(complement(*self as int, 16), 16)]
    }

    open spec fn size_hint(&self) -> nat {
        16
    }

    fn encode<B: EncodeBearer>(bearer: &mut B, src: &Self) -> (r: Result<(), EncodeError>) {
        proof {
            lemma_span_values();
        }
        write_uint(bearer, to_complement(*src as i128, 16), 16)
    }

    fn size_of(&self) -> (r: usize) {
        16
    }
}

impl Decode for i128 {
    open spec fn decoding(feed: Feed) -> (Result<i128, DecodeError>, Feed) {
        match uint_decoding(feed, 16) {
            (Ok(value), feed) => (Ok(signed(value, 16) as i128), feed),
            (Err(e), feed) => (Err(e), feed),
        }
    }

    fn decode<B: DecodeBearer>(bearer: &mut B) -> (r: Result<Self, DecodeError>) {
        proof {
            lemma_span_values();
        }
        match read_uint(bearer, 16) {
            Ok(value) => Ok(from_complement(value, 16) as i128),
            Err(e) => Err(e),
        }
    }
}

impl Codec for i128 {
    open spec fn faithful(&self) -> bool {
        true
    }

    proof fn law_chunks_within(&self) {
        lemma_le_bytes_len(complement(*self as int, 16), 16);
    }

    proof fn law_round_trip(&self, feed: Feed, tail: Tail) {
        lemma_span_values();
        lemma_uint_round_trip(complement(*self as int, 16), 16, feed, tail);
        lemma_signed_complement(*self as int, 16);
    }
}

impl Data for isize {
    type Value = isize;

    open spec fn value(&self) -> isize {
        *self
    }
}

impl Encode for isize {
    open spec fn wire(&self) -> Seq<Seq<u8>> {
        seq![le_bytes(complement(*self as int, 8), 8)]
    }

    open spec fn size_hint(&self) -> nat {
        8
    }

    fn encode<B: EncodeBearer>(bearer: &mut B, src: &Self) -> (r: Result<(), EncodeError>) {
        proof {
            lemma_span_values();
        }
        write_uint(bearer, to_complement(*src as i128, 8), 8)
    }

    fn size_of(&self) -> (r: usize) {
        8
    }
}

impl Decode for isize {
    open spec fn decoding(feed: Feed) -> (Result<isize, DecodeError>, Feed) {
        match uint_decoding(feed, 8) {
            (Ok(value), feed) => (Ok(signed(value, 8) as isize), feed),
            (Err(e), feed) => (Err(e), feed),
        }
    }

    fn decode<B: DecodeBearer>(bearer: &mut B) -> (r: Result<Self, DecodeError>) {
        proof {
            lemma_span_values();
        }
        match read_uint(bearer, 8) {
            Ok(value) => Ok(from_complement(value, 8) as isize),
            Err(e) => Err(e),
        }
    }
}

impl Codec for isize {
    open spec fn faithful(&self) -> bool {
        true
    }

    proof fn law_chunks_within(&self) {
        lemma_le_bytes_len(complement(*self as int, 8), 8);
    }

    proof fn law_round_trip(&self, feed: Feed, tail: Tail) {
        lemma_span_values();
        lemma_uint_round_trip(complement(*self as int, 8), 8, feed, tail);
        lemma_signed_complement(*self as int, 8);
    }
}

} // verus!

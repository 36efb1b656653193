//! [`Encode`] and [`Decode`] implementations for common types.

use vstd::prelude::*;

use crate::decode::{decoded, get, Data, Decode, DecodeBearer, DecodeError};
use crate::encode::{
    encoded,
    lemma_encoded_nothing,
    lemma_encoded_stop,
    lemma_encoded_then,
    write_chunk,
    Encode,
    EncodeBearer,
    EncodeError,
};
use crate::laws::{holds, lemma_read_chunk, lemma_take_all_add, lemma_take_one, Tail};
use crate::little_endian::{get_le, le_bytes, le_value, lemma_le_value_of_bytes, put_le, span};
use crate::region::REGION_SIZE;
use crate::stream::{within, Feed};

use core::marker::PhantomData;

pub mod character;
pub mod heap;
pub mod integer;
pub mod map;
pub mod seq;
pub mod tuple;

pub use character::decode_char_from_bytes;
pub(crate) use heap::string_from_utf8;
pub use map::{HashKey, OrdKey};

verus! {

/// Types whose values survive encoding.
pub trait Codec: Encode + Decode {
    /// Whether decoding restores this value. It always does, but for collections whose
    /// length exceeds what the format or the machine can hold.
    spec fn faithful(&self) -> bool;

    /// No chunk exceeds a region, so writing fails only if the destination does.
    proof fn law_chunks_within(&self)
        ensures
            within(self.wire()),
    ;

    /// Whoever has the chunks of a value before them decodes that value and nothing
    /// beyond it.
    proof fn law_round_trip(&self, feed: Feed, tail: Tail)
        requires
            self.faithful(),
            holds(feed, tail),
            tail.take_all(self.wire()) is Some,
        ensures
            Self::decoding(feed).0 == Ok::<Self::Value, DecodeError>(self.value()),
            holds(Self::decoding(feed).1, tail.take_all(self.wire())->0),
    ;
}

/// Interprets `len` bytes as a number.
pub open spec fn uint_decoding(feed: Feed, len: nat) -> (Result<nat, DecodeError>, Feed) {
    match feed.read(len) {
        (Ok(bytes), feed) => (Ok(le_value(bytes)), feed),
        (Err(e), feed) => (Err(DecodeError::BearerError(e)), feed),
    }
}

/// Writes the `len` least significant bytes of `value`.
pub fn write_uint<B: EncodeBearer>(bearer: &mut B, value: u128, len: usize) -> (r: Result<
    (),
    EncodeError,
>)
    requires
        old(bearer).inv(),
    ensures
        encoded(*old(bearer), *final(bearer), seq![le_bytes(value as nat, len as nat)], r),
{
    let bytes = put_le(value, len);
    write_chunk(bearer, bytes.as_slice())
}

/// Reads a number of `len` bytes.
pub fn read_uint<B: DecodeBearer>(bearer: &mut B, len: usize) -> (r: Result<u128, DecodeError>)
    requires
        old(bearer).inv(),
        len <= 16,
    ensures
        decoded(
            *old(bearer),
            *final(bearer),
            uint_decoding(old(bearer).feed(), len as nat),
            match r {
                Ok(value) => Ok(value as nat),
                Err(e) => Err(e),
            },
        ),
        r matches Ok(value) ==> value < span(len as nat),
{
    match bearer.read(len) {
        Ok(bytes) => Ok(get_le(bytes)),
        Err(e) => Err(DecodeError::BearerError(e)),
    }
}

/// A number of `len` bytes is read back as written.
pub proof fn lemma_uint_round_trip(value: nat, len: nat, feed: Feed, tail: Tail)
    requires
        value < span(len),
        holds(feed, tail),
        tail.take_all(seq![le_bytes(value, len)]) is Some,
    ensures
        uint_decoding(feed, len).0 == Ok::<nat, DecodeError>(value),
        holds(uint_decoding(feed, len).1, tail.take_all(seq![le_bytes(value, len)])->0),
{
    lemma_take_one(tail, le_bytes(value, len));
    lemma_le_value_of_bytes(value, len);
    lemma_read_chunk(feed, tail, le_bytes(value, len));
}

/// Chunks of two values one after the other have room if those of both have.
pub proof fn lemma_within_add(a: Seq<Seq<u8>>, b: Seq<Seq<u8>>)
    requires
        within(a),
        within(b),
    ensures
        within(a + b),
{
    assert forall|i: int| 0 <= i < (a + b).len() implies (#[trigger] (a + b)[i]).len()
        <= REGION_SIZE by {
        if i < a.len() {
            assert((a + b)[i] == a[i]);
        } else {
            assert((a + b)[i] == b[i - a.len()]);
        }
    }
}

// References

impl<T> Encode for &T where T: Encode {
    open spec fn wire(&self) -> Seq<Seq<u8>> {
        (**self).wire()
    }

    open spec fn size_hint(&self) -> nat {
        (**self).size_hint()
    }

    fn encode<B: EncodeBearer>(bearer: &mut B, src: &Self) -> (r: Result<(), EncodeError>) {
        T::encode(bearer, *src)
    }

    fn size_of(&self) -> (r: usize) {
        (**self).size_of()
    }
}

// Booleans, stored as a byte

impl Data for bool {
    type Value = bool;

    open spec fn value(&self) -> bool {
        *self
    }
}

/// The byte a flag is stored as.
pub open spec fn flag(set: bool) -> u8 {
    if set {
        1
    } else {
        0
    }
}

/// Writes the byte a flag is stored as.
fn write_flag<B: EncodeBearer>(bearer: &mut B, set: bool) -> (r: Result<(), EncodeError>)
    requires
        old(bearer).inv(),
    ensures
        encoded(*old(bearer), *final(bearer), flag(set).wire(), r),
{
    u8::encode(
        bearer,
        &(if set {
            1
        } else {
            0
        }),
    )
}

impl Encode for bool {
    open spec fn wire(&self) -> Seq<Seq<u8>> {
        flag(*self).wire()
    }

    open spec fn size_hint(&self) -> nat {
        1
    }

    fn encode<B: EncodeBearer>(bearer: &mut B, src: &Self) -> (r: Result<(), EncodeError>) {
        write_flag(bearer, *src)
    }

    fn size_of(&self) -> (r: usize) {
        1
    }
}

/// Interprets a byte as a flag.
pub open spec fn flag_decoding(feed: Feed) -> (Result<bool, DecodeError>, Feed) {
    match u8::decoding(feed) {
        (Ok(byte), feed) => if byte == 0 {
            (Ok(false), feed)
        } else if byte == 1 {
            (Ok(true), feed)
        } else {
            (Err(DecodeError::InvalidPattern), feed)
        },
        (Err(e), feed) => (Err(e), feed),
    }
}

impl Decode for bool {
    open spec fn decoding(feed: Feed) -> (Result<bool, DecodeError>, Feed) {
        flag_decoding(feed)
    }

    fn decode<B: DecodeBearer>(bearer: &mut B) -> (r: Result<Self, DecodeError>) {
        match u8::decode(bearer) {
            Ok(byte) => match byte {
                0 => Ok(false),
                1 => Ok(true),
                _ => Err(DecodeError::InvalidPattern),
            },
            Err(e) => Err(e),
        }
    }
}

impl Codec for bool {
    open spec fn faithful(&self) -> bool {
        true
    }

    proof fn law_chunks_within(&self) {
        flag(*self).law_chunks_within();
    }

    proof fn law_round_trip(&self, feed: Feed, tail: Tail) {
        flag(*self).law_round_trip(feed, tail);
    }
}

// Optional values, stored after a flag

impl<T: Data> Data for Option<T> {
    type Value = Option<T::Value>;

    open spec fn value(&self) -> Option<T::Value> {
        match self {
            Some(v) => Some(v.value()),
            None => None,
        }
    }
}

impl<T> Encode for Option<T> where T: Encode {
    open spec fn wire(&self) -> Seq<Seq<u8>> {
        match self {
            Some(v) => flag(true).wire() + v.wire(),
            None => flag(false).wire(),
        }
    }

    open spec fn size_hint(&self) -> nat {
        match self {
            Some(v) => 1 + v.size_hint(),
            None => 1,
        }
    }

    fn encode<B: EncodeBearer>(bearer: &mut B, src: &Self) -> (r: Result<(), EncodeError>) {
        let ghost first = *bearer;
        match src {
            Some(v) => {
                if let Err(e) = write_flag(bearer, true) {
                    proof {
                        lemma_encoded_stop(first, *bearer, flag(true).wire(), v.wire(), e);
                    }
                    return Err(e);
                }
                let ghost second = *bearer;
                let r = T::encode(bearer, v);
                proof {
                    lemma_encoded_then(
                        first,
                        second,
                        *bearer,
                        flag(true).wire(),
                        v.wire(),
                        r,
                    );
                }
                r
            },
            None => write_flag(bearer, false),
        }
    }

    fn size_of(&self) -> (r: usize) {
        match self {
            Some(v) => 1 + v.size_of(),
            None => 1,
        }
    }
}

impl<T> Decode for Option<T> where T: Decode {
    open spec fn decoding(feed: Feed) -> (Result<Option<T::Value>, DecodeError>, Feed) {
        match flag_decoding(feed) {
            (Ok(true), feed) => match T::decoding(feed) {
                (Ok(v), feed) => (Ok(Some(v)), feed),
                (Err(e), feed) => (Err(e), feed),
            },
            (Ok(false), feed) => (Ok(None), feed),
            (Err(e), feed) => (Err(e), feed),
        }
    }

    fn decode<B: DecodeBearer>(bearer: &mut B) -> (r: Result<Self, DecodeError>) {
        match bool::decode(bearer) {
            Ok(true) => match get(bearer) {
                Ok(v) => Ok(Some(v)),
                Err(e) => Err(e),
            },
            Ok(false) => Ok(None),
            Err(e) => Err(e),
        }
    }
}

impl<T> Codec for Option<T> where T: Codec {
    open spec fn faithful(&self) -> bool {
        match self {
            Some(v) => v.faithful(),
            None => true,
        }
    }

    proof fn law_chunks_within(&self) {
        match self {
            Some(v) => {
                flag(true).law_chunks_within();
                v.law_chunks_within();
                lemma_within_add(flag(true).wire(), v.wire());
            },
            None => {
                flag(false).law_chunks_within();
            },
        }
    }

    proof fn law_round_trip(&self, feed: Feed, tail: Tail) {
        match self {
            Some(v) => {
                lemma_take_all_add(tail, flag(true).wire(), v.wire());
                flag(true).law_round_trip(feed, tail);
                v.law_round_trip(
                    flag_decoding(feed).1,
                    tail.take_all(flag(true).wire())->0,
                );
            },
            None => {
                flag(false).law_round_trip(feed, tail);
            },
        }
    }
}

// Results, stored after a flag telling a value from an error

impl<T: Data, E: Data> Data for Result<T, E> {
    type Value = Result<T::Value, E::Value>;

    open spec fn value(&self) -> Result<T::Value, E::Value> {
        match self {
            Ok(v) => Ok(v.value()),
            Err(e) => Err(e.value()),
        }
    }
}

impl<T, E> Encode for Result<T, E> where T: Encode, E: Encode {
    open spec fn wire(&self) -> Seq<Seq<u8>> {
        match self {
            Ok(v) => flag(true).wire() + v.wire(),
            Err(e) => flag(false).wire() + e.wire(),
        }
    }

    /// The flag is not accounted for.
    open spec fn size_hint(&self) -> nat {
        match self {
            Ok(v) => v.size_hint(),
            Err(e) => e.size_hint(),
        }
    }

    fn encode<B: EncodeBearer>(bearer: &mut B, src: &Self) -> (r: Result<(), EncodeError>) {
        let ghost first = *bearer;
        let ghost tag = flag(src is Ok).wire();
        let ghost rest = match src {
            Ok(v) => v.wire(),
            Err(v) => v.wire(),
        };
        if let Err(e) = write_flag(bearer, src.is_ok()) {
            proof {
                lemma_encoded_stop(first, *bearer, tag, rest, e);
            }
            return Err(e);
        }
        let ghost second = *bearer;
        let r = match src {
            Ok(v) => T::encode(bearer, v),
            Err(v) => E::encode(bearer, v),
        };
        proof {
            lemma_encoded_then(first, second, *bearer, tag, rest, r);
        }
        r
    }

    fn size_of(&self) -> (r: usize) {
        match self {
            Ok(v) => v.size_of(),
            Err(e) => e.size_of(),
        }
    }
}

impl<T, E> Decode for Result<T, E> where T: Decode, E: Decode {
    open spec fn decoding(feed: Feed) -> (
        Result<Result<T::Value, E::Value>, DecodeError>,
        Feed,
    ) {
        match flag_decoding(feed) {
            (Ok(true), feed) => match T::decoding(feed) {
                (Ok(v), feed) => (Ok(Ok(v)), feed),
                (Err(e), feed) => (Err(e), feed),
            },
            (Ok(false), feed) => match E::decoding(feed) {
                (Ok(v), feed) => (Ok(Err(v)), feed),
                (Err(e), feed) => (Err(e), feed),
            },
            (Err(e), feed) => (Err(e), feed),
        }
    }

    fn decode<B: DecodeBearer>(bearer: &mut B) -> (r: Result<Self, DecodeError>) {
        match bool::decode(bearer) {
            Ok(true) => match get(bearer) {
                Ok(v) => Ok(Ok(v)),
                Err(e) => Err(e),
            },
            Ok(false) => match get(bearer) {
                Ok(v) => Ok(Err(v)),
                Err(e) => Err(e),
            },
            Err(e) => Err(e),
        }
    }
}

impl<T, E> Codec for Result<T, E> where T: Codec, E: Codec {
    open spec fn faithful(&self) -> bool {
        match self {
            Ok(v) => v.faithful(),
            Err(e) => e.faithful(),
        }
    }

    proof fn law_chunks_within(&self) {
        flag(true).law_chunks_within();
        flag(false).law_chunks_within();
        match self {
            Ok(v) => {
                v.law_chunks_within();
                lemma_within_add(flag(true).wire(), v.wire());
            },
            Err(e) => {
                e.law_chunks_within();
                lemma_within_add(flag(false).wire(), e.wire());
            },
        }
    }

    proof fn law_round_trip(&self, feed: Feed, tail: Tail) {
        let tag = flag(self is Ok);
        match self {
            Ok(v) => {
                lemma_take_all_add(tail, tag.wire(), v.wire());
                tag.law_round_trip(feed, tail);
                v.law_round_trip(flag_decoding(feed).1, tail.take_all(tag.wire())->0);
            },
            Err(v) => {
                lemma_take_all_add(tail, tag.wire(), v.wire());
                tag.law_round_trip(feed, tail);
                v.law_round_trip(flag_decoding(feed).1, tail.take_all(tag.wire())->0);
            },
        }
    }
}

// Types without contents, stored as nothing

impl<T> Data for PhantomData<T> {
    type Value = ();

    open spec fn value(&self) -> () {
        ()
    }
}

impl<T> Encode for PhantomData<T> {
    open spec fn wire(&self) -> Seq<Seq<u8>> {
        Seq::empty()
    }

    open spec fn size_hint(&self) -> nat {
        0
    }

    fn encode<B: EncodeBearer>(bearer: &mut B, src: &Self) -> (r: Result<(), EncodeError>) {
        proof {
            lemma_encoded_nothing(*bearer);
        }
        Ok(())
    }

    fn size_of(&self) -> (r: usize) {
        0
    }
}

impl<T> Decode for PhantomData<T> {
    open spec fn decoding(feed: Feed) -> (Result<(), DecodeError>, Feed) {
        (Ok(()), feed)
    }

    fn decode<B: DecodeBearer>(bearer: &mut B) -> (r: Result<Self, DecodeError>) {
        Ok(PhantomData)
    }
}

impl<T> Codec for PhantomData<T> {
    open spec fn faithful(&self) -> bool {
        true
    }

    proof fn law_chunks_within(&self) {
    }

    proof fn law_round_trip(&self, feed: Feed, tail: Tail) {
    }
}

impl Data for () {
    type Value = ();

    open spec fn value(&self) -> () {
        ()
    }
}

impl Encode for () {
    open spec fn wire(&self) -> Seq<Seq<u8>> {
        Seq::empty()
    }

    open spec fn size_hint(&self) -> nat {
        0
    }

    fn encode<B: EncodeBearer>(bearer: &mut B, src: &Self) -> (r: Result<(), EncodeError>) {
        proof {
            lemma_encoded_nothing(*bearer);
        }
        Ok(())
    }

    fn size_of(&self) -> (r: usize) {
        0
    }
}

impl Decode for () {
    open spec fn decoding(feed: Feed) -> (Result<(), DecodeError>, Feed) {
        (Ok(()), feed)
    }

    fn decode<B: DecodeBearer>(bearer: &mut B) -> (r: Result<Self, DecodeError>) {
        Ok(())
    }
}

impl Codec for () {
    open spec fn faithful(&self) -> bool {
        true
    }

    proof fn law_chunks_within(&self) {
    }

    proof fn law_round_trip(&self, feed: Feed, tail: Tail) {
    }
}

} // verus!

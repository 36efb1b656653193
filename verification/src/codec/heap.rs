//! Implementations for types which own heap allocations.

use vstd::prelude::*;
use vstd::utf8::{
    decode_utf8,
    encode_utf8,
    encode_utf8_decode_utf8,
    encode_utf8_valid_utf8,
    valid_utf8,
};

use super::seq::{
    countable,
    counted_chunks,
    counted_decoding,
    items_chunks,
    items_faithful,
    items_value,
    lemma_counted_round_trip,
    lemma_counted_within,
    lemma_items_chunks_next,
    lemma_items_chunks_split,
};
use super::{write_uint, Codec};
use crate::decode::{get, Data, Decode, DecodeBearer, DecodeError};
use crate::encode::{
    encoded,
    lemma_encoded_stop,
    lemma_encoded_then,
    Encode,
    EncodeBearer,
    EncodeError,
};
use crate::laws::Tail;
use crate::little_endian::le_bytes;
use crate::stream::Feed;

use std::collections::VecDeque;
use std::rc::Rc;
use std::sync::Arc;

verus! {

// Strings, stored as the bytes of their UTF-8 representation

impl Encode for str {
    open spec fn wire(&self) -> Seq<Seq<u8>> {
        counted_chunks(encode_utf8(self@))
    }

    open spec fn size_hint(&self) -> nat {
        encode_utf8(self@).len() + 4
    }

    fn encode<B: EncodeBearer>(bearer: &mut B, src: &Self) -> (r: Result<(), EncodeError>) {
        <[u8]>::encode(bearer, src.as_bytes())
    }

    fn size_of(&self) -> (r: usize) {
        self.as_bytes().len() + 4
    }
}

impl Data for String {
    type Value = Seq<char>;

    open spec fn value(&self) -> Seq<char> {
        self@
    }
}

impl Encode for String {
    open spec fn wire(&self) -> Seq<Seq<u8>> {
        counted_chunks(encode_utf8(self@))
    }

    open spec fn size_hint(&self) -> nat {
        encode_utf8(self@).len() + 4
    }

    fn encode<B: EncodeBearer>(bearer: &mut B, src: &Self) -> (r: Result<(), EncodeError>) {
        str::encode(bearer, src.as_str())
    }

    fn size_of(&self) -> (r: usize) {
        self.as_str().as_bytes().len() + 4
    }
}

/// Calls `String::from_utf8`, which succeeds if and only if the bytes are valid UTF-8,
/// in which case they are the representation of the string.
#[verifier::external_body]
pub(crate) fn string_from_utf8(bytes: Vec<u8>) -> (r: Option<String>)
    ensures
        r is Some <==> valid_utf8(bytes@),
        r matches Some(string) ==> encode_utf8(string@) == bytes@,
{
    String::from_utf8(bytes).ok()
}

impl Decode for String {
    open spec fn decoding(feed: Feed) -> (Result<Seq<char>, DecodeError>, Feed) {
        match counted_decoding::<u8>(feed) {
            (Ok(bytes), feed) => if valid_utf8(bytes) {
                (Ok(decode_utf8(bytes)), feed)
            } else {
                (Err(DecodeError::InvalidPattern), feed)
            },
            (Err(e), feed) => (Err(e), feed),
        }
    }

    fn decode<B: DecodeBearer>(bearer: &mut B) -> (r: Result<Self, DecodeError>) {
        let bytes: Vec<u8> = match get(bearer) {
            Ok(bytes) => bytes,
            Err(e) => return Err(e),
        };
        assert(bytes.value() =~= bytes@);
        match string_from_utf8(bytes) {
            Some(string) => {
                proof {
                    encode_utf8_decode_utf8(string@);
                }
                Ok(string)
            },
            None => Err(DecodeError::InvalidPattern),
        }
    }
}

impl Codec for String {
    open spec fn faithful(&self) -> bool {
        countable(encode_utf8(self@).len())
    }

    proof fn law_chunks_within(&self) {
        lemma_counted_within(encode_utf8(self@));
    }

    proof fn law_round_trip(&self, feed: Feed, tail: Tail) {
        let bytes = encode_utf8(self@);
        lemma_counted_round_trip(bytes, feed, tail);
        assert(items_value(bytes) =~= bytes);
        encode_utf8_valid_utf8(self@);
        encode_utf8_decode_utf8(self@);
    }
}

// Double-ended queues, stored as vectors

impl<T: Data> Data for VecDeque<T> {
    type Value = Seq<T::Value>;

    open spec fn value(&self) -> Seq<T::Value> {
        items_value(self@)
    }
}

impl<T> Encode for VecDeque<T> where T: Encode {
    open spec fn wire(&self) -> Seq<Seq<u8>> {
        counted_chunks(self@)
    }

    /// The size the items take in memory.
    open spec fn size_hint(&self) -> nat {
        self@.len() * vstd::layout::size_of::<T>()
    }

    fn encode<B: EncodeBearer>(bearer: &mut B, src: &Self) -> (r: Result<(), EncodeError>) {
        let ghost first = *bearer;
        let ghost count = seq![le_bytes(src@.len(), 4)];
        if let Err(e) = write_uint(bearer, src.len() as u128, 4) {
            proof {
                lemma_encoded_stop(first, *bearer, count, items_chunks(src@), e);
            }
            return Err(e);
        }
        let mut at: usize = 0;
        proof {
            assert(src@.take(0) =~= Seq::empty());
            assert(count + items_chunks(src@.take(0)) =~= count);
        }
        while at < src.len()
            invariant
                at <= src@.len(),
                first == *old(bearer),
                bearer.inv(),
                encoded(first, *bearer, count + items_chunks(src@.take(at as int)), Ok(())),
                count == seq![le_bytes(src@.len(), 4)],
            decreases src@.len() - at,
        {
            let ghost second = *bearer;
            let r = T::encode(bearer, &src[at]);
            proof {
                let done = items_chunks(src@.take(at as int));
                lemma_encoded_then(first, second, *bearer, count + done, src@[at as int].wire(), r);
                lemma_items_chunks_next(src@, at as int);
                assert(count + done + src@[at as int].wire() =~= count + items_chunks(
                    src@.take(at + 1),
                ));
            }
            if let Err(e) = r {
                proof {
                    let done = items_chunks(src@.take(at + 1));
                    let left = items_chunks(src@.skip(at + 1));
                    lemma_items_chunks_split(src@, at + 1);
                    lemma_encoded_stop(first, *bearer, count + done, left, e);
                    assert(count + done + left =~= count + items_chunks(src@));
                }
                return Err(e);
            }
            at = at + 1;
        }
        assert(src@.take(src@.len() as int) =~= src@);
        Ok(())
    }

    fn size_of(&self) -> (r: usize) {
        self.len() * core::mem::size_of::<T>()
    }
}

impl<T> Decode for VecDeque<T> where T: Decode {
    open spec fn decoding(feed: Feed) -> (Result<Seq<T::Value>, DecodeError>, Feed) {
        counted_decoding::<T>(feed)
    }

    fn decode<B: DecodeBearer>(bearer: &mut B) -> (r: Result<Self, DecodeError>) {
        let mut items: Vec<T> = match get(bearer) {
            Ok(items) => items,
            Err(e) => return Err(e),
        };
        let ghost all = items@;
        let mut deque: VecDeque<T> = VecDeque::with_capacity(items.len());
        while items.len() > 0
            invariant
                all == items@ + deque@,
            decreases items@.len(),
        {
            let ghost front = items@;
            let ghost back = deque@;
            if let Some(item) = items.pop() {
                deque.push_front(item);
                assert(front + back =~= items@ + deque@);
            }
        }
        assert(deque@ =~= all);
        Ok(deque)
    }
}

impl<T> Codec for VecDeque<T> where T: Codec {
    open spec fn faithful(&self) -> bool {
        countable(self@.len()) && items_faithful(self@)
    }

    proof fn law_chunks_within(&self) {
        lemma_counted_within(self@);
    }

    proof fn law_round_trip(&self, feed: Feed, tail: Tail) {
        lemma_counted_round_trip(self@, feed, tail);
    }
}

// Heap pointers, stored as what they point to

impl<T: Data + ?Sized> Data for Box<T> {
    type Value = T::Value;

    open spec fn value(&self) -> T::Value {
        (**self).value()
    }
}

impl<T> Encode for Box<T> where T: Encode + ?Sized {
    open spec fn wire(&self) -> Seq<Seq<u8>> {
        (**self).wire()
    }

    open spec fn size_hint(&self) -> nat {
        (**self).size_hint()
    }

    fn encode<B: EncodeBearer>(bearer: &mut B, src: &Self) -> (r: Result<(), EncodeError>) {
        T::encode(bearer, &**src)
    }

    fn size_of(&self) -> (r: usize) {
        (**self).size_of()
    }
}

impl<T> Decode for Box<T> where T: Decode {
    open spec fn decoding(feed: Feed) -> (Result<T::Value, DecodeError>, Feed) {
        T::decoding(feed)
    }

    fn decode<B: DecodeBearer>(bearer: &mut B) -> (r: Result<Self, DecodeError>) {
        match T::decode(bearer) {
            Ok(value) => Ok(Box::new(value)),
            Err(e) => Err(e),
        }
    }
}

impl<T> Codec for Box<T> where T: Codec {
    open spec fn faithful(&self) -> bool {
        (**self).faithful()
    }

    proof fn law_chunks_within(&self) {
        (**self).law_chunks_within();
    }

    proof fn law_round_trip(&self, feed: Feed, tail: Tail) {
        (**self).law_round_trip(feed, tail);
    }
}

/// Calls `Vec::into_boxed_slice`, which keeps the items and
/// their order.
#[verifier::external_body]
fn into_box_slice<T>(items: Vec<T>) -> (r: Box<[T]>)
    ensures
        (*r)@ == items@,
{
    items.into_boxed_slice()
}

impl<T> Decode for Box<[T]> where T: Decode {
    open spec fn decoding(feed: Feed) -> (Result<Seq<T::Value>, DecodeError>, Feed) {
        counted_decoding::<T>(feed)
    }

    fn decode<B: DecodeBearer>(bearer: &mut B) -> (r: Result<Self, DecodeError>) {
        let items: Vec<T> = match get(bearer) {
            Ok(items) => items,
            Err(e) => return Err(e),
        };
        Ok(into_box_slice(items))
    }
}

impl<T> Codec for Box<[T]> where T: Codec {
    open spec fn faithful(&self) -> bool {
        countable((**self)@.len()) && items_faithful((**self)@)
    }

    proof fn law_chunks_within(&self) {
        lemma_counted_within((**self)@);
    }

    proof fn law_round_trip(&self, feed: Feed, tail: Tail) {
        lemma_counted_round_trip((**self)@, feed, tail);
    }
}

impl<T: Data + ?Sized> Data for Rc<T> {
    type Value = T::Value;

    open spec fn value(&self) -> T::Value {
        (**self).value()
    }
}

impl<T> Encode for Rc<T> where T: Encode + ?Sized {
    open spec fn wire(&self) -> Seq<Seq<u8>> {
        (**self).wire()
    }

    open spec fn size_hint(&self) -> nat {
        (**self).size_hint()
    }

    fn encode<B: EncodeBearer>(bearer: &mut B, src: &Self) -> (r: Result<(), EncodeError>) {
        T::encode(bearer, &**src)
    }

    fn size_of(&self) -> (r: usize) {
        (**self).size_of()
    }
}

impl<T> Decode for Rc<T> where T: Decode {
    open spec fn decoding(feed: Feed) -> (Result<T::Value, DecodeError>, Feed) {
        T::decoding(feed)
    }

    fn decode<B: DecodeBearer>(bearer: &mut B) -> (r: Result<Self, DecodeError>) {
        match T::decode(bearer) {
            Ok(value) => Ok(Rc::new(value)),
            Err(e) => Err(e),
        }
    }
}

impl<T> Codec for Rc<T> where T: Codec {
    open spec fn faithful(&self) -> bool {
        (**self).faithful()
    }

    proof fn law_chunks_within(&self) {
        (**self).law_chunks_within();
    }

    proof fn law_round_trip(&self, feed: Feed, tail: Tail) {
        (**self).law_round_trip(feed, tail);
    }
}

/// Calls the `From` conversion of `Vec<T>` into `Rc<[T]>`, which keeps the items and
/// their order.
#[verifier::external_body]
fn into_rc_slice<T>(items: Vec<T>) -> (r: Rc<[T]>)
    ensures
        (*r)@ == items@,
{
    Rc::from(items)
}

impl<T> Decode for Rc<[T]> where T: Decode {
    open spec fn decoding(feed: Feed) -> (Result<Seq<T::Value>, DecodeError>, Feed) {
        counted_decoding::<T>(feed)
    }

    fn decode<B: DecodeBearer>(bearer: &mut B) -> (r: Result<Self, DecodeError>) {
        let items: Vec<T> = match get(bearer) {
            Ok(items) => items,
            Err(e) => return Err(e),
        };
        Ok(into_rc_slice(items))
    }
}

impl<T> Codec for Rc<[T]> where T: Codec {
    open spec fn faithful(&self) -> bool {
        countable((**self)@.len()) && items_faithful((**self)@)
    }

    proof fn law_chunks_within(&self) {
        lemma_counted_within((**self)@);
    }

    proof fn law_round_trip(&self, feed: Feed, tail: Tail) {
        lemma_counted_round_trip((**self)@, feed, tail);
    }
}

impl<T: Data + ?Sized> Data for Arc<T> {
    type Value = T::Value;

    open spec fn value(&self) -> T::Value {
        (**self).value()
    }
}

impl<T> Encode for Arc<T> where T: Encode + ?Sized {
    open spec fn wire(&self) -> Seq<Seq<u8>> {
        (**self).wire()
    }

    open spec fn size_hint(&self) -> nat {
        (**self).size_hint()
    }

    fn encode<B: EncodeBearer>(bearer: &mut B, src: &Self) -> (r: Result<(), EncodeError>) {
        T::encode(bearer, &**src)
    }

    fn size_of(&self) -> (r: usize) {
        (**self).size_of()
    }
}

impl<T> Decode for Arc<T> where T: Decode {
    open spec fn decoding(feed: Feed) -> (Result<T::Value, DecodeError>, Feed) {
        T::decoding(feed)
    }

    fn decode<B: DecodeBearer>(bearer: &mut B) -> (r: Result<Self, DecodeError>) {
        match T::decode(bearer) {
            Ok(value) => Ok(Arc::new(value)),
            Err(e) => Err(e),
        }
    }
}

impl<T> Codec for Arc<T> where T: Codec {
    open spec fn faithful(&self) -> bool {
        (**self).faithful()
    }

    proof fn law_chunks_within(&self) {
        (**self).law_chunks_within();
    }

    proof fn law_round_trip(&self, feed: Feed, tail: Tail) {
        (**self).law_round_trip(feed, tail);
    }
}

/// Calls the `From` conversion of `Vec<T>` into `Arc<[T]>`, which keeps the items and
/// their order.
#[verifier::external_body]
fn into_arc_slice<T>(items: Vec<T>) -> (r: Arc<[T]>)
    ensures
        (*r)@ == items@,
{
    Arc::from(items)
}

impl<T> Decode for Arc<[T]> where T: Decode {
    open spec fn decoding(feed: Feed) -> (Result<Seq<T::Value>, DecodeError>, Feed) {
        counted_decoding::<T>(feed)
    }

    fn decode<B: DecodeBearer>(bearer: &mut B) -> (r: Result<Self, DecodeError>) {
        let items: Vec<T> = match get(bearer) {
            Ok(items) => items,
            Err(e) => return Err(e),
        };
        Ok(into_arc_slice(items))
    }
}

impl<T> Codec for Arc<[T]> where T: Codec {
    open spec fn faithful(&self) -> bool {
        countable((**self)@.len()) && items_faithful((**self)@)
    }

    proof fn law_chunks_within(&self) {
        lemma_counted_within((**self)@);
    }

    proof fn law_round_trip(&self, feed: Feed, tail: Tail) {
        lemma_counted_round_trip((**self)@, feed, tail);
    }
}

} // verus!

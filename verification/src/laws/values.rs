//! How values are stored and what comes back of them.

use vstd::prelude::*;
use vstd::utf8::{
    encode_scalar,
    encode_utf8,
    encode_utf8_decode_utf8,
    encode_utf8_valid_utf8,
    valid_utf8,
};

use super::{holds, Tail};
use crate::codec::seq::{
    items_chunks,
    items_decoding,
    items_faithful,
    items_hint,
    items_value,
    lemma_counted_round_trip,
    lemma_items_chunks_split,
};
use crate::codec::Codec;
use crate::decode::{Data, Decode, DecodeBearer, DecodeError, ReadError};
use crate::encode::Encode;
use crate::little_endian::le_bytes;
use crate::region::RegionError;
use crate::stream::Feed;

use core::marker::PhantomData;
use std::collections::VecDeque;
use std::rc::Rc;
use std::sync::Arc;

verus! {

/// A value is decoded to what its bytes stand for, as long as the source does not fail.
pub proof fn law_decode<T: Decode, B: DecodeBearer>(bearer: &mut B, r: Result<T, DecodeError>)
    requires
        old(bearer).inv(),
        call_ensures(T::decode::<B>, (bearer,), r),
        old(bearer).faultless(),
    ensures
        r is Ok ==> T::decoding(old(bearer).feed()).0 == Ok::<T::Value, DecodeError>(
            r->Ok_0.value(),
        ),
        r is Err ==> T::decoding(old(bearer).feed()).0 == Err::<T::Value, DecodeError>(r->Err_0),
        final(bearer).feed() == T::decoding(old(bearer).feed()).1,
        final(bearer).faultless(),
{
}

/// A source which fails otherwise than for want of bytes fails the decoding in the same way.
pub proof fn law_decode_faulty<T: Decode, B: DecodeBearer>(
    bearer: &mut B,
    r: Result<T, DecodeError>,
)
    requires
        old(bearer).inv(),
        call_ensures(T::decode::<B>, (bearer,), r),
    ensures
        r is Ok ==> T::decoding(old(bearer).feed()).0 == Ok::<T::Value, DecodeError>(
            r->Ok_0.value(),
        ) && final(bearer).feed() == T::decoding(old(bearer).feed()).1,
        r is Err && T::decoding(old(bearer).feed()).0 != Err::<T::Value, DecodeError>(r->Err_0)
            ==> r->Err_0 matches DecodeError::BearerError(
            RegionError::ReadFailure(ReadError::Io(_)),
        ),
{
}

/// A reference is stored as what it refers to.
pub proof fn law_reference<T: Encode>(value: &T)
    ensures
        <&T as Encode>::wire(&value) == (*value).wire(),
        <&T as Encode>::size_hint(&value) == (*value).size_hint(),
{
}

/// A flag is stored as one byte, which is one if it is set and zero if it is not. No other
/// byte is a flag.
pub proof fn law_bool(value: bool, feed: Feed)
    ensures
        value.value() == value,
        value.faithful(),
        value.wire() == (if value {
            1u8
        } else {
            0u8
        }).wire(),
        value.size_hint() == 1,
        bool::decoding(feed).1 == u8::decoding(feed).1,
        match u8::decoding(feed).0 {
            Ok(byte) => {
                &&& byte == 0 ==> bool::decoding(feed).0 == Ok::<bool, DecodeError>(false)
                &&& byte == 1 ==> bool::decoding(feed).0 == Ok::<bool, DecodeError>(true)
                &&& byte > 1 ==> bool::decoding(feed).0 == Err::<bool, DecodeError>(
                    DecodeError::InvalidPattern,
                )
            },
            Err(e) => bool::decoding(feed).0 == Err::<bool, DecodeError>(e),
        },
{
}

/// An optional value is stored after a flag telling whether there is one.
pub proof fn law_option<T: Codec>(value: T, feed: Feed)
    ensures
        Some(value).value() == Some(value.value()),
        None::<T>.value() is None,
        Some(value).faithful() == value.faithful(),
        None::<T>.faithful(),
        Some(value).wire() == true.wire() + value.wire(),
        None::<T>.wire() == false.wire(),
        Some(value).size_hint() == 1 + value.size_hint(),
        None::<T>.size_hint() == 1,
        match bool::decoding(feed) {
            (Ok(true), after) => match T::decoding(after) {
                (Ok(v), left) => Option::<T>::decoding(feed) == (
                    Ok::<Option<T::Value>, DecodeError>(Some(v)),
                    left,
                ),
                (Err(e), left) => Option::<T>::decoding(feed) == (
                    Err::<Option<T::Value>, DecodeError>(e),
                    left,
                ),
            },
            (Ok(false), after) => Option::<T>::decoding(feed) == (
                Ok::<Option<T::Value>, DecodeError>(None),
                after,
            ),
            (Err(e), after) => Option::<T>::decoding(feed) == (
                Err::<Option<T::Value>, DecodeError>(e),
                after,
            ),
        },
{
}

/// A result is stored after a flag telling a value from an error.
pub proof fn law_result<T: Codec, E: Codec>(value: T, error: E, feed: Feed)
    ensures
        Ok::<T, E>(value).value() == Ok::<T::Value, E::Value>(value.value()),
        Err::<T, E>(error).value() == Err::<T::Value, E::Value>(error.value()),
        Ok::<T, E>(value).faithful() == value.faithful(),
        Err::<T, E>(error).faithful() == error.faithful(),
        Ok::<T, E>(value).wire() == true.wire() + value.wire(),
        Err::<T, E>(error).wire() == false.wire() + error.wire(),
        Ok::<T, E>(value).size_hint() == value.size_hint(),
        Err::<T, E>(error).size_hint() == error.size_hint(),
        match bool::decoding(feed) {
            (Ok(true), after) => {
                &&& Result::<T, E>::decoding(feed).1 == T::decoding(after).1
                &&& match T::decoding(after).0 {
                    Ok(v) => Result::<T, E>::decoding(feed).0 == Ok::<
                        Result<T::Value, E::Value>,
                        DecodeError,
                    >(Ok(v)),
                    Err(e) => Result::<T, E>::decoding(feed).0 == Err::<
                        Result<T::Value, E::Value>,
                        DecodeError,
                    >(e),
                }
            },
            (Ok(false), after) => {
                &&& Result::<T, E>::decoding(feed).1 == E::decoding(after).1
                &&& match E::decoding(after).0 {
                    Ok(v) => Result::<T, E>::decoding(feed).0 == Ok::<
                        Result<T::Value, E::Value>,
                        DecodeError,
                    >(Err(v)),
                    Err(e) => Result::<T, E>::decoding(feed).0 == Err::<
                        Result<T::Value, E::Value>,
                        DecodeError,
                    >(e),
                }
            },
            (Err(e), after) => Result::<T, E>::decoding(feed) == (
                Err::<Result<T::Value, E::Value>, DecodeError>(e),
                after,
            ),
        },
{
}

/// Types without contents take no bytes.
pub proof fn law_nothing<T>(phantom: PhantomData<T>, feed: Feed)
    ensures
        ().wire().len() == 0,
        ().size_hint() == 0,
        ().faithful(),
        <()>::decoding(feed) == (Ok::<(), DecodeError>(()), feed),
        phantom.wire().len() == 0,
        phantom.size_hint() == 0,
        phantom.faithful(),
        PhantomData::<T>::decoding(feed) == (Ok::<(), DecodeError>(()), feed),
{
}

/// A character is stored as the bytes of its UTF-8 representation and always comes back.
pub proof fn law_char(value: char)
    ensures
        value.value() == value,
        value.faithful(),
        value.wire() == seq![encode_scalar(value as u32)],
        value.size_hint() == value.wire()[0].len(),
{
}

/// The bytes that items are stored as follow each other in the order of the items.
pub proof fn law_items<T: Codec>(a: Seq<T>, b: Seq<T>, item: T)
    ensures
        items_chunks(Seq::<T>::empty()).len() == 0,
        items_chunks(seq![item]) == item.wire(),
        items_chunks(a + b) == items_chunks(a) + items_chunks(b),
        items_hint(Seq::<T>::empty()) == 0,
        items_hint(seq![item]) == item.size_hint(),
        items_hint(a + b) == items_hint(a) + items_hint(b),
        items_value(a).len() == a.len(),
        forall|i: int| 0 <= i < a.len() ==> #[trigger] items_value(a)[i] == a[i].value(),
        items_faithful(a) <==> (forall|i: int| 0 <= i < a.len() ==> (#[trigger] a[i]).faithful()),
{
    assert(seq![item].drop_last() =~= Seq::empty());
    assert(items_chunks(seq![item].drop_last()) =~= Seq::empty());
    assert(items_hint(seq![item].drop_last()) == 0);
    assert(items_chunks(seq![item]) =~= item.wire());
    lemma_items_chunks_split(a + b, a.len() as int);
    assert((a + b).take(a.len() as int) =~= a);
    assert((a + b).skip(a.len() as int) =~= b);
    lemma_items_hint_add(a, b);
}

proof fn lemma_items_hint_add<T: Encode>(a: Seq<T>, b: Seq<T>)
    ensures
        items_hint(a + b) == items_hint(a) + items_hint(b),
    decreases b.len(),
{
    if b.len() == 0 {
        assert(a + b =~= a);
    } else {
        lemma_items_hint_add(a, b.drop_last());
        assert((a + b).drop_last() =~= a + b.drop_last());
    }
}

/// Items are decoded one after the other, each from where the one before it ends. The first
/// that can not be decoded fails all of them.
pub proof fn law_items_decoding<T: Decode>(feed: Feed, a: nat, b: nat)
    ensures
        items_decoding::<T>(feed, 0) == (Ok::<Seq<T::Value>, DecodeError>(Seq::empty()), feed),
        match T::decoding(feed) {
            (Ok(item), after) => items_decoding::<T>(feed, 1) == (
                Ok::<Seq<T::Value>, DecodeError>(seq![item]),
                after,
            ),
            (Err(e), after) => items_decoding::<T>(feed, 1) == (
                Err::<Seq<T::Value>, DecodeError>(e),
                after,
            ),
        },
        match items_decoding::<T>(feed, a) {
            (Ok(first), after) => match items_decoding::<T>(after, b) {
                (Ok(second), left) => items_decoding::<T>(feed, a + b) == (
                    Ok::<Seq<T::Value>, DecodeError>(first + second),
                    left,
                ),
                (Err(e), left) => items_decoding::<T>(feed, a + b) == (
                    Err::<Seq<T::Value>, DecodeError>(e),
                    left,
                ),
            },
            (Err(e), after) => items_decoding::<T>(feed, a + b) == (
                Err::<Seq<T::Value>, DecodeError>(e),
                after,
            ),
        },
    decreases b,
{
    reveal_with_fuel(items_decoding, 2);
    if let (Ok(item), _) = T::decoding(feed) {
        assert(Seq::empty().push(item) =~= seq![item]);
    }
    if b == 0 {
        if let (Ok(first), _) = items_decoding::<T>(feed, a) {
            assert(first + Seq::<T::Value>::empty() =~= first);
        }
    } else {
        let less = (b - 1) as nat;
        law_items_decoding::<T>(feed, a, less);
        if let (Ok(first), after) = items_decoding::<T>(feed, a) {
            if let (Ok(second), left) = items_decoding::<T>(after, less) {
                if let (Ok(item), _) = T::decoding(left) {
                    assert((first + second).push(item) =~= first + second.push(item));
                }
            }
        }
    }
}

/// Vectors, slices and what holds a slice are stored as the amount of items in four bytes,
/// followed by the items. Arrays, whose length is known, are stored as the items alone.
pub proof fn law_sequences<T: Encode, const N: usize>(
    slice: &[T],
    vec: Vec<T>,
    deque: VecDeque<T>,
    boxed: Box<[T]>,
    array: [T; N],
)
    ensures
        (*slice).wire() == seq![le_bytes(slice@.len(), 4)] + items_chunks(slice@),
        vec.wire() == seq![le_bytes(vec@.len(), 4)] + items_chunks(vec@),
        deque.wire() == seq![le_bytes(deque@.len(), 4)] + items_chunks(deque@),
        boxed.wire() == seq![le_bytes((*boxed)@.len(), 4)] + items_chunks((*boxed)@),
        array.wire() == items_chunks(array@),
        (*slice).size_hint() == items_hint(slice@) + 4,
        vec.size_hint() == vec@.len() * vstd::layout::size_of::<T>(),
        deque.size_hint() == deque@.len() * vstd::layout::size_of::<T>(),
        boxed.size_hint() == items_hint((*boxed)@) + 4,
        array.size_hint() == items_hint(array@),
{
}

/// Sequences come back if their length fits the four bytes and the machine and their items
/// do, each of them at its place.
pub proof fn law_sequences_faithful<T: Codec, const N: usize>(
    vec: Vec<T>,
    deque: VecDeque<T>,
    array: [T; N],
    boxed: Box<[T]>,
    shared: Rc<[T]>,
    synced: Arc<[T]>,
)
    ensures
        vec@.len() <= u32::MAX && vec@.len() <= isize::MAX && (forall|i: int|
            0 <= i < vec@.len() ==> (#[trigger] vec@[i]).faithful()) ==> vec.faithful(),
        deque@.len() <= u32::MAX && deque@.len() <= isize::MAX && (forall|i: int|
            0 <= i < deque@.len() ==> (#[trigger] deque@[i]).faithful()) ==> deque.faithful(),
        (forall|i: int| 0 <= i < array@.len() ==> (#[trigger] array@[i]).faithful())
            ==> array.faithful(),
        (*boxed)@.len() <= u32::MAX && (*boxed)@.len() <= isize::MAX && (forall|i: int|
            0 <= i < (*boxed)@.len() ==> (#[trigger] (*boxed)@[i]).faithful())
            ==> boxed.faithful(),
        (*shared)@.len() <= u32::MAX && (*shared)@.len() <= isize::MAX && (forall|i: int|
            0 <= i < (*shared)@.len() ==> (#[trigger] (*shared)@[i]).faithful())
            ==> shared.faithful(),
        (*synced)@.len() <= u32::MAX && (*synced)@.len() <= isize::MAX && (forall|i: int|
            0 <= i < (*synced)@.len() ==> (#[trigger] (*synced)@[i]).faithful())
            ==> synced.faithful(),
{
}

/// What a sequence stands for is the sequence of what its items stand for.
pub proof fn law_sequences_value<T: Data, const N: usize>(
    slice: &[T],
    vec: Vec<T>,
    deque: VecDeque<T>,
    array: [T; N],
    i: int,
)
    ensures
        (*slice).value().len() == slice@.len(),
        vec.value().len() == vec@.len(),
        deque.value().len() == deque@.len(),
        array.value().len() == array@.len(),
        0 <= i < slice@.len() ==> (*slice).value()[i] == slice@[i].value(),
        0 <= i < vec@.len() ==> vec.value()[i] == vec@[i].value(),
        0 <= i < deque@.len() ==> deque.value()[i] == deque@[i].value(),
        0 <= i < array@.len() ==> array.value()[i] == array@[i].value(),
{
}

/// A sequence is decoded as the amount of items and then the items.
pub proof fn law_sequences_decoding<T: Decode, const N: usize>(feed: Feed)
    ensures
        match u32::decoding(feed) {
            (Ok(len), after) => if len <= isize::MAX {
                Vec::<T>::decoding(feed) == items_decoding::<T>(after, len as nat)
            } else {
                &&& Vec::<T>::decoding(feed).0 is Err
                &&& Vec::<T>::decoding(feed).0->Err_0 is Other
                &&& Vec::<T>::decoding(feed).1 == after
            },
            (Err(e), after) => Vec::<T>::decoding(feed) == (
                Err::<Seq<T::Value>, DecodeError>(e),
                after,
            ),
        },
        VecDeque::<T>::decoding(feed) == Vec::<T>::decoding(feed),
        Box::<[T]>::decoding(feed) == Vec::<T>::decoding(feed),
        Rc::<[T]>::decoding(feed) == Vec::<T>::decoding(feed),
        Arc::<[T]>::decoding(feed) == Vec::<T>::decoding(feed),
        <[T; N]>::decoding(feed) == items_decoding::<T>(feed, N as nat),
{
}

/// A pointer is stored as what it points to, stands for it and comes back if it does.
pub proof fn law_pointers<T: Codec>(boxed: Box<T>, shared: Rc<T>, synced: Arc<T>, feed: Feed)
    ensures
        boxed.value() == (*boxed).value(),
        shared.value() == (*shared).value(),
        synced.value() == (*synced).value(),
        boxed.wire() == (*boxed).wire(),
        shared.wire() == (*shared).wire(),
        synced.wire() == (*synced).wire(),
        boxed.size_hint() == (*boxed).size_hint(),
        shared.size_hint() == (*shared).size_hint(),
        synced.size_hint() == (*synced).size_hint(),
        boxed.faithful() == (*boxed).faithful(),
        shared.faithful() == (*shared).faithful(),
        synced.faithful() == (*synced).faithful(),
        Box::<T>::decoding(feed) == T::decoding(feed),
        Rc::<T>::decoding(feed) == T::decoding(feed),
        Arc::<T>::decoding(feed) == T::decoding(feed),
{
}

/// A pointer to a slice or to text is stored as the slice or the text.
pub proof fn law_pointers_unsized<T: Codec>(
    boxed: Box<[T]>,
    shared: Rc<[T]>,
    synced: Arc<[T]>,
    boxed_text: Box<str>,
    shared_text: Rc<str>,
    synced_text: Arc<str>,
)
    ensures
        boxed.wire() == (*boxed).wire(),
        shared.wire() == (*shared).wire(),
        synced.wire() == (*synced).wire(),
        boxed.value() == (*boxed).value(),
        shared.value() == (*shared).value(),
        synced.value() == (*synced).value(),
        boxed_text.wire() == (*boxed_text).wire(),
        shared_text.wire() == (*shared_text).wire(),
        synced_text.wire() == (*synced_text).wire(),
        boxed_text.size_hint() == (*boxed_text).size_hint(),
        shared_text.size_hint() == (*shared_text).size_hint(),
        synced_text.size_hint() == (*synced_text).size_hint(),
{
}

/// Text is stored as the vector of the bytes of its UTF-8 representation, all of them,
/// whether it is borrowed or owned.
pub proof fn law_text(text: &str, string: String, bytes: Vec<u8>)
    requires
        text@ == string@,
        bytes@ == encode_utf8(text@),
    ensures
        (*text).wire() == bytes.wire(),
        string.wire() == bytes.wire(),
        (*text).size_hint() == bytes@.len() + 4,
        string.size_hint() == bytes@.len() + 4,
        string.value() == string@,
        bytes@.len() <= u32::MAX && bytes@.len() <= isize::MAX ==> string.faithful(),
{
}

/// Text that was encoded, borrowed or owned, is decoded to the same characters, and nothing
/// beyond it is read.
pub proof fn law_text_round_trip(text: &str, feed: Feed, tail: Tail)
    requires
        encode_utf8(text@).len() <= u32::MAX,
        encode_utf8(text@).len() <= isize::MAX,
        holds(feed, tail),
        tail.take_all((*text).wire()) is Some,
    ensures
        String::decoding(feed).0 == Ok::<Seq<char>, DecodeError>(text@),
        holds(String::decoding(feed).1, tail.take_all((*text).wire())->0),
{
    let bytes = encode_utf8(text@);
    lemma_counted_round_trip(bytes, feed, tail);
    assert(items_value(bytes) =~= bytes);
    encode_utf8_valid_utf8(text@);
    encode_utf8_decode_utf8(text@);
}

/// Bytes that were encoded are decoded to the same bytes, which is text exactly if they are
/// the UTF-8 representation of some characters.
pub proof fn law_text_decoding(feed: Feed)
    ensures
        match Vec::<u8>::decoding(feed) {
            (Ok(bytes), after) => {
                &&& String::decoding(feed).1 == after
                &&& valid_utf8(bytes) <==> String::decoding(feed).0 is Ok
                &&& !valid_utf8(bytes) ==> String::decoding(feed).0 == Err::<
                    Seq<char>,
                    DecodeError,
                >(DecodeError::InvalidPattern)
                &&& forall|chars: Seq<char>| #[trigger]
                    encode_utf8(chars) == bytes ==> String::decoding(feed).0 == Ok::<
                        Seq<char>,
                        DecodeError,
                    >(chars)
            },
            (Err(e), after) => String::decoding(feed) == (Err::<Seq<char>, DecodeError>(e), after),
        },
{
    if let (Ok(bytes), _) = Vec::<u8>::decoding(feed) {
        assert forall|chars: Seq<char>| #[trigger]
            encode_utf8(chars) == bytes implies String::decoding(feed).0 == Ok::<
            Seq<char>,
            DecodeError,
        >(chars) by {
            encode_utf8_valid_utf8(chars);
            encode_utf8_decode_utf8(chars);
        }
    }
}

} // verus!

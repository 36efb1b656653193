//! Implementations for sequences of items. Where the length is not part of the type,
//! it is stored before the items in 4 bytes.

use vstd::prelude::*;

use super::{lemma_uint_round_trip, lemma_within_add, write_uint, Codec};
use crate::decode::{decoded, Data, Decode, DecodeBearer, DecodeError};
use crate::encode::{
    encoded,
    lemma_encoded_nothing,
    lemma_encoded_stop,
    lemma_encoded_then,
    Encode,
    EncodeBearer,
    EncodeError,
};
use crate::laws::{holds, lemma_take_all_add, Tail};
use crate::little_endian::{le_bytes, lemma_le_bytes_len, lemma_span_values};
use crate::stream::{within, Feed};

verus! {

/// What a sequence of items stands for.
pub open spec fn items_value<T: Data>(items: Seq<T>) -> Seq<T::Value> {
    Seq::new(items.len(), |i: int| items[i].value())
}

/// Chunks of the items, in order.
pub open spec fn items_chunks<T: Encode>(items: Seq<T>) -> Seq<Seq<u8>>
    decreases items.len(),
{
    if items.len() == 0 {
        Seq::empty()
    } else {
        items_chunks(items.drop_last()) + items.last().wire()
    }
}

/// Sizes hinted of the items, summed up.
pub open spec fn items_hint<T: Encode>(items: Seq<T>) -> nat
    decreases items.len(),
{
    if items.len() == 0 {
        0
    } else {
        items_hint(items.drop_last()) + items.last().size_hint()
    }
}

/// Decodes `count` items, in order.
pub open spec fn items_decoding<T: Decode>(feed: Feed, count: nat) -> (
    Result<Seq<T::Value>, DecodeError>,
    Feed,
)
    decreases count,
{
    if count == 0 {
        (Ok(Seq::empty()), feed)
    } else {
        match items_decoding::<T>(feed, (count - 1) as nat) {
            (Ok(items), feed) => match T::decoding(feed) {
                (Ok(item), feed) => (Ok(items.push(item)), feed),
                (Err(e), feed) => (Err(e), feed),
            },
            (Err(e), feed) => (Err(e), feed),
        }
    }
}

/// An item that fails to decode fails the sequence.
pub proof fn lemma_items_stop<T: Decode>(feed: Feed, count: nat, total: nat)
    requires
        count <= total,
        items_decoding::<T>(feed, count).0 is Err,
    ensures
        items_decoding::<T>(feed, total) == items_decoding::<T>(feed, count),
    decreases total,
{
    if count < total {
        lemma_items_stop::<T>(feed, count, (total - 1) as nat);
    }
}

/// Chunks of the items up to one more.
pub proof fn lemma_items_chunks_next<T: Encode>(items: Seq<T>, at: int)
    requires
        0 <= at < items.len(),
    ensures
        items_chunks(items.take(at + 1)) == items_chunks(items.take(at)) + items[at].wire(),
{
    assert(items.take(at + 1).drop_last() =~= items.take(at));
}

/// Chunks of the items split at any of them.
pub proof fn lemma_items_chunks_split<T: Encode>(items: Seq<T>, at: int)
    requires
        0 <= at <= items.len(),
    ensures
        items_chunks(items) == items_chunks(items.take(at)) + items_chunks(items.skip(at)),
    decreases items.len() - at,
{
    if at == items.len() {
        assert(items.take(at) =~= items);
        assert(items.skip(at) =~= Seq::empty());
        assert(items_chunks(items) + items_chunks(items.skip(at)) =~= items_chunks(items));
    } else {
        lemma_items_chunks_split(items.drop_last(), at);
        assert(items.drop_last().take(at) =~= items.take(at));
        assert(items.drop_last().skip(at) =~= items.skip(at).drop_last());
        assert(items.skip(at).last() == items.last());
        assert(items_chunks(items) =~= items_chunks(items.take(at)) + items_chunks(items.skip(at)));
    }
}

/// Encodes `items`, in order.
pub fn encode_items<T: Encode, B: EncodeBearer>(bearer: &mut B, items: &[T]) -> (r: Result<
    (),
    EncodeError,
>)
    requires
        old(bearer).inv(),
    ensures
        encoded(*old(bearer), *final(bearer), items_chunks(items@), r),
{
    let ghost first = *bearer;
    let mut at: usize = 0;
    proof {
        lemma_encoded_nothing(first);
        assert(items@.take(0) =~= Seq::empty());
    }
    while at < items.len()
        invariant
            at <= items@.len(),
            first == *old(bearer),
            bearer.inv(),
            encoded(first, *bearer, items_chunks(items@.take(at as int)), Ok(())),
        decreases items@.len() - at,
    {
        let ghost second = *bearer;
        let r = T::encode(bearer, &items[at]);
        proof {
            lemma_encoded_then(
                first,
                second,
                *bearer,
                items_chunks(items@.take(at as int)),
                items@[at as int].wire(),
                r,
            );
            lemma_items_chunks_next(items@, at as int);
        }
        if let Err(e) = r {
            proof {
                lemma_items_chunks_split(items@, at + 1);
                lemma_encoded_stop(
                    first,
                    *bearer,
                    items_chunks(items@.take(at + 1)),
                    items_chunks(items@.skip(at + 1)),
                    e,
                );
            }
            return Err(e);
        }
        at = at + 1;
    }
    assert(items@.take(items@.len() as int) =~= items@);
    Ok(())
}

/// Sums up the sizes hinted of `items`.
pub fn sum_hints<T: Encode>(items: &[T]) -> (r: usize)
    requires
        items_hint(items@) <= usize::MAX,
    ensures
        r == items_hint(items@),
{
    let mut sum: usize = 0;
    let mut at: usize = 0;
    assert(items@.take(0) =~= Seq::empty());
    while at < items.len()
        invariant
            at <= items@.len(),
            sum == items_hint(items@.take(at as int)),
            items_hint(items@) <= usize::MAX,
        decreases items@.len() - at,
    {
        proof {
            assert(items@.take(at + 1).drop_last() =~= items@.take(at as int));
            lemma_items_hint_prefix(items@, at + 1);
        }
        sum = sum + items[at].size_of();
        at = at + 1;
    }
    assert(items@.take(items@.len() as int) =~= items@);
    sum
}

/// Fewer items never have more hinted.
proof fn lemma_items_hint_prefix<T: Encode>(items: Seq<T>, at: int)
    requires
        0 <= at <= items.len(),
    ensures
        items_hint(items.take(at)) <= items_hint(items),
    decreases items.len() - at,
{
    if at == items.len() {
        assert(items.take(at) =~= items);
    } else {
        lemma_items_hint_prefix(items.drop_last(), at);
        assert(items.drop_last().take(at) =~= items.take(at));
    }
}

/// Decodes `count` items, in order.
pub fn decode_items<T: Decode, B: DecodeBearer>(bearer: &mut B, count: usize) -> (r: Result<
    Vec<T>,
    DecodeError,
>)
    requires
        old(bearer).inv(),
    ensures
        decoded(
            *old(bearer),
            *final(bearer),
            items_decoding::<T>(old(bearer).feed(), count as nat),
            match r {
                Ok(items) => Ok(items_value(items@)),
                Err(e) => Err(e),
            },
        ),
        r matches Ok(items) ==> items@.len() == count,
{
    let ghost feed = bearer.feed();
    let ghost faultless = bearer.faultless();
    let mut items: Vec<T> = Vec::new();
    assert(items_value(items@) =~= Seq::empty());
    while items.len() < count
        invariant
            items@.len() <= count,
            feed == old(bearer).feed(),
            faultless == old(bearer).faultless(),
            bearer.inv(),
            bearer.faultless() == faultless,
            items_decoding::<T>(feed, items@.len()) == (
                Ok::<Seq<T::Value>, DecodeError>(items_value(items@)),
                bearer.feed(),
            ),
        decreases count - items@.len(),
    {
        match T::decode(bearer) {
            Ok(item) => {
                let ghost before = items@;
                items.push(item);
                assert(items_value(items@) =~= items_value(before).push(item.value()));
            },
            Err(e) => {
                proof {
                    if faultless || items_decoding::<T>(feed, items@.len() + 1).0 is Err {
                        lemma_items_stop::<T>(feed, items@.len() + 1, count as nat);
                    }
                }
                return Err(e);
            },
        }
    }
    Ok(items)
}

/// Whether all of the items survive encoding.
pub open spec fn items_faithful<T: Codec>(items: Seq<T>) -> bool {
    forall|i: int| 0 <= i < items.len() ==> (#[trigger] items[i]).faithful()
}

/// No chunk of an item exceeds a region.
pub proof fn lemma_items_within<T: Codec>(items: Seq<T>)
    ensures
        within(items_chunks(items)),
    decreases items.len(),
{
    if items.len() > 0 {
        lemma_items_within(items.drop_last());
        items.last().law_chunks_within();
        lemma_within_add(items_chunks(items.drop_last()), items.last().wire());
    }
}

/// Items are decoded as they were encoded.
pub proof fn lemma_items_round_trip<T: Codec>(items: Seq<T>, feed: Feed, tail: Tail)
    requires
        items_faithful(items),
        holds(feed, tail),
        tail.take_all(items_chunks(items)) is Some,
    ensures
        items_decoding::<T>(feed, items.len()).0 == Ok::<Seq<T::Value>, DecodeError>(
            items_value(items),
        ),
        holds(
            items_decoding::<T>(feed, items.len()).1,
            tail.take_all(items_chunks(items))->0,
        ),
    decreases items.len(),
{
    if items.len() == 0 {
        assert(items_value(items) =~= Seq::empty());
    } else {
        let front = items.drop_last();
        lemma_take_all_add(tail, items_chunks(front), items.last().wire());
        assert forall|i: int| 0 <= i < front.len() implies (#[trigger] front[i]).faithful() by {
            assert(front[i] == items[i]);
        }
        lemma_items_round_trip(front, feed, tail);
        assert(items[items.len() - 1].faithful());
        items.last().law_round_trip(
            items_decoding::<T>(feed, front.len()).1,
            tail.take_all(items_chunks(front))->0,
        );
        assert(items_value(items) =~= items_value(front).push(items.last().value()));
    }
}

// Slices

impl<T: Data> Data for [T] {
    type Value = Seq<T::Value>;

    open spec fn value(&self) -> Seq<T::Value> {
        items_value(self@)
    }
}

/// Chunks of items with their amount before them.
pub open spec fn counted_chunks<T: Encode>(items: Seq<T>) -> Seq<Seq<u8>> {
    seq![le_bytes(items.len(), 4)] + items_chunks(items)
}

impl<T> Encode for [T] where T: Encode {
    open spec fn wire(&self) -> Seq<Seq<u8>> {
        counted_chunks(self@)
    }

    open spec fn size_hint(&self) -> nat {
        items_hint(self@) + 4
    }

    fn encode<B: EncodeBearer>(bearer: &mut B, src: &Self) -> (r: Result<(), EncodeError>) {
        let ghost first = *bearer;
        let ghost count = seq![le_bytes(src@.len(), 4)];
        if let Err(e) = write_uint(bearer, src.len() as u128, 4) {
            proof {
                lemma_encoded_stop(first, *bearer, count, items_chunks(src@), e);
            }
            return Err(e);
        }
        let ghost second = *bearer;
        let r = encode_items(bearer, src);
        proof {
            lemma_encoded_then(first, second, *bearer, count, items_chunks(src@), r);
        }
        r
    }

    fn size_of(&self) -> (r: usize) {
        sum_hints(self) + 4
    }
}

/// Decodes as many items as the number before them tells.
pub open spec fn counted_decoding<T: Decode>(feed: Feed) -> (
    Result<Seq<T::Value>, DecodeError>,
    Feed,
) {
    match u32::decoding(feed) {
        (Ok(len), feed) => if len > isize::MAX {
            (Err(DecodeError::Other("Length exceeds isize::MAX")), feed)
        } else {
            items_decoding::<T>(feed, len as nat)
        },
        (Err(e), feed) => (Err(e), feed),
    }
}

/// Whether the number of items can be written down and read back.
pub open spec fn countable(len: nat) -> bool {
    len <= u32::MAX && len <= isize::MAX
}

/// Items with their amount before them are decoded as they were encoded.
pub proof fn lemma_counted_round_trip<T: Codec>(items: Seq<T>, feed: Feed, tail: Tail)
    requires
        countable(items.len()),
        items_faithful(items),
        holds(feed, tail),
        tail.take_all(counted_chunks(items)) is Some,
    ensures
        counted_decoding::<T>(feed).0 == Ok::<Seq<T::Value>, DecodeError>(items_value(items)),
        holds(counted_decoding::<T>(feed).1, tail.take_all(counted_chunks(items))->0),
{
    let count = seq![le_bytes(items.len(), 4)];
    lemma_span_values();
    lemma_take_all_add(tail, count, items_chunks(items));
    lemma_uint_round_trip(items.len(), 4, feed, tail);
    lemma_items_round_trip(items, u32::decoding(feed).1, tail.take_all(count)->0);
}

/// No chunk of items with their amount before them exceeds a region.
pub proof fn lemma_counted_within<T: Codec>(items: Seq<T>)
    ensures
        within(counted_chunks(items)),
{
    lemma_le_bytes_len(items.len(), 4);
    lemma_items_within(items);
    lemma_within_add(seq![le_bytes(items.len(), 4)], items_chunks(items));
}

// Arrays, whose length is not stored

impl<T: Data, const N: usize> Data for [T; N] {
    type Value = Seq<T::Value>;

    open spec fn value(&self) -> Seq<T::Value> {
        items_value(self@)
    }
}

impl<T, const N: usize> Encode for [T; N] where T: Encode {
    open spec fn wire(&self) -> Seq<Seq<u8>> {
        items_chunks(self@)
    }

    open spec fn size_hint(&self) -> nat {
        items_hint(self@)
    }

    fn encode<B: EncodeBearer>(bearer: &mut B, src: &Self) -> (r: Result<(), EncodeError>) {
        encode_items(bearer, src.as_slice())
    }

    fn size_of(&self) -> (r: usize) {
        sum_hints(self.as_slice())
    }
}

/// Calls the `TryFrom` conversion of `Vec<T>` into `[T; N]`, which succeeds for a vector
/// of exactly `N` items and keeps their order.
#[verifier::external_body]
fn into_array<T, const N: usize>(items: Vec<T>) -> (r: [T; N])
    requires
        items@.len() == N,
    ensures
        r@ == items@,
{
    <[T; N]>::try_from(items).ok().unwrap()
}

impl<T, const N: usize> Decode for [T; N] where T: Decode {
    open spec fn decoding(feed: Feed) -> (Result<Seq<T::Value>, DecodeError>, Feed) {
        items_decoding::<T>(feed, N as nat)
    }

    fn decode<B: DecodeBearer>(bearer: &mut B) -> (r: Result<Self, DecodeError>) {
        match decode_items(bearer, N) {
            Ok(items) => Ok(into_array(items)),
            Err(e) => Err(e),
        }
    }
}

impl<T, const N: usize> Codec for [T; N] where T: Codec {
    open spec fn faithful(&self) -> bool {
        items_faithful(self@)
    }

    proof fn law_chunks_within(&self) {
        lemma_items_within(self@);
    }

    proof fn law_round_trip(&self, feed: Feed, tail: Tail) {
        lemma_items_round_trip(self@, feed, tail);
    }
}

// Vectors

impl<T: Data> Data for Vec<T> {
    type Value = Seq<T::Value>;

    open spec fn value(&self) -> Seq<T::Value> {
        items_value(self@)
    }
}

impl<T> Encode for Vec<T> where T: Encode {
    open spec fn wire(&self) -> Seq<Seq<u8>> {
        counted_chunks(self@)
    }

    /// The size the items take in memory.
    open spec fn size_hint(&self) -> nat {
        self@.len() * vstd::layout::size_of::<T>()
    }

    fn encode<B: EncodeBearer>(bearer: &mut B, src: &Self) -> (r: Result<(), EncodeError>) {
        <[T]>::encode(bearer, src.as_slice())
    }

    fn size_of(&self) -> (r: usize) {
        self.len() * core::mem::size_of::<T>()
    }
}

impl<T> Decode for Vec<T> where T: Decode {
    open spec fn decoding(feed: Feed) -> (Result<Seq<T::Value>, DecodeError>, Feed) {
        counted_decoding::<T>(feed)
    }

    fn decode<B: DecodeBearer>(bearer: &mut B) -> (r: Result<Self, DecodeError>) {
        let len: usize = match u32::decode(bearer) {
            Ok(len) => len as usize,
            Err(e) => return Err(e),
        };
        if len > isize::MAX as usize {
            return Err(DecodeError::Other("Length exceeds isize::MAX"));
        }
        decode_items(bearer, len)
    }
}

impl<T> Codec for Vec<T> where T: Codec {
    open spec fn faithful(&self) -> bool {
        countable(self@.len()) && items_faithful(self@)
    }

    proof fn law_chunks_within(&self) {
        lemma_counted_within(self@);
    }

    proof fn law_round_trip(&self, feed: Feed, tail: Tail) {
        lemma_counted_round_trip(self@, feed, tail);
    }
}

} // verus!

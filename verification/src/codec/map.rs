//! Implementations for maps and sets, stored as the vector of their entries.
//!
//! Keys are of types whose values are told apart by what they stand for.

use vstd::prelude::*;
use vstd::laws_cmp::obeys_cmp;
use vstd::std_specs::btree::{increasing_seq, spec_btree_keys_iter, spec_btree_map_iter};
use vstd::std_specs::hash::{obeys_key_model, spec_hash_keys_iter, spec_hash_map_iter};
use vstd::std_specs::iter::IteratorSpec;

use super::seq::{
    counted_chunks,
    decode_items,
    items_chunks,
    items_decoding,
    items_faithful,
    items_hint,
    items_value,
    lemma_counted_within,
    lemma_items_round_trip,
    sum_hints,
};
use super::{lemma_uint_round_trip, Codec};
use crate::decode::{decoded, meant, Data, Decode, DecodeBearer, DecodeError};
use crate::encode::{Encode, EncodeBearer, EncodeError};
use crate::laws::{holds, lemma_take_all_add, Tail};
use crate::little_endian::{le_bytes, lemma_span_values};
use crate::stream::Feed;

use std::collections::{BTreeMap, BTreeSet, HashMap, HashSet};
use std::hash::Hash;

verus! {

/// Keys of ordered collections: values that are their own meaning and are ordered by it.
pub trait OrdKey: Codec + Data<Value = Self> + Ord {
    /// The order is total and agrees with equality.
    proof fn law_ordered()
        ensures
            obeys_cmp::<Self>(),
    ;

    /// A key stands for itself.
    proof fn law_plain(&self)
        ensures
            self.value() == *self,
    ;
}

/// Keys of hashed collections: values that are their own meaning and are hashed by it.
pub trait HashKey: Codec + Data<Value = Self> + Eq + Hash {
    /// Hashing is deterministic and agrees with equality.
    proof fn law_hashed()
        ensures
            obeys_key_model::<Self>(),
    ;

    /// A key stands for itself.
    proof fn law_plain(&self)
        ensures
            self.value() == *self,
    ;
}

impl OrdKey for u8 {
    proof fn law_ordered() {
        broadcast use vstd::laws_cmp::group_laws_cmp;

    }

    proof fn law_plain(&self) {
    }
}

impl HashKey for u8 {
    proof fn law_hashed() {
    }

    proof fn law_plain(&self) {
    }
}

impl OrdKey for u16 {
    proof fn law_ordered() {
        broadcast use vstd::laws_cmp::group_laws_cmp;

    }

    proof fn law_plain(&self) {
    }
}

impl HashKey for u16 {
    proof fn law_hashed() {
    }

    proof fn law_plain(&self) {
    }
}

impl OrdKey for u32 {
    proof fn law_ordered() {
        broadcast use vstd::laws_cmp::group_laws_cmp;

    }

    proof fn law_plain(&self) {
    }
}

impl HashKey for u32 {
    proof fn law_hashed() {
    }

    proof fn law_plain(&self) {
    }
}

impl OrdKey for u64 {
    proof fn law_ordered() {
        broadcast use vstd::laws_cmp::group_laws_cmp;

    }

    proof fn law_plain(&self) {
    }
}

impl HashKey for u64 {
    proof fn law_hashed() {
    }

    proof fn law_plain(&self) {
    }
}

impl OrdKey for u128 {
    proof fn law_ordered() {
        broadcast use vstd::laws_cmp::group_laws_cmp;

    }

    proof fn law_plain(&self) {
    }
}

impl HashKey for u128 {
    proof fn law_hashed() {
    }

    proof fn law_plain(&self) {
    }
}

impl OrdKey for usize {
    proof fn law_ordered() {
        broadcast use vstd::laws_cmp::group_laws_cmp;

    }

    proof fn law_plain(&self) {
    }
}

impl HashKey for usize {
    proof fn law_hashed() {
    }

    proof fn law_plain(&self) {
    }
}

impl OrdKey for i8 {
    proof fn law_ordered() {
        broadcast use vstd::laws_cmp::group_laws_cmp;

    }

    proof fn law_plain(&self) {
    }
}

impl HashKey for i8 {
    proof fn law_hashed() {
    }

    proof fn law_plain(&self) {
    }
}

impl OrdKey for i16 {
    proof fn law_ordered() {
        broadcast use vstd::laws_cmp::group_laws_cmp;

    }

    proof fn law_plain(&self) {
    }
}

impl HashKey for i16 {
    proof fn law_hashed() {
    }

    proof fn law_plain(&self) {
    }
}

impl OrdKey for i32 {
    proof fn law_ordered() {
        broadcast use vstd::laws_cmp::group_laws_cmp;

    }

    proof fn law_plain(&self) {
    }
}

impl HashKey for i32 {
    proof fn law_hashed() {
    }

    proof fn law_plain(&self) {
    }
}

impl OrdKey for i64 {
    proof fn law_ordered() {
        broadcast use vstd::laws_cmp::group_laws_cmp;

    }

    proof fn law_plain(&self) {
    }
}

impl HashKey for i64 {
    proof fn law_hashed() {
    }

    proof fn law_plain(&self) {
    }
}

impl OrdKey for i128 {
    proof fn law_ordered() {
        broadcast use vstd::laws_cmp::group_laws_cmp;

    }

    proof fn law_plain(&self) {
    }
}

impl HashKey for i128 {
    proof fn law_hashed() {
    }

    proof fn law_plain(&self) {
    }
}

impl OrdKey for isize {
    proof fn law_ordered() {
        broadcast use vstd::laws_cmp::group_laws_cmp;

    }

    proof fn law_plain(&self) {
    }
}

impl HashKey for isize {
    proof fn law_hashed() {
    }

    proof fn law_plain(&self) {
    }
}

impl<T> OrdKey for Option<T> where T: OrdKey {
    proof fn law_ordered() {
        broadcast use vstd::laws_cmp::group_laws_cmp;

        T::law_ordered();
    }

    proof fn law_plain(&self) {
        if let Some(v) = self {
            v.law_plain();
        }
    }
}

impl<T0: OrdKey, T1: OrdKey> OrdKey for (T0, T1) {
    proof fn law_ordered() {
        broadcast use vstd::laws_cmp::group_laws_cmp;

        T0::law_ordered();
        T1::law_ordered();
    }

    proof fn law_plain(&self) {
        self.0.law_plain();
        self.1.law_plain();
    }
}

impl<T0: OrdKey, T1: OrdKey, T2: OrdKey> OrdKey for (T0, T1, T2) {
    proof fn law_ordered() {
        broadcast use vstd::laws_cmp::group_laws_cmp;

        T0::law_ordered();
        T1::law_ordered();
        T2::law_ordered();
    }

    proof fn law_plain(&self) {
        self.0.law_plain();
        self.1.law_plain();
        self.2.law_plain();
    }
}

impl<T0: OrdKey, T1: OrdKey, T2: OrdKey, T3: OrdKey> OrdKey for (T0, T1, T2, T3) {
    proof fn law_ordered() {
        broadcast use vstd::laws_cmp::group_laws_cmp;

        T0::law_ordered();
        T1::law_ordered();
        T2::law_ordered();
        T3::law_ordered();
    }

    proof fn law_plain(&self) {
        self.0.law_plain();
        self.1.law_plain();
        self.2.law_plain();
        self.3.law_plain();
    }
}

impl<T0: OrdKey, T1: OrdKey, T2: OrdKey, T3: OrdKey, T4: OrdKey> OrdKey for (T0, T1, T2, T3, T4) {
    proof fn law_ordered() {
        broadcast use vstd::laws_cmp::group_laws_cmp;

        T0::law_ordered();
        T1::law_ordered();
        T2::law_ordered();
        T3::law_ordered();
        T4::law_ordered();
    }

    proof fn law_plain(&self) {
        self.0.law_plain();
        self.1.law_plain();
        self.2.law_plain();
        self.3.law_plain();
        self.4.law_plain();
    }
}

impl<
    T0: OrdKey,
    T1: OrdKey,
    T2: OrdKey,
    T3: OrdKey,
    T4: OrdKey,
    T5: OrdKey,
> OrdKey for (T0, T1, T2, T3, T4, T5) {
    proof fn law_ordered() {
        broadcast use vstd::laws_cmp::group_laws_cmp;

        T0::law_ordered();
        T1::law_ordered();
        T2::law_ordered();
        T3::law_ordered();
        T4::law_ordered();
        T5::law_ordered();
    }

    proof fn law_plain(&self) {
        self.0.law_plain();
        self.1.law_plain();
        self.2.law_plain();
        self.3.law_plain();
        self.4.law_plain();
        self.5.law_plain();
    }
}

impl<
    T0: OrdKey,
    T1: OrdKey,
    T2: OrdKey,
    T3: OrdKey,
    T4: OrdKey,
    T5: OrdKey,
    T6: OrdKey,
> OrdKey for (T0, T1, T2, T3, T4, T5, T6) {
    proof fn law_ordered() {
        broadcast use vstd::laws_cmp::group_laws_cmp;

        T0::law_ordered();
        T1::law_ordered();
        T2::law_ordered();
        T3::law_ordered();
        T4::law_ordered();
        T5::law_ordered();
        T6::law_ordered();
    }

    proof fn law_plain(&self) {
        self.0.law_plain();
        self.1.law_plain();
        self.2.law_plain();
        self.3.law_plain();
        self.4.law_plain();
        self.5.law_plain();
        self.6.law_plain();
    }
}

impl<
    T0: OrdKey,
    T1: OrdKey,
    T2: OrdKey,
    T3: OrdKey,
    T4: OrdKey,
    T5: OrdKey,
    T6: OrdKey,
    T7: OrdKey,
> OrdKey for (T0, T1, T2, T3, T4, T5, T6, T7) {
    proof fn law_ordered() {
        broadcast use vstd::laws_cmp::group_laws_cmp;

        T0::law_ordered();
        T1::law_ordered();
        T2::law_ordered();
        T3::law_ordered();
        T4::law_ordered();
        T5::law_ordered();
        T6::law_ordered();
        T7::law_ordered();
    }

    proof fn law_plain(&self) {
        self.0.law_plain();
        self.1.law_plain();
        self.2.law_plain();
        self.3.law_plain();
        self.4.law_plain();
        self.5.law_plain();
        self.6.law_plain();
        self.7.law_plain();
    }
}

impl<
    T0: OrdKey,
    T1: OrdKey,
    T2: OrdKey,
    T3: OrdKey,
    T4: OrdKey,
    T5: OrdKey,
    T6: OrdKey,
    T7: OrdKey,
    T8: OrdKey,
> OrdKey for (T0, T1, T2, T3, T4, T5, T6, T7, T8) {
    proof fn law_ordered() {
        broadcast use vstd::laws_cmp::group_laws_cmp;

        T0::law_ordered();
        T1::law_ordered();
        T2::law_ordered();
        T3::law_ordered();
        T4::law_ordered();
        T5::law_ordered();
        T6::law_ordered();
        T7::law_ordered();
        T8::law_ordered();
    }

    proof fn law_plain(&self) {
        self.0.law_plain();
        self.1.law_plain();
        self.2.law_plain();
        self.3.law_plain();
        self.4.law_plain();
        self.5.law_plain();
        self.6.law_plain();
        self.7.law_plain();
        self.8.law_plain();
    }
}

impl<
    T0: OrdKey,
    T1: OrdKey,
    T2: OrdKey,
    T3: OrdKey,
    T4: OrdKey,
    T5: OrdKey,
    T6: OrdKey,
    T7: OrdKey,
    T8: OrdKey,
    T9: OrdKey,
> OrdKey for (T0, T1, T2, T3, T4, T5, T6, T7, T8, T9) {
    proof fn law_ordered() {
        broadcast use vstd::laws_cmp::group_laws_cmp;

        T0::law_ordered();
        T1::law_ordered();
        T2::law_ordered();
        T3::law_ordered();
        T4::law_ordered();
        T5::law_ordered();
        T6::law_ordered();
        T7::law_ordered();
        T8::law_ordered();
        T9::law_ordered();
    }

    proof fn law_plain(&self) {
        self.0.law_plain();
        self.1.law_plain();
        self.2.law_plain();
        self.3.law_plain();
        self.4.law_plain();
        self.5.law_plain();
        self.6.law_plain();
        self.7.law_plain();
        self.8.law_plain();
        self.9.law_plain();
    }
}

impl<
    T0: OrdKey,
    T1: OrdKey,
    T2: OrdKey,
    T3: OrdKey,
    T4: OrdKey,
    T5: OrdKey,
    T6: OrdKey,
    T7: OrdKey,
    T8: OrdKey,
    T9: OrdKey,
    T10: OrdKey,
> OrdKey for (T0, T1, T2, T3, T4, T5, T6, T7, T8, T9, T10) {
    proof fn law_ordered() {
        broadcast use vstd::laws_cmp::group_laws_cmp;

        T0::law_ordered();
        T1::law_ordered();
        T2::law_ordered();
        T3::law_ordered();
        T4::law_ordered();
        T5::law_ordered();
        T6::law_ordered();
        T7::law_ordered();
        T8::law_ordered();
        T9::law_ordered();
        T10::law_ordered();
    }

    proof fn law_plain(&self) {
        self.0.law_plain();
        self.1.law_plain();
        self.2.law_plain();
        self.3.law_plain();
        self.4.law_plain();
        self.5.law_plain();
        self.6.law_plain();
        self.7.law_plain();
        self.8.law_plain();
        self.9.law_plain();
        self.10.law_plain();
    }
}

impl<
    T0: OrdKey,
    T1: OrdKey,
    T2: OrdKey,
    T3: OrdKey,
    T4: OrdKey,
    T5: OrdKey,
    T6: OrdKey,
    T7: OrdKey,
    T8: OrdKey,
    T9: OrdKey,
    T10: OrdKey,
    T11: OrdKey,
> OrdKey for (T0, T1, T2, T3, T4, T5, T6, T7, T8, T9, T10, T11) {
    proof fn law_ordered() {
        broadcast use vstd::laws_cmp::group_laws_cmp;

        T0::law_ordered();
        T1::law_ordered();
        T2::law_ordered();
        T3::law_ordered();
        T4::law_ordered();
        T5::law_ordered();
        T6::law_ordered();
        T7::law_ordered();
        T8::law_ordered();
        T9::law_ordered();
        T10::law_ordered();
        T11::law_ordered();
    }

    proof fn law_plain(&self) {
        self.0.law_plain();
        self.1.law_plain();
        self.2.law_plain();
        self.3.law_plain();
        self.4.law_plain();
        self.5.law_plain();
        self.6.law_plain();
        self.7.law_plain();
        self.8.law_plain();
        self.9.law_plain();
        self.10.law_plain();
        self.11.law_plain();
    }
}

impl HashKey for bool {
    proof fn law_hashed() {
    }

    proof fn law_plain(&self) {
    }
}

/// All of a sequence is the sequence.
proof fn lemma_take_whole<T>(items: Seq<T>)
    ensures
        items.take(items.len() as int) == items,
{
    assert(items.take(items.len() as int) =~= items);
}

/// What a sequence of entries is as a map, the last entry of a key counting.
pub open spec fn map_of<K, V>(entries: Seq<(K, V)>) -> Map<K, V>
    decreases entries.len(),
{
    if entries.len() == 0 {
        Map::empty()
    } else {
        map_of(entries.drop_last()).insert(entries.last().0, entries.last().1)
    }
}

/// What a sequence of items is as a set.
pub open spec fn set_of<T>(items: Seq<T>) -> Set<T>
    decreases items.len(),
{
    if items.len() == 0 {
        Set::empty()
    } else {
        set_of(items.drop_last()).insert(items.last())
    }
}

/// A map is made of its entries, in whatever order they are inserted.
pub proof fn lemma_map_of<K, V>(entries: Seq<(K, V)>, map: Map<K, V>)
    requires
        forall|i: int|
            0 <= i < entries.len() ==> map.contains_key((#[trigger] entries[i]).0)
                && map[entries[i].0] == entries[i].1,
        forall|k: K| #[trigger] map.contains_key(k) ==> entries.contains((k, map[k])),
    ensures
        map_of(entries) == map,
{
    assert forall|k: K| #[trigger] map.contains_key(k) implies map_of(entries).contains_key(k) by {
        let i = entries.index_of((k, map[k]));
        lemma_map_of_keys(entries, i);
    }
    lemma_map_of_within(entries, map);
    assert(map_of(entries) =~= map);
}

proof fn lemma_map_of_keys<K, V>(entries: Seq<(K, V)>, i: int)
    requires
        0 <= i < entries.len(),
    ensures
        map_of(entries).contains_key(entries[i].0),
    decreases entries.len(),
{
    if i < entries.len() - 1 {
        lemma_map_of_keys(entries.drop_last(), i);
    }
}

proof fn lemma_map_of_within<K, V>(entries: Seq<(K, V)>, map: Map<K, V>)
    requires
        forall|i: int|
            0 <= i < entries.len() ==> map.contains_key((#[trigger] entries[i]).0)
                && map[entries[i].0] == entries[i].1,
    ensures
        forall|k: K| #[trigger]
            map_of(entries).contains_key(k) ==> map.contains_key(k) && map_of(entries)[k] == map[k],
    decreases entries.len(),
{
    if entries.len() > 0 {
        let front = entries.drop_last();
        assert forall|i: int| 0 <= i < front.len() implies map.contains_key(
            (#[trigger] front[i]).0,
        ) && map[front[i].0] == front[i].1 by {
            assert(front[i] == entries[i]);
        }
        lemma_map_of_within(front, map);
        let last = entries[entries.len() - 1];
        assert(map.contains_key(last.0) && map[last.0] == last.1);
        assert forall|k: K| #[trigger] map_of(entries).contains_key(k) implies map.contains_key(k)
            && map_of(entries)[k] == map[k] by {
            if k != last.0 {
                assert(map_of(front).contains_key(k));
            }
        }
    }
}

/// A set is made of its items, in whatever order they are inserted.
pub proof fn lemma_set_of<T>(items: Seq<T>)
    ensures
        set_of(items) == items.to_set(),
    decreases items.len(),
{
    if items.len() > 0 {
        let front = items.drop_last();
        lemma_set_of(front);
        assert forall|x: T| items.to_set().contains(x) <==> set_of(items).contains(x) by {
            if items.contains(x) {
                let i = items.index_of(x);
                if i < front.len() {
                    assert(front[i] == x);
                }
            }
            if front.contains(x) {
                let i = front.index_of(x);
                assert(items[i] == x);
            }
            assert(items[items.len() - 1] == items.last());
        }
        assert(set_of(items) =~= items.to_set());
    } else {
        assert(set_of(items) =~= items.to_set());
    }
}

/// Borrowed entries are written as the entries themselves.
pub proof fn lemma_borrowed_entries<K: Encode, V: Encode>(borrowed: Seq<(&K, &V)>)
    ensures
        items_chunks(borrowed) == items_chunks(borrowed.unref()),
        items_hint(borrowed) == items_hint(borrowed.unref()),
    decreases borrowed.len(),
{
    if borrowed.len() > 0 {
        lemma_borrowed_entries(borrowed.drop_last());
        assert(borrowed.drop_last().unref() =~= borrowed.unref().drop_last());
    }
}

/// Borrowed items are written as the items themselves.
pub proof fn lemma_borrowed_items<T: Encode>(borrowed: Seq<&T>)
    ensures
        items_chunks(borrowed) == items_chunks(borrowed.unref()),
        items_hint(borrowed) == items_hint(borrowed.unref()),
    decreases borrowed.len(),
{
    if borrowed.len() > 0 {
        lemma_borrowed_items(borrowed.drop_last());
        assert(borrowed.drop_last().unref() =~= borrowed.unref().drop_last());
    }
}

/// Decodes items with their amount before them.
pub open spec fn listed_decoding<T: Decode>(feed: Feed) -> (
    Result<Seq<T::Value>, DecodeError>,
    Feed,
) {
    match u32::decoding(feed) {
        (Ok(len), feed) => items_decoding::<T>(feed, len as nat),
        (Err(e), feed) => (Err(e), feed),
    }
}

/// Decodes items with their amount before them.
fn decode_list<T: Decode, B: DecodeBearer>(bearer: &mut B) -> (r: Result<Vec<T>, DecodeError>)
    requires
        old(bearer).inv(),
    ensures
        decoded(*old(bearer), *final(bearer), listed_decoding::<T>(old(bearer).feed()), meant(r)),
{
    let len: usize = match u32::decode(bearer) {
        Ok(len) => len as usize,
        Err(e) => return Err(e),
    };
    decode_items(bearer, len)
}

/// Items with their amount before them are decoded as they were encoded.
pub proof fn lemma_listed_round_trip<T: Codec>(items: Seq<T>, feed: Feed, tail: Tail)
    requires
        items.len() <= u32::MAX,
        items_faithful(items),
        holds(feed, tail),
        tail.take_all(counted_chunks(items)) is Some,
    ensures
        listed_decoding::<T>(feed).0 == Ok::<Seq<T::Value>, DecodeError>(items_value(items)),
        holds(listed_decoding::<T>(feed).1, tail.take_all(counted_chunks(items))->0),
{
    let count = seq![le_bytes(items.len(), 4)];
    lemma_span_values();
    lemma_take_all_add(tail, count, items_chunks(items));
    lemma_uint_round_trip(items.len(), 4, feed, tail);
    lemma_items_round_trip(items, u32::decoding(feed).1, tail.take_all(count)->0);
}

// Ordered maps

/// Entries of an ordered map, in the order they are walked.
pub open spec fn btree_entries<K, V>(map: &BTreeMap<K, V>) -> Seq<(K, V)> {
    vstd::std_specs::btree::into_iter(spec_btree_map_iter(map))
}

/// Whether the entries walked make up the map, which every walk finds.
pub open spec fn btree_entries_complete<K, V>(map: &BTreeMap<K, V>) -> bool {
    &&& forall|i: int|
        0 <= i < btree_entries(map).len() ==> map@.contains_key((#[trigger] btree_entries(map)[i]).0)
            && map@[btree_entries(map)[i].0] == btree_entries(map)[i].1
    &&& forall|k: K| #[trigger] map@.contains_key(k) ==> btree_entries(map).contains((k, map@[k]))
}

/// Walks an ordered map.
fn walk_btree_entries<'a, K: OrdKey, V>(map: &'a BTreeMap<K, V>) -> (r: Vec<(&'a K, &'a V)>)
    ensures
        r@.unref() == btree_entries(map),
        btree_entries_complete(map),
        increasing_seq(btree_entries(map).map_values(|entry: (K, V)| entry.0)),
        r@.len() == map@.len(),
{
    proof {
        K::law_ordered();
    }
    let mut entries: Vec<(&'a K, &'a V)> = Vec::with_capacity(map.len());
    let iter = map.iter();
    let ghost all = iter.remaining();
    for entry in walk: iter
        invariant
            entries@ == all.take(walk.index()),
            walk.seq() == all,
    {
        entries.push(entry);
        assert(entries@ =~= all.take(walk.index() + 1));
    }
    proof {
        lemma_take_whole(all);
        assert(all.unref() =~= btree_entries(map));
        assert forall|i: int| 0 <= i < btree_entries(map).len() implies map@.contains_key(
            (#[trigger] btree_entries(map)[i]).0,
        ) && map@[btree_entries(map)[i].0] == btree_entries(map)[i].1 by {
            assert(btree_entries(map)[i] == (*all[i].0, *all[i].1));
            assert(map@.contains_key(*all[i].0));
        }
        assert forall|k: K| #[trigger] map@.contains_key(k) implies btree_entries(map).contains(
            (k, map@[k]),
        ) by {
            let i = all.index_of((&k, &map@[k]));
            assert(btree_entries(map)[i] == (k, map@[k]));
        }
        assert(all.map_values(|entry: (&K, &V)| *entry.0) =~= btree_entries(map).map_values(
            |entry: (K, V)| entry.0,
        ));
    }
    entries
}

impl<K, V: Data> Data for BTreeMap<K, V> {
    type Value = Map<K, V::Value>;

    open spec fn value(&self) -> Map<K, V::Value> {
        self@.map_values(|v: V| v.value())
    }
}

impl<K, V> Encode for BTreeMap<K, V> where K: OrdKey, V: Encode {
    /// The entries in ascending order of their keys.
    open spec fn wire(&self) -> Seq<Seq<u8>> {
        counted_chunks(btree_entries(self))
    }

    /// The amount of entries is not accounted for.
    open spec fn size_hint(&self) -> nat {
        items_hint(btree_entries(self))
    }

    fn encode<B: EncodeBearer>(bearer: &mut B, src: &Self) -> (r: Result<(), EncodeError>)
        ensures
            btree_entries_complete(src),
            btree_entries(src).len() == src@.len(),
            increasing_seq(btree_entries(src).map_values(|entry: (K, V)| entry.0)),
    {
        let entries = walk_btree_entries(src);
        proof {
            lemma_borrowed_entries(entries@);
        }
        <[(&K, &V)]>::encode(bearer, entries.as_slice())
    }

    fn size_of(&self) -> (r: usize) {
        let entries = walk_btree_entries(self);
        proof {
            lemma_borrowed_entries(entries@);
        }
        sum_hints(entries.as_slice())
    }
}

impl<K, V> Decode for BTreeMap<K, V> where K: OrdKey, V: Decode {
    open spec fn decoding(feed: Feed) -> (Result<Map<K, V::Value>, DecodeError>, Feed) {
        match listed_decoding::<(K, V)>(feed) {
            (Ok(entries), feed) => (Ok(map_of(entries)), feed),
            (Err(e), feed) => (Err(e), feed),
        }
    }

    fn decode<B: DecodeBearer>(bearer: &mut B) -> (r: Result<Self, DecodeError>) {
        let entries: Vec<(K, V)> = match decode_list(bearer) {
            Ok(entries) => entries,
            Err(e) => return Err(e),
        };
        proof {
            K::law_ordered();
        }
        let ghost all = entries@;
        let mut map: BTreeMap<K, V> = BTreeMap::new();
        assert(map.value() =~= map_of(items_value(all.take(0))));
        for entry in walk: entries
            invariant
                walk.seq() == all,
                map.value() == map_of(items_value(all.take(walk.index()))),
                obeys_cmp::<K>(),
        {
            let ghost before = map@;
            let ghost done = all.take(walk.index());
            let (key, value) = entry;
            map.insert(key, value);
            proof {
                let next = all.take(walk.index() + 1);
                key.law_plain();
                assert(items_value(next).drop_last() =~= items_value(done));
                assert(items_value(next).last() == (key, value.value()));
                assert(map.value() =~= before.map_values(|v: V| v.value()).insert(
                    key,
                    value.value(),
                ));
            }
        }
        proof {
            lemma_take_whole(all);
        }
        Ok(map)
    }
}

impl<K, V> Codec for BTreeMap<K, V> where K: OrdKey, V: Codec {
    open spec fn faithful(&self) -> bool {
        &&& btree_entries_complete(self)
        &&& btree_entries(self).len() <= u32::MAX
        &&& items_faithful(btree_entries(self))
    }

    proof fn law_chunks_within(&self) {
        lemma_counted_within(btree_entries(self));
    }

    proof fn law_round_trip(&self, feed: Feed, tail: Tail) {
        let entries = btree_entries(self);
        let values = items_value(entries);
        let map = self.value();
        lemma_listed_round_trip(entries, feed, tail);
        assert forall|i: int| 0 <= i < values.len() implies map.contains_key(
            (#[trigger] values[i]).0,
        ) && map[values[i].0] == values[i].1 by {
            entries[i].0.law_plain();
        }
        assert forall|k: K| #[trigger] map.contains_key(k) implies values.contains(
            (k, map[k]),
        ) by {
            assert(self@.contains_key(k));
            let i = entries.index_of((k, self@[k]));
            k.law_plain();
            assert(values[i] == (k, map[k]));
        }
        lemma_map_of(values, map);
    }
}

// Ordered sets

/// Items of an ordered set, in the order they are walked.
pub open spec fn btree_items<T>(set: &BTreeSet<T>) -> Seq<T> {
    vstd::std_specs::btree::into_iter_btree_keys(spec_btree_keys_iter(set))
}

/// Whether the items walked make up the set, which every walk finds.
pub open spec fn btree_items_complete<T>(set: &BTreeSet<T>) -> bool {
    btree_items(set).to_set() == set@
}

/// Whether the items are walked in ascending order.
pub open spec fn btree_items_ascending<T>(set: &BTreeSet<T>) -> bool {
    exists|borrowed: Seq<&T>| #[trigger]
        borrowed.unref() == btree_items(set) && increasing_seq(borrowed)
}

/// Walks an ordered set.
fn walk_btree_items<'a, T: OrdKey>(set: &'a BTreeSet<T>) -> (r: Vec<&'a T>)
    ensures
        r@.unref() == btree_items(set),
        btree_items_complete(set),
        btree_items_ascending(set),
        r@.len() == set@.len(),
{
    proof {
        T::law_ordered();
    }
    let mut items: Vec<&'a T> = Vec::with_capacity(set.len());
    let iter = set.iter();
    let ghost all = iter.remaining();
    for item in walk: iter
        invariant
            items@ == all.take(walk.index()),
            walk.seq() == all,
    {
        items.push(item);
        assert(items@ =~= all.take(walk.index() + 1));
    }
    proof {
        lemma_take_whole(all);
        assert(all.unref() =~= btree_items(set));
    }
    items
}

impl<T> Data for BTreeSet<T> {
    type Value = Set<T>;

    open spec fn value(&self) -> Set<T> {
        self@
    }
}

impl<T> Encode for BTreeSet<T> where T: OrdKey {
    /// The items in ascending order.
    open spec fn wire(&self) -> Seq<Seq<u8>> {
        counted_chunks(btree_items(self))
    }

    /// The amount of items is not accounted for.
    open spec fn size_hint(&self) -> nat {
        items_hint(btree_items(self))
    }

    fn encode<B: EncodeBearer>(bearer: &mut B, src: &Self) -> (r: Result<(), EncodeError>)
        ensures
            btree_items_complete(src),
            btree_items(src).len() == src@.len(),
            btree_items_ascending(src),
    {
        let items = walk_btree_items(src);
        proof {
            lemma_borrowed_items(items@);
        }
        <[&T]>::encode(bearer, items.as_slice())
    }

    fn size_of(&self) -> (r: usize) {
        let items = walk_btree_items(self);
        proof {
            lemma_borrowed_items(items@);
        }
        sum_hints(items.as_slice())
    }
}

impl<T> Decode for BTreeSet<T> where T: OrdKey {
    open spec fn decoding(feed: Feed) -> (Result<Set<T>, DecodeError>, Feed) {
        match listed_decoding::<T>(feed) {
            (Ok(items), feed) => (Ok(set_of(items)), feed),
            (Err(e), feed) => (Err(e), feed),
        }
    }

    fn decode<B: DecodeBearer>(bearer: &mut B) -> (r: Result<Self, DecodeError>) {
        let items: Vec<T> = match decode_list(bearer) {
            Ok(items) => items,
            Err(e) => return Err(e),
        };
        proof {
            T::law_ordered();
        }
        let ghost all = items@;
        let mut set: BTreeSet<T> = BTreeSet::new();
        assert(set@ =~= set_of(items_value(all.take(0))));
        for item in walk: items
            invariant
                walk.seq() == all,
                set@ == set_of(items_value(all.take(walk.index()))),
                obeys_cmp::<T>(),
        {
            proof {
                let next = all.take(walk.index() + 1);
                item.law_plain();
                assert(items_value(next).drop_last() =~= items_value(all.take(walk.index())));
                assert(items_value(next).last() == item);
            }
            set.insert(item);
        }
        proof {
            lemma_take_whole(all);
        }
        Ok(set)
    }
}

impl<T> Codec for BTreeSet<T> where T: OrdKey {
    open spec fn faithful(&self) -> bool {
        &&& btree_items_complete(self)
        &&& btree_items(self).len() <= u32::MAX
        &&& items_faithful(btree_items(self))
    }

    proof fn law_chunks_within(&self) {
        lemma_counted_within(btree_items(self));
    }

    proof fn law_round_trip(&self, feed: Feed, tail: Tail) {
        let items = btree_items(self);
        lemma_listed_round_trip(items, feed, tail);
        assert forall|i: int| 0 <= i < items.len() implies items_value(items)[i] == items[i] by {
            items[i].law_plain();
        }
        assert(items_value(items) =~= items);
        lemma_set_of(items);
    }
}

// Hash maps

/// Entries of a hash map, in the order they are walked.
pub open spec fn hash_entries<K, V>(map: &HashMap<K, V>) -> Seq<(K, V)> {
    vstd::std_specs::hash::into_iter(spec_hash_map_iter(map))
}

/// Whether the entries walked make up the map, which every walk finds.
pub open spec fn hash_entries_complete<K, V>(map: &HashMap<K, V>) -> bool {
    &&& forall|i: int|
        0 <= i < hash_entries(map).len() ==> map@.contains_key((#[trigger] hash_entries(map)[i]).0)
            && map@[hash_entries(map)[i].0] == hash_entries(map)[i].1
    &&& forall|k: K| #[trigger] map@.contains_key(k) ==> hash_entries(map).contains((k, map@[k]))
}

/// Walks a hash map.
fn walk_hash_entries<'a, K: HashKey, V>(map: &'a HashMap<K, V>) -> (r: Vec<(&'a K, &'a V)>)
    ensures
        r@.unref() == hash_entries(map),
        hash_entries_complete(map),
        r@.len() == map@.len(),
{
    proof {
        K::law_hashed();
    }
    let mut entries: Vec<(&'a K, &'a V)> = Vec::with_capacity(map.len());
    let iter = map.iter();
    let ghost all = iter.remaining();
    for entry in walk: iter
        invariant
            entries@ == all.take(walk.index()),
            walk.seq() == all,
    {
        entries.push(entry);
        assert(entries@ =~= all.take(walk.index() + 1));
    }
    proof {
        lemma_take_whole(all);
        assert(all.unref() =~= hash_entries(map));
        assert forall|i: int| 0 <= i < hash_entries(map).len() implies map@.contains_key(
            (#[trigger] hash_entries(map)[i]).0,
        ) && map@[hash_entries(map)[i].0] == hash_entries(map)[i].1 by {
            assert(hash_entries(map)[i] == (*all[i].0, *all[i].1));
            assert(map@.contains_key(*all[i].0));
        }
        assert forall|k: K| #[trigger] map@.contains_key(k) implies hash_entries(map).contains(
            (k, map@[k]),
        ) by {
            let i = all.index_of((&k, &map@[k]));
            assert(hash_entries(map)[i] == (k, map@[k]));
        }
    }
    entries
}

impl<K, V: Data> Data for HashMap<K, V> {
    type Value = Map<K, V::Value>;

    open spec fn value(&self) -> Map<K, V::Value> {
        self@.map_values(|v: V| v.value())
    }
}

impl<K, V> Encode for HashMap<K, V> where K: HashKey, V: Encode {
    /// The entries in the order this very map is walked, which its contents do not determine.
    open spec fn wire(&self) -> Seq<Seq<u8>> {
        counted_chunks(hash_entries(self))
    }

    /// The amount of entries is not accounted for.
    open spec fn size_hint(&self) -> nat {
        items_hint(hash_entries(self))
    }

    fn encode<B: EncodeBearer>(bearer: &mut B, src: &Self) -> (r: Result<(), EncodeError>)
        ensures
            hash_entries_complete(src),
            hash_entries(src).len() == src@.len(),
    {
        let entries = walk_hash_entries(src);
        proof {
            lemma_borrowed_entries(entries@);
        }
        <[(&K, &V)]>::encode(bearer, entries.as_slice())
    }

    fn size_of(&self) -> (r: usize) {
        let entries = walk_hash_entries(self);
        proof {
            lemma_borrowed_entries(entries@);
        }
        sum_hints(entries.as_slice())
    }
}

impl<K, V> Decode for HashMap<K, V> where K: HashKey, V: Decode {
    open spec fn decoding(feed: Feed) -> (Result<Map<K, V::Value>, DecodeError>, Feed) {
        match listed_decoding::<(K, V)>(feed) {
            (Ok(entries), feed) => (Ok(map_of(entries)), feed),
            (Err(e), feed) => (Err(e), feed),
        }
    }

    fn decode<B: DecodeBearer>(bearer: &mut B) -> (r: Result<Self, DecodeError>) {
        let entries: Vec<(K, V)> = match decode_list(bearer) {
            Ok(entries) => entries,
            Err(e) => return Err(e),
        };
        proof {
            K::law_hashed();
        }
        let ghost all = entries@;
        let mut map: HashMap<K, V> = HashMap::new();
        assert(map.value() =~= map_of(items_value(all.take(0))));
        for entry in walk: entries
            invariant
                walk.seq() == all,
                map.value() == map_of(items_value(all.take(walk.index()))),
                obeys_key_model::<K>(),
        {
            let ghost before = map@;
            let ghost done = all.take(walk.index());
            let (key, value) = entry;
            map.insert(key, value);
            proof {
                let next = all.take(walk.index() + 1);
                key.law_plain();
                assert(items_value(next).drop_last() =~= items_value(done));
                assert(items_value(next).last() == (key, value.value()));
                assert(map.value() =~= before.map_values(|v: V| v.value()).insert(
                    key,
                    value.value(),
                ));
            }
        }
        proof {
            lemma_take_whole(all);
        }
        Ok(map)
    }
}

impl<K, V> Codec for HashMap<K, V> where K: HashKey, V: Codec {
    open spec fn faithful(&self) -> bool {
        &&& hash_entries_complete(self)
        &&& hash_entries(self).len() <= u32::MAX
        &&& items_faithful(hash_entries(self))
    }

    proof fn law_chunks_within(&self) {
        lemma_counted_within(hash_entries(self));
    }

    proof fn law_round_trip(&self, feed: Feed, tail: Tail) {
        let entries = hash_entries(self);
        let values = items_value(entries);
        let map = self.value();
        lemma_listed_round_trip(entries, feed, tail);
        assert forall|i: int| 0 <= i < values.len() implies map.contains_key(
            (#[trigger] values[i]).0,
        ) && map[values[i].0] == values[i].1 by {
            entries[i].0.law_plain();
        }
        assert forall|k: K| #[trigger] map.contains_key(k) implies values.contains(
            (k, map[k]),
        ) by {
            assert(self@.contains_key(k));
            let i = entries.index_of((k, self@[k]));
            k.law_plain();
            assert(values[i] == (k, map[k]));
        }
        lemma_map_of(values, map);
    }
}

// Hash sets

/// Items of a hash set, in the order they are walked.
pub open spec fn hash_items<T>(set: &HashSet<T>) -> Seq<T> {
    vstd::std_specs::hash::into_iter_hash_keys(spec_hash_keys_iter(set))
}

/// Whether the items walked make up the set, which every walk finds.
pub open spec fn hash_items_complete<T>(set: &HashSet<T>) -> bool {
    hash_items(set).to_set() == set@
}

/// Walks a hash set.
fn walk_hash_items<'a, T: HashKey>(set: &'a HashSet<T>) -> (r: Vec<&'a T>)
    ensures
        r@.unref() == hash_items(set),
        hash_items_complete(set),
        r@.len() == set@.len(),
{
    proof {
        T::law_hashed();
    }
    let mut items: Vec<&'a T> = Vec::with_capacity(set.len());
    let iter = set.iter();
    let ghost all = iter.remaining();
    for item in walk: iter
        invariant
            items@ == all.take(walk.index()),
            walk.seq() == all,
    {
        items.push(item);
        assert(items@ =~= all.take(walk.index() + 1));
    }
    proof {
        lemma_take_whole(all);
        assert(all.unref() =~= hash_items(set));
    }
    items
}

impl<T> Data for HashSet<T> {
    type Value = Set<T>;

    open spec fn value(&self) -> Set<T> {
        self@
    }
}

impl<T> Encode for HashSet<T> where T: HashKey {
    /// The items in the order this very set is walked, which its contents do not determine.
    open spec fn wire(&self) -> Seq<Seq<u8>> {
        counted_chunks(hash_items(self))
    }

    /// The amount of items is not accounted for.
    open spec fn size_hint(&self) -> nat {
        items_hint(hash_items(self))
    }

    fn encode<B: EncodeBearer>(bearer: &mut B, src: &Self) -> (r: Result<(), EncodeError>)
        ensures
            hash_items_complete(src),
            hash_items(src).len() == src@.len(),
    {
        let items = walk_hash_items(src);
        proof {
            lemma_borrowed_items(items@);
        }
        <[&T]>::encode(bearer, items.as_slice())
    }

    fn size_of(&self) -> (r: usize) {
        let items = walk_hash_items(self);
        proof {
            lemma_borrowed_items(items@);
        }
        sum_hints(items.as_slice())
    }
}

impl<T> Decode for HashSet<T> where T: HashKey {
    open spec fn decoding(feed: Feed) -> (Result<Set<T>, DecodeError>, Feed) {
        match listed_decoding::<T>(feed) {
            (Ok(items), feed) => (Ok(set_of(items)), feed),
            (Err(e), feed) => (Err(e), feed),
        }
    }

    fn decode<B: DecodeBearer>(bearer: &mut B) -> (r: Result<Self, DecodeError>) {
        let items: Vec<T> = match decode_list(bearer) {
            Ok(items) => items,
            Err(e) => return Err(e),
        };
        proof {
            T::law_hashed();
        }
        let ghost all = items@;
        let mut set: HashSet<T> = HashSet::new();
        assert(set@ =~= set_of(items_value(all.take(0))));
        for item in walk: items
            invariant
                walk.seq() == all,
                set@ == set_of(items_value(all.take(walk.index()))),
                obeys_key_model::<T>(),
        {
            proof {
                let next = all.take(walk.index() + 1);
                item.law_plain();
                assert(items_value(next).drop_last() =~= items_value(all.take(walk.index())));
                assert(items_value(next).last() == item);
            }
            set.insert(item);
        }
        proof {
            lemma_take_whole(all);
        }
        Ok(set)
    }
}

impl<T> Codec for HashSet<T> where T: HashKey {
    open spec fn faithful(&self) -> bool {
        &&& hash_items_complete(self)
        &&& hash_items(self).len() <= u32::MAX
        &&& items_faithful(hash_items(self))
    }

    proof fn law_chunks_within(&self) {
        lemma_counted_within(hash_items(self));
    }

    proof fn law_round_trip(&self, feed: Feed, tail: Tail) {
        let items = hash_items(self);
        lemma_listed_round_trip(items, feed, tail);
        assert forall|i: int| 0 <= i < items.len() implies items_value(items)[i] == items[i] by {
            items[i].law_plain();
        }
        assert(items_value(items) =~= items);
        lemma_set_of(items);
    }
}

} // verus!

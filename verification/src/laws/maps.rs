//! How maps and sets are stored and what comes back of them. That a walk finds all of the
//! entries is what encoding ensures.

use vstd::prelude::*;
use vstd::std_specs::btree::increasing_seq;

use crate::codec::map::{
    btree_entries,
    btree_entries_complete,
    btree_items,
    btree_items_ascending,
    btree_items_complete,
    hash_entries,
    hash_entries_complete,
    hash_items,
    hash_items_complete,
    lemma_set_of,
    map_of,
    HashKey,
    OrdKey,
};
use crate::codec::seq::{items_chunks, items_decoding, items_hint};
use crate::codec::Codec;
use crate::decode::{Data, Decode, DecodeError};
use crate::encode::Encode;
use crate::little_endian::le_bytes;
use crate::stream::Feed;

use std::collections::{BTreeMap, BTreeSet, HashMap, HashSet};

verus! {

/// An ordered map is stored as the vector of its entries, each of them once, in ascending
/// order of the keys. It comes back if its length fits four bytes and its entries do.
pub proof fn law_btree_map_stored<K: OrdKey, V: Codec>(map: &BTreeMap<K, V>)
    requires
        btree_entries_complete(map),
        btree_entries(map).len() == map@.len(),
        increasing_seq(btree_entries(map).map_values(|entry: (K, V)| entry.0)),
    ensures
        ({
            let entries = btree_entries(map);
            &&& map.wire() == seq![le_bytes(map@.len(), 4)] + items_chunks(entries)
            &&& map.size_hint() == items_hint(entries)
            &&& entries.len() == map@.len()
            &&& forall|i: int|
                0 <= i < entries.len() ==> map@.contains_key((#[trigger] entries[i]).0)
                    && map@[entries[i].0] == entries[i].1
            &&& forall|k: K| #[trigger] map@.contains_key(k) ==> entries.contains((k, map@[k]))
            &&& increasing_seq(entries.map_values(|entry: (K, V)| entry.0))
        }),
        map@.len() <= u32::MAX && (forall|k: K| #[trigger]
            map@.contains_key(k) ==> k.faithful() && map@[k].faithful()) ==> map.faithful(),
        map.value().dom() == map@.dom(),
        forall|k: K| #[trigger] map@.contains_key(k) ==> map.value()[k] == map@[k].value(),
{
    assert(map.value().dom() =~= map@.dom());
    let entries = btree_entries(map);
    if map@.len() <= u32::MAX && (forall|k: K| #[trigger]
        map@.contains_key(k) ==> k.faithful() && map@[k].faithful()) {
        assert forall|i: int| 0 <= i < entries.len() implies (#[trigger] entries[i]).faithful() by {
            assert(map@.contains_key(entries[i].0));
        }
    }
}

/// A hash map is stored as the vector of its entries, each of them once, in the order this
/// very map is walked. It comes back if its length fits four bytes and its entries do.
pub proof fn law_hash_map_stored<K: HashKey, V: Codec>(map: &HashMap<K, V>)
    requires
        hash_entries_complete(map),
        hash_entries(map).len() == map@.len(),
    ensures
        ({
            let entries = hash_entries(map);
            &&& map.wire() == seq![le_bytes(map@.len(), 4)] + items_chunks(entries)
            &&& map.size_hint() == items_hint(entries)
            &&& entries.len() == map@.len()
            &&& forall|i: int|
                0 <= i < entries.len() ==> map@.contains_key((#[trigger] entries[i]).0)
                    && map@[entries[i].0] == entries[i].1
            &&& forall|k: K| #[trigger] map@.contains_key(k) ==> entries.contains((k, map@[k]))
        }),
        map@.len() <= u32::MAX && (forall|k: K| #[trigger]
            map@.contains_key(k) ==> k.faithful() && map@[k].faithful()) ==> map.faithful(),
        map.value().dom() == map@.dom(),
        forall|k: K| #[trigger] map@.contains_key(k) ==> map.value()[k] == map@[k].value(),
{
    assert(map.value().dom() =~= map@.dom());
    let entries = hash_entries(map);
    if map@.len() <= u32::MAX && (forall|k: K| #[trigger]
        map@.contains_key(k) ==> k.faithful() && map@[k].faithful()) {
        assert forall|i: int| 0 <= i < entries.len() implies (#[trigger] entries[i]).faithful() by {
            assert(map@.contains_key(entries[i].0));
        }
    }
}

/// An ordered set is stored as the vector of its items, each of them once, in ascending
/// order. It comes back if its length fits four bytes and its items do.
pub proof fn law_btree_set_stored<T: OrdKey>(set: &BTreeSet<T>)
    requires
        btree_items_complete(set),
        btree_items(set).len() == set@.len(),
        btree_items_ascending(set),
    ensures
        ({
            let items = btree_items(set);
            &&& set.wire() == seq![le_bytes(set@.len(), 4)] + items_chunks(items)
            &&& set.size_hint() == items_hint(items)
            &&& items.len() == set@.len()
            &&& forall|x: T| #[trigger] set@.contains(x) <==> items.contains(x)
            &&& exists|borrowed: Seq<&T>| #[trigger]
                borrowed.unref() == items && increasing_seq(borrowed)
        }),
        set@.len() <= u32::MAX && (forall|x: T| #[trigger] set@.contains(x) ==> x.faithful())
            ==> set.faithful(),
        set.value() == set@,
{
    let items = btree_items(set);
    assert forall|x: T| #[trigger] set@.contains(x) <==> items.contains(x) by {
        assert(items.to_set().contains(x) <==> items.contains(x));
    }
    if set@.len() <= u32::MAX && (forall|x: T| #[trigger] set@.contains(x) ==> x.faithful()) {
        assert forall|i: int| 0 <= i < items.len() implies (#[trigger] items[i]).faithful() by {
            assert(items.contains(items[i]));
            assert(set@.contains(items[i]));
        }
    }
}

/// A hash set is stored as the vector of its items, each of them once. It comes back if its
/// length fits four bytes and its items do.
pub proof fn law_hash_set_stored<T: HashKey>(set: &HashSet<T>)
    requires
        hash_items_complete(set),
        hash_items(set).len() == set@.len(),
    ensures
        ({
            let items = hash_items(set);
            &&& set.wire() == seq![le_bytes(set@.len(), 4)] + items_chunks(items)
            &&& set.size_hint() == items_hint(items)
            &&& items.len() == set@.len()
            &&& forall|x: T| #[trigger] set@.contains(x) <==> items.contains(x)
        }),
        set@.len() <= u32::MAX && (forall|x: T| #[trigger] set@.contains(x) ==> x.faithful())
            ==> set.faithful(),
        set.value() == set@,
{
    let items = hash_items(set);
    assert forall|x: T| #[trigger] set@.contains(x) <==> items.contains(x) by {
        assert(items.to_set().contains(x) <==> items.contains(x));
    }
    if set@.len() <= u32::MAX && (forall|x: T| #[trigger] set@.contains(x) ==> x.faithful()) {
        assert forall|i: int| 0 <= i < items.len() implies (#[trigger] items[i]).faithful() by {
            assert(items.contains(items[i]));
            assert(set@.contains(items[i]));
        }
    }
}

/// Of entries with the same key the last one counts.
pub proof fn law_last_entry_counts<K, V>(entries: Seq<(K, V)>, at: int)
    requires
        0 <= at < entries.len(),
        forall|i: int| at < i < entries.len() ==> (#[trigger] entries[i]).0 != entries[at].0,
    ensures
        map_of(entries).contains_key(entries[at].0),
        map_of(entries)[entries[at].0] == entries[at].1,
    decreases entries.len(),
{
    let last = entries.len() - 1;
    if at < last {
        let front = entries.drop_last();
        assert(entries[last].0 != entries[at].0);
        assert forall|i: int| at < i < front.len() implies (#[trigger] front[i]).0
            != front[at].0 by {
            assert(front[i] == entries[i]);
        }
        law_last_entry_counts(front, at);
    }
}

/// Entries make a map with no keys but theirs.
pub proof fn law_keys_of_entries<K, V>(entries: Seq<(K, V)>, key: K)
    requires
        map_of(entries).contains_key(key),
    ensures
        exists|i: int| 0 <= i < entries.len() && (#[trigger] entries[i]).0 == key,
    decreases entries.len(),
{
    if entries.len() > 0 {
        let last = entries.len() - 1;
        if entries[last].0 != key {
            let front = entries.drop_last();
            law_keys_of_entries(front, key);
            let i = choose|i: int| 0 <= i < front.len() && (#[trigger] front[i]).0 == key;
            assert(entries[i].0 == key);
        }
    }
}

/// Maps and sets are decoded as the amount of entries and then the entries.
pub proof fn law_maps_decoding<K: OrdKey, H: HashKey, V: Decode>(feed: Feed)
    ensures
        match u32::decoding(feed) {
            (Ok(len), after) => {
                &&& match items_decoding::<(K, V)>(after, len as nat) {
                    (Ok(entries), left) => BTreeMap::<K, V>::decoding(feed) == (
                        Ok::<Map<K, V::Value>, DecodeError>(map_of(entries)),
                        left,
                    ),
                    (Err(e), left) => BTreeMap::<K, V>::decoding(feed) == (
                        Err::<Map<K, V::Value>, DecodeError>(e),
                        left,
                    ),
                }
                &&& match items_decoding::<(H, V)>(after, len as nat) {
                    (Ok(entries), left) => HashMap::<H, V>::decoding(feed) == (
                        Ok::<Map<H, V::Value>, DecodeError>(map_of(entries)),
                        left,
                    ),
                    (Err(e), left) => HashMap::<H, V>::decoding(feed) == (
                        Err::<Map<H, V::Value>, DecodeError>(e),
                        left,
                    ),
                }
                &&& match items_decoding::<K>(after, len as nat) {
                    (Ok(items), left) => BTreeSet::<K>::decoding(feed) == (
                        Ok::<Set<K>, DecodeError>(items.to_set()),
                        left,
                    ),
                    (Err(e), left) => BTreeSet::<K>::decoding(feed) == (
                        Err::<Set<K>, DecodeError>(e),
                        left,
                    ),
                }
                &&& match items_decoding::<H>(after, len as nat) {
                    (Ok(items), left) => HashSet::<H>::decoding(feed) == (
                        Ok::<Set<H>, DecodeError>(items.to_set()),
                        left,
                    ),
                    (Err(e), left) => HashSet::<H>::decoding(feed) == (
                        Err::<Set<H>, DecodeError>(e),
                        left,
                    ),
                }
            },
            (Err(e), after) => {
                &&& BTreeMap::<K, V>::decoding(feed) == (
                    Err::<Map<K, V::Value>, DecodeError>(e),
                    after,
                )
                &&& HashMap::<H, V>::decoding(feed) == (
                    Err::<Map<H, V::Value>, DecodeError>(e),
                    after,
                )
                &&& BTreeSet::<K>::decoding(feed) == (Err::<Set<K>, DecodeError>(e), after)
                &&& HashSet::<H>::decoding(feed) == (Err::<Set<H>, DecodeError>(e), after)
            },
        },
{
    if let (Ok(len), after) = u32::decoding(feed) {
        if let (Ok(items), _) = items_decoding::<K>(after, len as nat) {
            lemma_set_of(items);
        }
        if let (Ok(items), _) = items_decoding::<H>(after, len as nat) {
            lemma_set_of(items);
        }
    }
}

} // verus!

//! What derived implementations do, given what the fields of a type do.
//!
//! A field is written in chunks and read by a [`FieldReader`]. Values of all fields are of
//! one type here, which stands for whatever types the fields have.

use vstd::prelude::*;

use super::decode::{
    enum_decode,
    struct_decode,
    value_of,
    values_of,
    variant_decode,
    BoundDecode,
    FieldDecode,
    FieldValue,
    VariantDecode,
};
use super::encode::{
    enum_encode,
    field_encode,
    struct_encode,
    variant_encode,
    BoundEncode,
    FieldEncode,
    VariantEncode,
};
use super::{kept, law_kept, Field, Variant};
use crate::codec::Codec;
use crate::decode::{Decode, DecodeError};
use crate::encode::Encode;
use crate::laws::{holds, lemma_take_all_add, Tail};
use crate::stream::Feed;

verus! {

/// A way to read a value, which gives it and what is left to read.
pub type FieldReader<V> = spec_fn(Feed) -> (Result<V, DecodeError>, Feed);

/// Whether `reader` reads `value` and exactly `chunks` wherever they come next.
pub open spec fn reads_back<V>(reader: FieldReader<V>, chunks: Seq<Seq<u8>>, value: V) -> bool {
    forall|feed: Feed, tail: Tail| #[trigger]
        holds(feed, tail) && tail.take_all(chunks) is Some ==> {
            &&& reader(feed).0 == Ok::<V, DecodeError>(value)
            &&& holds(reader(feed).1, tail.take_all(chunks)->0)
        }
}

/// Chunks of the fields at `order`, one after the other.
pub open spec fn chunks_in_order(chunks: Seq<Seq<Seq<u8>>>, order: Seq<int>) -> Seq<Seq<u8>>
    decreases order.len(),
{
    if order.len() == 0 {
        Seq::empty()
    } else {
        chunks_in_order(chunks, order.drop_last()) + chunks[order.last()]
    }
}

/// What `plan` writes of a struct whose fields have `chunks`.
pub open spec fn struct_wire(plan: Seq<FieldEncode>, chunks: Seq<Seq<Seq<u8>>>) -> Seq<Seq<u8>> {
    chunks_in_order(chunks, plan.map_values(|step: FieldEncode| step.index as int))
}

/// What `plan` writes of a variant whose fields have `chunks`, after the chunks of its `tag`.
pub open spec fn variant_wire(
    plan: VariantEncode,
    tag: Seq<Seq<u8>>,
    chunks: Seq<Seq<Seq<u8>>>,
) -> Seq<Seq<u8>> {
    tag + match plan.newtype {
        Some(newtype) => chunks_in_order(
            chunks,
            newtype.fields@.map_values(|step: BoundEncode| step.index as int),
        ),
        None => Seq::empty(),
    }
}

/// Makes up the values of fields in order, up to the first that can not be read: a skipped
/// one is taken from `made`, any other is read by its reader.
pub open spec fn run_steps<V>(
    values: Seq<FieldValue>,
    readers: Seq<FieldReader<V>>,
    made: Seq<V>,
    feed: Feed,
) -> (Result<Seq<V>, DecodeError>, Feed)
    decreases values.len(),
{
    if values.len() == 0 {
        (Ok(Seq::empty()), feed)
    } else {
        match run_steps(values.drop_last(), readers, made, feed) {
            (Ok(done), feed) => if values.last() is Skip {
                (Ok(done.push(made[values.len() - 1])), feed)
            } else {
                match readers[values.len() - 1](feed) {
                    (Ok(value), feed) => (Ok(done.push(value)), feed),
                    (Err(e), feed) => (Err(e), feed),
                }
            },
            (Err(e), feed) => (Err(e), feed),
        }
    }
}

/// What `plan` decodes a struct to: the values of its fields.
pub open spec fn run_struct<V>(
    plan: Seq<FieldDecode>,
    readers: Seq<FieldReader<V>>,
    made: Seq<V>,
    feed: Feed,
) -> (Result<Seq<V>, DecodeError>, Feed) {
    run_steps(plan.map_values(|step: FieldDecode| step.value), readers, made, feed)
}

/// Position of the arm that `tag` selects.
pub open spec fn arm_of(plan: Seq<VariantDecode>, tag: nat) -> Option<int> {
    if exists|i: int| 0 <= i < plan.len() && (#[trigger] plan[i]).tag == tag {
        Some(choose|i: int| 0 <= i < plan.len() && (#[trigger] plan[i]).tag == tag)
    } else {
        None
    }
}

/// What `plan` decodes an enum to: the position of the variant and the values of its fields.
///
/// The tag is read first. If it selects no arm, the pattern is invalid and nothing more is
/// read. `readers` and `made` are those of the fields, by variant.
pub open spec fn run_enum<V>(
    plan: Seq<VariantDecode>,
    tag_reader: FieldReader<nat>,
    readers: Seq<Seq<FieldReader<V>>>,
    made: Seq<Seq<V>>,
    feed: Feed,
) -> (Result<(int, Seq<V>), DecodeError>, Feed) {
    match tag_reader(feed) {
        (Err(e), feed) => (Err(e), feed),
        (Ok(tag), feed) => match arm_of(plan, tag) {
            None => (Err(DecodeError::InvalidPattern), feed),
            Some(i) => match plan[i].newtype {
                None => (Ok((i, Seq::empty())), feed),
                Some(steps) => match run_steps(
                    steps@.map_values(|step: BoundDecode| step.value),
                    readers[i],
                    made[i],
                    feed,
                ) {
                    (Ok(values), feed) => (Ok((i, values)), feed),
                    (Err(e), feed) => (Err(e), feed),
                },
            },
        },
    }
}

/// The values that come back: those of the fields, but for skipped ones, which are made up.
pub open spec fn restored<V>(fields: Seq<Field>, values: Seq<V>, made: Seq<V>) -> Seq<V> {
    Seq::new(
        fields.len(),
        |at: int|
            if fields[at].skip is None {
                values[at]
            } else {
                made[at]
            },
    )
}

proof fn lemma_run_steps<V>(
    fields: Seq<Field>,
    chunks: Seq<Seq<Seq<u8>>>,
    readers: Seq<FieldReader<V>>,
    values: Seq<V>,
    made: Seq<V>,
    feed: Feed,
    tail: Tail,
)
    requires
        forall|at: int|
            0 <= at < fields.len() && (#[trigger] fields[at]).skip is None ==> reads_back(
                readers[at],
                chunks[at],
                values[at],
            ),
        holds(feed, tail),
        tail.take_all(chunks_in_order(chunks, kept(fields))) is Some,
    ensures
        run_steps(values_of(fields), readers, made, feed).0 == Ok::<Seq<V>, DecodeError>(
            restored(fields, values, made),
        ),
        holds(
            run_steps(values_of(fields), readers, made, feed).1,
            tail.take_all(chunks_in_order(chunks, kept(fields)))->0,
        ),
    decreases fields.len(),
{
    if fields.len() == 0 {
        assert(restored(fields, values, made) =~= Seq::empty());
    } else {
        let front = fields.drop_last();
        let at = fields.len() - 1;
        assert(values_of(fields).drop_last() =~= values_of(front));
        assert(values_of(fields).last() == value_of(fields[at]));
        assert forall|at: int| 0 <= at < front.len() && (
        #[trigger] front[at]).skip is None implies reads_back(
            readers[at],
            chunks[at],
            values[at],
        ) by {
            assert(front[at] == fields[at]);
        }
        if fields[at].skip is None {
            assert(kept(fields).drop_last() =~= kept(front));
            lemma_take_all_add(tail, chunks_in_order(chunks, kept(front)), chunks[at]);
        }
        lemma_run_steps(front, chunks, readers, values, made, feed, tail);
        let between = run_steps(values_of(front), readers, made, feed).1;
        let left = tail.take_all(chunks_in_order(chunks, kept(front)))->0;
        if fields[at].skip is None {
            assert(reads_back(readers[at], chunks[at], values[at]));
            assert(holds(between, left));
            assert(restored(fields, values, made) =~= restored(front, values, made).push(
                values[at],
            ));
        } else {
            assert(restored(fields, values, made) =~= restored(front, values, made).push(
                made[at],
            ));
        }
    }
}

/// A struct whose fields survive encoding survives it: what the derived `encode` has
/// written is decoded to the values of its fields, skipped ones being made up, and nothing
/// beyond it is read.
pub proof fn law_struct_round_trip<V>(
    fields: Seq<Field>,
    chunks: Seq<Seq<Seq<u8>>>,
    readers: Seq<FieldReader<V>>,
    values: Seq<V>,
    made: Seq<V>,
    feed: Feed,
    tail: Tail,
)
    requires
        fields.len() <= usize::MAX,
        forall|at: int|
            0 <= at < fields.len() && (#[trigger] fields[at]).skip is None ==> reads_back(
                readers[at],
                chunks[at],
                values[at],
            ),
        holds(feed, tail),
        tail.take_all(struct_wire(struct_encode(fields), chunks)) is Some,
    ensures
        run_struct(struct_decode(fields), readers, made, feed).0 == Ok::<Seq<V>, DecodeError>(
            restored(fields, values, made),
        ),
        holds(
            run_struct(struct_decode(fields), readers, made, feed).1,
            tail.take_all(struct_wire(struct_encode(fields), chunks))->0,
        ),
{
    let order = struct_encode(fields).map_values(|step: FieldEncode| step.index as int);
    law_kept(fields);
    assert forall|k: int| 0 <= k < order.len() implies order[k] == kept(fields)[k] by {
        assert(struct_encode(fields)[k] == field_encode(fields, kept(fields)[k]));
    }
    assert(order =~= kept(fields));
    assert(struct_decode(fields).map_values(|step: FieldDecode| step.value) =~= values_of(fields));
    lemma_run_steps(fields, chunks, readers, values, made, feed, tail);
}

/// A tag selects the variant at its position. One beyond the last variant selects none, in
/// which case the pattern is invalid and nothing is read after the tag.
pub proof fn law_tag_selects<V>(
    plan: Seq<VariantDecode>,
    variants: Seq<Variant>,
    tag_reader: FieldReader<nat>,
    readers: Seq<Seq<FieldReader<V>>>,
    made: Seq<Seq<V>>,
    feed: Feed,
)
    requires
        enum_decode(plan, variants),
        tag_reader(feed).0 is Ok,
    ensures
        ({
            let tag = tag_reader(feed).0->Ok_0;
            if tag < variants.len() {
                arm_of(plan, tag) == Some(tag as int)
            } else {
                &&& arm_of(plan, tag) is None
                &&& run_enum(plan, tag_reader, readers, made, feed) == (
                    Err::<(int, Seq<V>), DecodeError>(DecodeError::InvalidPattern),
                    tag_reader(feed).1,
                )
            }
        }),
{
    let tag = tag_reader(feed).0->Ok_0;
    assert forall|i: int| 0 <= i < plan.len() implies (#[trigger] plan[i]).tag == i by {
        assert(variant_decode(plan[i], variants[i], i));
    }
    if tag < variants.len() {
        assert(plan[tag as int].tag == tag);
    }
}

/// An enum whose fields survive encoding survives it: what the derived `encode` has
/// written of the variant at `index` is decoded to that variant and the values of its
/// fields, skipped ones being made up, and nothing beyond it is read.
///
/// The tag may be represented by any type that brings the tag of the variant back.
pub proof fn law_enum_round_trip<V>(
    written: Seq<VariantEncode>,
    read: Seq<VariantDecode>,
    variants: Seq<Variant>,
    tag_repr: bool,
    index: int,
    tag: Seq<Seq<u8>>,
    tag_reader: FieldReader<nat>,
    chunks: Seq<Seq<Seq<u8>>>,
    readers: Seq<Seq<FieldReader<V>>>,
    values: Seq<V>,
    made: Seq<Seq<V>>,
    feed: Feed,
    tail: Tail,
)
    requires
        variants.len() <= 0x1_0000_0000,
        enum_encode(written, variants, tag_repr),
        enum_decode(read, variants),
        0 <= index < variants.len(),
        variants[index].style is Unit ==> variants[index].fields@.len() == 0,
        reads_back(tag_reader, tag, written[index].tag.tag as nat),
        forall|at: int|
            0 <= at < variants[index].fields@.len() && (
            #[trigger] variants[index].fields@[at]).skip is None ==> reads_back(
                readers[index][at],
                chunks[at],
                values[at],
            ),
        holds(feed, tail),
        tail.take_all(variant_wire(written[index], tag, chunks)) is Some,
    ensures
        run_enum(read, tag_reader, readers, made, feed).0 == Ok::<(int, Seq<V>), DecodeError>(
            (index, restored(variants[index].fields@, values, made[index])),
        ),
        holds(
            run_enum(read, tag_reader, readers, made, feed).1,
            tail.take_all(variant_wire(written[index], tag, chunks))->0,
        ),
{
    let plan = written[index];
    let fields = variants[index].fields@;
    let rest = match plan.newtype {
        Some(newtype) => chunks_in_order(
            chunks,
            newtype.fields@.map_values(|step: BoundEncode| step.index as int),
        ),
        None => Seq::empty(),
    };
    assert(variant_encode(plan, variants[index], index, tag_repr));
    assert(variant_decode(read[index], variants[index], index));
    lemma_take_all_add(tail, tag, rest);
    assert(holds(feed, tail));
    law_tag_selects(read, variants, tag_reader, readers, made, feed);
    let after = tag_reader(feed).1;
    let left = tail.take_all(tag)->0;
    if plan.newtype is Some {
        let order = plan.newtype->0.fields@.map_values(|step: BoundEncode| step.index as int);
        assert forall|k: int| 0 <= k < order.len() implies order[k] == kept(fields)[k] by {
            assert(plan.newtype->0.fields@[k].index == kept(fields)[k]);
        }
        assert(order =~= kept(fields));
        assert(read[index].newtype->0@.map_values(|step: BoundDecode| step.value) =~= values_of(
            fields,
        ));
        lemma_run_steps(fields, chunks, readers[index], values, made[index], after, left);
    } else {
        assert(restored(fields, values, made[index]) =~= Seq::empty());
        assert(left.take_all(rest) == Some(left));
    }
}

/// Reads a tag represented by `u32`, which is the case unless another type is specified.
pub open spec fn plain_tag_reader() -> FieldReader<nat> {
    |feed: Feed|
        match u32::decoding(feed) {
            (Ok(tag), feed) => (Ok(tag as nat), feed),
            (Err(e), feed) => (Err(e), feed),
        }
}

/// A tag represented by `u32` comes back.
pub proof fn law_plain_tag(tag: u32)
    ensures
        reads_back(plain_tag_reader(), tag.wire(), tag as nat),
{
    assert forall|feed: Feed, tail: Tail| #[trigger]
        holds(feed, tail) && tail.take_all(tag.wire()) is Some implies {
        &&& plain_tag_reader()(feed).0 == Ok::<nat, DecodeError>(tag as nat)
        &&& holds(plain_tag_reader()(feed).1, tail.take_all(tag.wire())->0)
    } by {
        tag.law_round_trip(feed, tail);
    }
}

/// A field whose type survives encoding is such a field.
pub proof fn law_codec_reads_back<T: Codec>(value: T)
    requires
        value.faithful(),
    ensures
        reads_back(|feed: Feed| T::decoding(feed), value.wire(), value.value()),
{
    assert forall|feed: Feed, tail: Tail| #[trigger]
        holds(feed, tail) && tail.take_all(value.wire()) is Some implies {
        &&& T::decoding(feed).0 == Ok::<T::Value, DecodeError>(value.value())
        &&& holds(T::decoding(feed).1, tail.take_all(value.wire())->0)
    } by {
        value.law_round_trip(feed, tail);
    }
}

} // verus!

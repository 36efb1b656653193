//! What the plans of derived implementations do with each field and variant.

use vstd::prelude::*;

use crate::derive::decode::{self, value_of, DecodePlan, FieldDecode, FieldValue};
use crate::derive::encode::{self, EncodePlan, FieldEncode, VariantTag};
use crate::derive::tuple_drop_guard::{impl_input, TupleGuardArm};
use crate::derive::{
    anon_ident,
    binding,
    binding_ident,
    decimal,
    kept,
    law_kept,
    member_of,
    struct_member,
    DeriveArgs,
    DeriveError,
    Field,
    Member,
};

verus! {

/// The value of a field is made up exactly if the field is skipped, and otherwise read by the
/// function specified exactly if there is one, whether the field has a name or not.
pub proof fn law_field_value(field: &Field, value: FieldValue)
    requires
        call_ensures(decode::impl_variant_field_value, (field,), value),
    ensures
        forall|skip| value == FieldValue::Skip(skip) <==> field.skip == Some(skip),
        value is With <==> field.skip is None && field.decode_with,
        value is Trait <==> field.skip is None && !field.decode_with,
{
}

/// A field is found by its name or by its position.
pub proof fn law_member(ident: &Option<String>, index: usize, member: Member)
    requires
        call_ensures(struct_member, (ident, index), member),
    ensures
        *ident matches Some(name) ==> member == Member::Named(name),
        *ident is None ==> member == Member::Unnamed(index),
{
}

/// The value of a field is bound to its name, or to `a` and the digits of its position.
pub proof fn law_binding(fields: &Vec<Field>, index: usize, name: String, anonymous: String)
    requires
        index < fields@.len(),
        call_ensures(binding_ident, (fields, index), name),
        call_ensures(anon_ident, (index,), anonymous),
    ensures
        fields@[index as int].ident matches Some(ident) ==> name@ == ident@,
        fields@[index as int].ident is None ==> name@ == anonymous@,
        anonymous@ == seq!['a'] + decimal(index as nat),
{
}

/// The digits of a number.
pub proof fn law_decimal(n: nat)
    ensures
        n < 10 ==> decimal(n).len() == 1,
        n >= 10 ==> decimal(n).len() == decimal(n / 10).len() + 1 && decimal(n).drop_last()
            == decimal(n / 10),
        decimal(n).last() as int == '0' as int + n % 10,
{
    if n >= 10 {
        assert(decimal(n).drop_last() =~= decimal(n / 10));
    }
    assert((48 + n % 10) as char as int == 48 + n % 10);
}

/// A struct is decoded field by field, each from where it has to come. If that stops, those
/// of the fields initialized that are not skipped are dropped.
pub proof fn law_struct_decode(args: &DeriveArgs, r: Result<DecodePlan, DeriveError>)
    requires
        call_ensures(decode::impl_derive, (args,), r),
        args.data is Struct,
    ensures
        args.tag_repr <==> r is Err,
        r is Err ==> r->Err_0 == DeriveError::TagReprOnStruct,
        r is Ok ==> {
            let fields = args.data->Struct_0@;
            &&& r->Ok_0 is Struct
            &&& r->Ok_0->Struct_0.fields@.len() == fields.len()
            &&& forall|at: int|
                0 <= at < fields.len() ==> {
                    let step = #[trigger] r->Ok_0->Struct_0.fields@[at];
                    &&& step.value == value_of(fields[at])
                    &&& step.member == member_of(fields[at].ident, at)
                    &&& step.count == at + 1
                }
            &&& r->Ok_0->Struct_0.guard@.len() == (if fields.len() == 0 {
                0
            } else {
                fields.len() - 1
            })
            &&& forall|i: int|
                0 <= i < r->Ok_0->Struct_0.guard@.len() ==> {
                    let arm = #[trigger] r->Ok_0->Struct_0.guard@[i];
                    let order = kept(fields.take(i + 1));
                    &&& arm.count == i + 1
                    &&& arm.drops@.len() == order.len()
                    &&& forall|k: int|
                        0 <= k < order.len() ==> #[trigger] arm.drops@[k] == member_of(
                            fields[order[k]].ident,
                            order[k],
                        )
                }
        },
{
    if r is Ok {
        let fields = args.data->Struct_0@;
        let plan = r->Ok_0->Struct_0;
        assert(args.data->Struct_0.len() == fields.len());
        assert forall|at: int| 0 <= at < fields.len() implies {
            let step = #[trigger] plan.fields@[at];
            &&& step.value == value_of(fields[at])
            &&& step.member == member_of(fields[at].ident, at)
            &&& step.count == at + 1
        } by {
            assert(plan.fields@[at] == decode::field_decode(fields, at));
        }
        assert forall|i: int| 0 <= i < plan.guard@.len() implies {
            let arm = #[trigger] plan.guard@[i];
            let order = kept(fields.take(i + 1));
            &&& arm.count == i + 1
            &&& arm.drops@.len() == order.len()
            &&& forall|k: int|
                0 <= k < order.len() ==> #[trigger] arm.drops@[k] == member_of(
                            fields[order[k]].ident,
                            order[k],
                        )
        } by {
            let first = fields.take(i + 1);
            let order = kept(first);
            law_kept(first);
            assert forall|k: int| 0 <= k < order.len() implies #[trigger] plan.guard@[i].drops@[k] == member_of(
                            fields[order[k]].ident,
                            order[k],
                        ) by {
                assert(first[order[k]] == fields[order[k]]);
                assert(plan.guard@[i].drops@[k] == member_of(first[order[k]].ident, order[k]));
            }
        }
    }
}

/// A struct is encoded by those of its fields that are not skipped, in order, each by the
/// function specified exactly if there is one. Their sizes are summed up.
pub proof fn law_struct_encode(args: &DeriveArgs, r: Result<EncodePlan, DeriveError>)
    requires
        call_ensures(encode::impl_derive, (args,), r),
        args.data is Struct,
    ensures
        args.tag_repr <==> r is Err,
        r is Err ==> r->Err_0 == DeriveError::TagReprOnStruct,
        r is Ok ==> {
            let fields = args.data->Struct_0@;
            let order = kept(fields);
            &&& r->Ok_0 is Struct
            &&& r->Ok_0->Struct_0.fields@.len() == order.len()
            &&& forall|k: int|
                0 <= k < order.len() ==> {
                    let step = #[trigger] r->Ok_0->Struct_0.fields@[k];
                    &&& step.index == order[k]
                    &&& step.member == member_of(fields[order[k]].ident, order[k])
                    &&& step.with == fields[order[k]].encode_with
                }
            &&& r->Ok_0->Struct_0.size_of@.len() == order.len()
            &&& forall|k: int|
                0 <= k < order.len() ==> #[trigger] r->Ok_0->Struct_0.size_of@[k] == member_of(
                            fields[order[k]].ident,
                            order[k],
                        )
        },
{
    if r is Ok {
        let fields = args.data->Struct_0@;
        law_kept(fields);
        assert(args.data->Struct_0.len() == fields.len());
        assert forall|k: int| 0 <= k < kept(fields).len() implies {
            let step = #[trigger] r->Ok_0->Struct_0.fields@[k];
            let at = kept(fields)[k];
            &&& step.index == at
            &&& step.member == member_of(fields[at].ident, at)
            &&& step.with == fields[at].encode_with
        } by {
            assert(r->Ok_0->Struct_0.fields@[k] == encode::field_encode(fields, kept(fields)[k]));
        }
    }
}

/// An enum is decoded by the variant at the position that the tag tells, whose fields come
/// from where they have to. A unit variant has none.
pub proof fn law_enum_decode(args: &DeriveArgs, r: Result<DecodePlan, DeriveError>)
    requires
        call_ensures(decode::impl_derive, (args,), r),
        args.data is Enum,
    ensures
        r is Ok,
        r->Ok_0 is Enum,
        r->Ok_0->tag_repr == args.tag_repr,
        r->Ok_0->variants@.len() == args.data->Enum_0@.len(),
        forall|i: int|
            0 <= i < args.data->Enum_0@.len() ==> {
                let plan = #[trigger] r->Ok_0->variants@[i];
                let variant = args.data->Enum_0@[i];
                &&& plan.tag == i
                &&& plan.newtype is None <==> variant.style is Unit
                &&& plan.newtype is Some ==> plan.newtype->0@.len() == variant.fields@.len()
                &&& plan.newtype is Some ==> forall|at: int|
                    0 <= at < variant.fields@.len() ==> {
                        let step = #[trigger] plan.newtype->0@[at];
                        &&& step.value == value_of(variant.fields@[at])
                        &&& step.name@ == binding(variant.fields@, at)
                    }
            },
{
    let variants = args.data->Enum_0@;
    assert forall|i: int| 0 <= i < variants.len() implies {
        let plan = #[trigger] r->Ok_0->variants@[i];
        let variant = variants[i];
        &&& plan.tag == i
        &&& plan.newtype is None <==> variant.style is Unit
        &&& plan.newtype is Some ==> plan.newtype->0@.len() == variant.fields@.len()
        &&& plan.newtype is Some ==> forall|at: int|
            0 <= at < variant.fields@.len() ==> {
                let step = #[trigger] plan.newtype->0@[at];
                &&& step.value == value_of(variant.fields@[at])
                &&& step.name@ == binding(variant.fields@, at)
            }
    } by {
        assert(decode::variant_decode(r->Ok_0->variants@[i], variants[i], i));
    }
}

/// An enum is encoded by the position of the variant, in four bytes, and those of its fields
/// that are not skipped, in order, each by the function specified exactly if there is one.
/// The pattern of a variant binds exactly these fields.
pub proof fn law_enum_encode(args: &DeriveArgs, r: Result<EncodePlan, DeriveError>)
    requires
        call_ensures(encode::impl_derive, (args,), r),
        args.data is Enum,
    ensures
        r is Ok,
        r->Ok_0 is Enum,
        r->Ok_0->Enum_0@.len() == args.data->Enum_0@.len(),
        forall|i: int|
            0 <= i < args.data->Enum_0@.len() ==> {
                let plan = #[trigger] r->Ok_0->Enum_0@[i];
                let variant = args.data->Enum_0@[i];
                let fields = variant.fields@;
                let order = kept(fields);
                &&& i <= u32::MAX ==> plan.tag.tag == i
                &&& plan.tag.repr == args.tag_repr
                &&& plan.newtype is None <==> variant.style is Unit
                &&& plan.newtype is Some ==> {
                    &&& plan.newtype->0.fields@.len() == order.len()
                    &&& forall|k: int|
                        0 <= k < order.len() ==> {
                            let step = #[trigger] plan.newtype->0.fields@[k];
                            &&& step.index == order[k]
                            &&& step.name@ == binding(fields, order[k])
                            &&& step.with == fields[order[k]].encode_with
                        }
                    &&& plan.newtype->0.patterns@.len() == fields.len()
                    &&& forall|at: int|
                        0 <= at < fields.len() ==> {
                            let pattern = #[trigger] plan.newtype->0.patterns@[at];
                            let name = binding(fields, at);
                            if fields[at].skip is None {
                                pattern is Bind && pattern->Bind_0@ == name
                            } else if variant.style is Tuple {
                                pattern is Ignore
                            } else {
                                pattern is IgnoreNamed && pattern->IgnoreNamed_0@ == name
                            }
                        }
                }
            },
{
    let variants = args.data->Enum_0@;
    assert forall|i: int| 0 <= i < variants.len() implies {
        let plan = #[trigger] r->Ok_0->Enum_0@[i];
        let variant = variants[i];
        let fields = variant.fields@;
        let order = kept(fields);
        &&& i <= u32::MAX ==> plan.tag.tag == i
        &&& plan.tag.repr == args.tag_repr
        &&& plan.newtype is None <==> variant.style is Unit
        &&& plan.newtype is Some ==> {
            &&& plan.newtype->0.fields@.len() == order.len()
            &&& forall|k: int|
                0 <= k < order.len() ==> {
                    let step = #[trigger] plan.newtype->0.fields@[k];
                    &&& step.index == order[k]
                    &&& step.name@ == binding(fields, order[k])
                    &&& step.with == fields[order[k]].encode_with
                }
            &&& plan.newtype->0.patterns@.len() == fields.len()
            &&& forall|at: int|
                0 <= at < fields.len() ==> {
                    let pattern = #[trigger] plan.newtype->0.patterns@[at];
                    let name = binding(fields, at);
                    if fields[at].skip is None {
                        pattern is Bind && pattern->Bind_0@ == name
                    } else if variant.style is Tuple {
                        pattern is Ignore
                    } else {
                        pattern is IgnoreNamed && pattern->IgnoreNamed_0@ == name
                    }
                }
        }
    } by {
        let plan = r->Ok_0->Enum_0@[i];
        assert(encode::variant_encode(plan, variants[i], i, args.tag_repr));
        if plan.newtype is Some {
            let fields = variants[i].fields@;
            law_kept(fields);
            assert forall|at: int| 0 <= at < fields.len() implies {
                let pattern = #[trigger] plan.newtype->0.patterns@[at];
                let name = binding(fields, at);
                if fields[at].skip is None {
                    pattern is Bind && pattern->Bind_0@ == name
                } else if variants[i].style is Tuple {
                    pattern is Ignore
                } else {
                    pattern is IgnoreNamed && pattern->IgnoreNamed_0@ == name
                }
            } by {
                assert(encode::pattern_of(
                    plan.newtype->0.patterns@[at],
                    fields,
                    at,
                    variants[i].style,
                ));
            }
        }
    }
}

/// The tag of a variant is its position, in four bytes.
pub proof fn law_variant_tag(index: usize, tag_repr: bool, tag: VariantTag)
    requires
        call_ensures(encode::impl_variant_tag, (index, tag_repr), tag),
    ensures
        index <= u32::MAX ==> tag.tag == index,
        tag.tag as int == index as int % 0x1_0000_0000,
        tag.repr == tag_repr,
{
}

/// If decoding of a tuple stops, all of the values initialized so far are dropped, the last
/// one first.
pub proof fn law_tuple_guard(len: usize, guard: Vec<TupleGuardArm>)
    requires
        call_ensures(impl_input, (len,), guard),
    ensures
        len == 0 ==> guard@.len() == 0,
        len > 0 ==> guard@.len() == len - 1,
        forall|i: int|
            0 <= i < guard@.len() ==> {
                let arm = #[trigger] guard@[i];
                &&& i < 255 ==> arm.count == i + 1
                &&& arm.drops@.len() == i + 1
                &&& forall|k: int| 0 <= k <= i ==> #[trigger] arm.drops@[k] == i - k
            },
{
    assert(guard.len() == guard@.len());
}

/// Steps planned one by one are those planned for all of the fields.
pub proof fn law_single_steps(
    field: &Field,
    member: Member,
    count: usize,
    index: usize,
    read: FieldDecode,
    written: FieldEncode,
)
    requires
        call_ensures(decode::impl_struct_field, (field, member, count), read),
        call_ensures(encode::impl_struct_field_encode, (field, index), written),
    ensures
        read.member == member,
        read.value == value_of(*field),
        read.count == count,
        written.index == index,
        written.member == member_of(field.ident, index as int),
        written.with == field.encode_with,
{
}

} // verus!

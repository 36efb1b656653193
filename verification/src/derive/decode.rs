//! Plans of derived `Decode` implementations.

use vstd::prelude::*;

use super::encode::{
    enum_encode,
    kept_members,
    struct_encode,
    variant_encode,
    VariantEncode,
};
use super::{
    binding,
    binding_ident,
    kept,
    law_kept,
    lemma_kept_next,
    member_of,
    struct_member,
    DeriveArgs,
    DeriveData,
    DeriveError,
    Field,
    Member,
    SkipBy,
    Style,
    Variant,
};

verus! {

/// Where the value of a field comes from.
#[derive(Copy, Clone, Debug, PartialEq, Eq, Structural)]
pub enum FieldValue {
    /// It is made up, nothing is read.
    Skip(SkipBy),
    /// It is read by the function specified.
    With,
    /// It is read by the trait method.
    Trait,
}

/// Where the value of `field` comes from. Skipping takes precedence.
pub open spec fn value_of(field: Field) -> FieldValue {
    match field.skip {
        Some(skip_by) => FieldValue::Skip(skip_by),
        None => if field.decode_with {
            FieldValue::With
        } else {
            FieldValue::Trait
        },
    }
}

/// Plans where the value of `field` comes from.
pub fn impl_variant_field_value(field: &Field) -> (r: FieldValue)
    ensures
        r == value_of(*field),
        r is Skip <==> field.skip is Some,
        r is With <==> field.skip is None && field.decode_with,
{
    if let Some(skip_by) = field.skip {
        return FieldValue::Skip(skip_by);
    }
    if field.decode_with {
        FieldValue::With
    } else {
        FieldValue::Trait
    }
}

/// A step initializing a field of a struct.
#[derive(Debug)]
pub struct FieldDecode {
    pub member: Member,
    pub value: FieldValue,
    /// Amount of fields initialized once the step is done.
    pub count: usize,
}

/// What is to be dropped if decoding stops with `count` fields initialized.
#[derive(Debug)]
pub struct GuardArm {
    pub count: usize,
    pub drops: Vec<Member>,
}

/// Plan for a struct.
#[derive(Debug)]
pub struct StructDecode {
    /// The fields initialized, in order.
    pub fields: Vec<FieldDecode>,
    /// What is to be dropped if decoding stops, by the amount of fields initialized.
    pub guard: Vec<GuardArm>,
}

/// The step initializing the field at `at`.
pub open spec fn field_decode(fields: Seq<Field>, at: int) -> FieldDecode {
    FieldDecode {
        member: member_of(fields[at].ident, at),
        value: value_of(fields[at]),
        count: (at + 1) as usize,
    }
}

/// The steps initializing `fields`: one for each, in order.
pub open spec fn struct_decode(fields: Seq<Field>) -> Seq<FieldDecode> {
    Seq::new(fields.len(), |at: int| field_decode(fields, at))
}

/// Whether `guard` drops those of the fields initialized that are not skipped, whenever
/// decoding stops between the first and the last field.
pub open spec fn drop_guard(guard: Seq<GuardArm>, fields: Seq<Field>) -> bool {
    &&& guard.len() == (if fields.len() == 0 {
        0
    } else {
        fields.len() - 1
    })
    &&& forall|i: int|
        0 <= i < guard.len() ==> {
            &&& (#[trigger] guard[i]).count == i + 1
            &&& guard[i].drops@ == kept_members(fields.take(i + 1))
        }
}

/// Plans `decode` method of a struct.
pub fn impl_struct(fields: &Vec<Field>) -> (r: StructDecode)
    ensures
        r.fields@ == struct_decode(fields@),
        drop_guard(r.guard@, fields@),
{
    let mut field_impls: Vec<FieldDecode> = Vec::with_capacity(fields.len());
    let mut idx: usize = 0;
    while idx < fields.len()
        invariant
            idx <= fields@.len(),
            field_impls@ == struct_decode(fields@).take(idx as int),
        decreases fields@.len() - idx,
    {
        let member = struct_member(&fields[idx].ident, idx);
        let ghost before = field_impls@;
        field_impls.push(impl_struct_field(&fields[idx], member, idx + 1));
        idx = idx + 1;
        assert(field_impls@ =~= struct_decode(fields@).take(idx as int));
    }
    assert(field_impls@ =~= struct_decode(fields@));
    StructDecode { fields: field_impls, guard: impl_drop_guard(fields) }
}

/// Plans the step initializing the `member` of `field`, which makes `count` of them.
pub fn impl_struct_field(field: &Field, member: Member, count: usize) -> (r: FieldDecode)
    ensures
        r == (FieldDecode { member, value: value_of(*field), count }),
{
    FieldDecode { member, value: impl_variant_field_value(field), count }
}

/// Plans what is to be dropped if decoding of a struct stops.
pub fn impl_drop_guard(fields: &Vec<Field>) -> (r: Vec<GuardArm>)
    ensures
        drop_guard(r@, fields@),
{
    let mut drop_impls: Vec<GuardArm> = Vec::new();
    let mut count: usize = 1;
    while count < fields.len()
        invariant
            1 <= count,
            fields@.len() == 0 ==> count == 1,
            fields@.len() > 0 ==> count <= fields@.len(),
            drop_impls@.len() == count - 1,
            forall|i: int|
                0 <= i < drop_impls@.len() ==> {
                    &&& (#[trigger] drop_impls@[i]).count == i + 1
                    &&& drop_impls@[i].drops@ == kept_members(fields@.take(i + 1))
                },
        decreases fields@.len() - count,
    {
        let drops = drops_of(fields, count);
        drop_impls.push(GuardArm { count, drops });
        count = count + 1;
    }
    drop_impls
}

/// Returns the members of those of the first `count` fields that are not skipped.
fn drops_of(fields: &Vec<Field>, count: usize) -> (r: Vec<Member>)
    requires
        count <= fields@.len(),
    ensures
        r@ == kept_members(fields@.take(count as int)),
{
    let ghost first = fields@.take(count as int);
    let mut drops: Vec<Member> = Vec::with_capacity(count);
    let mut idx: usize = 0;
    while idx < count
        invariant
            idx <= count <= fields@.len(),
            first == fields@.take(count as int),
            drops@ == kept(first.take(idx as int)).map_values(
                |at: int| member_of(first[at].ident, at),
            ),
        decreases count - idx,
    {
        proof {
            lemma_kept_next(first, idx as int);
        }
        if fields[idx].skip.is_none() {
            let ghost before = drops@;
            drops.push(struct_member(&fields[idx].ident, idx));
            assert(drops@ =~= kept(first.take(idx + 1)).map_values(
                |at: int| member_of(first[at].ident, at),
            ));
        }
        idx = idx + 1;
    }
    assert(first.take(count as int) =~= first);
    drops
}

/// A step making up the value of a field of a variant, bound to a name.
#[derive(Debug)]
pub struct BoundDecode {
    pub name: String,
    pub value: FieldValue,
}

/// Whether `plan` makes up each of `fields`, in order.
pub open spec fn newtype_decode(plan: Seq<BoundDecode>, fields: Seq<Field>) -> bool {
    &&& plan.len() == fields.len()
    &&& forall|at: int|
        0 <= at < fields.len() ==> {
            &&& (#[trigger] plan[at]).name@ == binding(fields, at)
            &&& plan[at].value == value_of(fields[at])
        }
}

/// Plans the part of an enum responsible for `variant` with fields.
pub fn impl_newtype_variant(variant: &Variant) -> (r: Vec<BoundDecode>)
    ensures
        newtype_decode(r@, variant.fields@),
{
    let fields = &variant.fields;
    let mut field_impls: Vec<BoundDecode> = Vec::with_capacity(fields.len());
    let mut idx: usize = 0;
    while idx < fields.len()
        invariant
            idx <= fields@.len(),
            field_impls@.len() == idx,
            forall|at: int|
                0 <= at < idx ==> {
                    &&& (#[trigger] field_impls@[at]).name@ == binding(fields@, at)
                    &&& field_impls@[at].value == value_of(fields@[at])
                },
        decreases fields@.len() - idx,
    {
        let value = impl_variant_field_value(&fields[idx]);
        let name = binding_ident(fields, idx);
        field_impls.push(BoundDecode { name, value });
        idx = idx + 1;
    }
    field_impls
}

/// Plan for a variant of an enum.
#[derive(Debug)]
pub struct VariantDecode {
    /// The tag that selects the variant.
    pub tag: usize,
    /// Values of the fields, nothing for a unit variant.
    pub newtype: Option<Vec<BoundDecode>>,
}

/// Whether `plan` makes up `variant`, selected by its position.
pub open spec fn variant_decode(plan: VariantDecode, variant: Variant, index: int) -> bool {
    &&& plan.tag == index
    &&& match plan.newtype {
        Some(newtype) => !(variant.style is Unit) && newtype_decode(newtype@, variant.fields@),
        None => variant.style is Unit,
    }
}

/// Whether `plan` has an arm for each of `variants`. Other tags are invalid patterns.
pub open spec fn enum_decode(plan: Seq<VariantDecode>, variants: Seq<Variant>) -> bool {
    &&& plan.len() == variants.len()
    &&& forall|i: int|
        0 <= i < variants.len() ==> variant_decode(#[trigger] plan[i], variants[i], i)
}

/// Plans `decode` method of an enum.
pub fn impl_enum(variants: &Vec<Variant>) -> (r: Vec<VariantDecode>)
    ensures
        enum_decode(r@, variants@),
{
    let mut variant_impls: Vec<VariantDecode> = Vec::with_capacity(variants.len());
    let mut idx: usize = 0;
    while idx < variants.len()
        invariant
            idx <= variants@.len(),
            variant_impls@.len() == idx,
            forall|i: int|
                0 <= i < idx ==> variant_decode(#[trigger] variant_impls@[i], variants@[i], i),
        decreases variants@.len() - idx,
    {
        let variant = &variants[idx];
        let newtype = match variant.style {
            Style::Unit => None,
            _ => Some(impl_newtype_variant(variant)),
        };
        variant_impls.push(VariantDecode { tag: idx, newtype });
        idx = idx + 1;
    }
    variant_impls
}

/// Plan of an implementation.
#[derive(Debug)]
pub enum DecodePlan {
    Enum {
        /// Whether the type specified represents the tag in place of `u32`.
        tag_repr: bool,
        variants: Vec<VariantDecode>,
    },
    Struct(StructDecode),
}

/// Plans an implementation for a struct or an enum.
pub fn impl_derive(args: &DeriveArgs) -> (r: Result<DecodePlan, DeriveError>)
    ensures
        match args.data {
            DeriveData::Enum(variants) => {
                &&& r matches Ok(DecodePlan::Enum { tag_repr, variants: plan })
                &&& tag_repr == args.tag_repr
                &&& enum_decode(plan@, variants@)
            },
            DeriveData::Struct(fields) => if args.tag_repr {
                r == Err::<DecodePlan, DeriveError>(DeriveError::TagReprOnStruct)
            } else {
                r matches Ok(DecodePlan::Struct(plan)) && plan.fields@ == struct_decode(fields@)
                    && drop_guard(plan.guard@, fields@)
            },
        },
{
    match &args.data {
        DeriveData::Enum(variants) => Ok(
            DecodePlan::Enum { tag_repr: args.tag_repr, variants: impl_enum(variants) },
        ),
        DeriveData::Struct(fields) => {
            if args.tag_repr {
                return Err(DeriveError::TagReprOnStruct);
            }
            Ok(DecodePlan::Struct(impl_struct(fields)))
        },
    }
}

/// Positions of the steps that read from the bearer.
pub open spec fn reads(values: Seq<FieldValue>) -> Seq<int>
    decreases values.len(),
{
    if values.len() == 0 {
        Seq::empty()
    } else if values.last() is Skip {
        reads(values.drop_last())
    } else {
        reads(values.drop_last()).push(values.len() - 1)
    }
}

/// Values of the fields, in order.
pub open spec fn values_of(fields: Seq<Field>) -> Seq<FieldValue> {
    Seq::new(fields.len(), |at: int| value_of(fields[at]))
}

/// The fields read are those that are not skipped.
proof fn lemma_reads(fields: Seq<Field>)
    ensures
        reads(values_of(fields)) == kept(fields),
    decreases fields.len(),
{
    if fields.len() > 0 {
        lemma_reads(fields.drop_last());
        assert(values_of(fields).drop_last() =~= values_of(fields.drop_last()));
    }
}

/// The fields of a struct which are read are those which are written, in the same order
/// and at the same places.
pub proof fn law_struct_agrees(fields: Seq<Field>)
    requires
        fields.len() <= usize::MAX,
    ensures
        ({
            let written = struct_encode(fields);
            let steps = struct_decode(fields);
            let read = reads(steps.map_values(|step: FieldDecode| step.value));
            &&& read.len() == written.len()
            &&& forall|k: int|
                0 <= k < written.len() ==> {
                    &&& (#[trigger] written[k]).index == read[k]
                    &&& written[k].member == steps[read[k]].member
                }
        }),
{
    let steps = struct_decode(fields);
    assert(steps.map_values(|step: FieldDecode| step.value) =~= values_of(fields));
    lemma_reads(fields);
    law_kept(fields);
}

/// A variant is read by the tag it is written with, and the fields which are read are
/// those which are written, in the same order. Tags tell the variants apart.
pub proof fn law_enum_agrees(
    written: Seq<VariantEncode>,
    read: Seq<VariantDecode>,
    variants: Seq<Variant>,
    tag_repr: bool,
)
    requires
        variants.len() <= 0x1_0000_0000,
        enum_encode(written, variants, tag_repr),
        enum_decode(read, variants),
    ensures
        forall|i: int, j: int|
            0 <= i < j < variants.len() ==> (#[trigger] written[i]).tag.tag != (
            #[trigger] written[j]).tag.tag,
        forall|i: int|
            0 <= i < variants.len() ==> {
                &&& (#[trigger] written[i]).tag.tag == read[i].tag
                &&& written[i].newtype is Some <==> read[i].newtype is Some
                &&& written[i].newtype is Some ==> {
                    let fields = written[i].newtype->0.fields@;
                    let steps = read[i].newtype->0@;
                    let order = reads(steps.map_values(|step: BoundDecode| step.value));
                    &&& order.len() == fields.len()
                    &&& forall|k: int|
                        0 <= k < fields.len() ==> {
                            &&& (#[trigger] fields[k]).index == order[k]
                            &&& fields[k].name@ == steps[order[k]].name@
                        }
                }
            },
{
    assert forall|i: int| 0 <= i < variants.len() implies {
        &&& (#[trigger] written[i]).tag.tag == read[i].tag
        &&& written[i].newtype is Some <==> read[i].newtype is Some
        &&& written[i].newtype is Some ==> {
            let fields = written[i].newtype->0.fields@;
            let steps = read[i].newtype->0@;
            let order = reads(steps.map_values(|step: BoundDecode| step.value));
            &&& order.len() == fields.len()
            &&& forall|k: int|
                0 <= k < fields.len() ==> {
                    &&& (#[trigger] fields[k]).index == order[k]
                    &&& fields[k].name@ == steps[order[k]].name@
                }
        }
    } by {
        assert(variant_encode(written[i], variants[i], i, tag_repr));
        assert(variant_decode(read[i], variants[i], i));
        if written[i].newtype is Some {
            let steps = read[i].newtype->0@;
            let declared = variants[i].fields@;
            assert(steps.map_values(|step: BoundDecode| step.value) =~= values_of(declared));
            lemma_reads(declared);
            law_kept(declared);
        }
    }
    assert forall|i: int, j: int| 0 <= i < j < variants.len() implies (
    #[trigger] written[i]).tag.tag != (#[trigger] written[j]).tag.tag by {
        assert(variant_encode(written[i], variants[i], i, tag_repr));
        assert(variant_encode(written[j], variants[j], j, tag_repr));
    }
}

} // verus!

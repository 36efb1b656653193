//! Plans of derived `Encode` implementations.

use vstd::prelude::*;

use super::{
    binding,
    binding_ident,
    kept,
    lemma_kept_next,
    member_of,
    struct_member,
    DeriveArgs,
    DeriveData,
    DeriveError,
    Field,
    Member,
    Style,
    Variant,
};

verus! {

/// A step encoding a field of a struct.
#[derive(Debug)]
pub struct FieldEncode {
    /// Position of the field.
    pub index: usize,
    pub member: Member,
    /// Whether the function specified is called in place of the trait method.
    pub with: bool,
}

/// Plan for a struct.
#[derive(Debug)]
pub struct StructEncode {
    /// The fields encoded, in order.
    pub fields: Vec<FieldEncode>,
    /// The fields whose sizes are summed up.
    pub size_of: Vec<Member>,
}

/// The step encoding the field at `at`.
pub open spec fn field_encode(fields: Seq<Field>, at: int) -> FieldEncode {
    FieldEncode {
        index: at as usize,
        member: member_of(fields[at].ident, at),
        with: fields[at].encode_with,
    }
}

/// The steps encoding `fields`: one for each that is not skipped, in order.
pub open spec fn struct_encode(fields: Seq<Field>) -> Seq<FieldEncode> {
    kept(fields).map_values(|at: int| field_encode(fields, at))
}

/// The members of `fields` that are not skipped.
pub open spec fn kept_members(fields: Seq<Field>) -> Seq<Member> {
    kept(fields).map_values(|at: int| member_of(fields[at].ident, at))
}

/// Plans `encode` and `size_of` methods of a struct.
pub fn impl_struct(fields: &Vec<Field>) -> (r: StructEncode)
    ensures
        r.fields@ == struct_encode(fields@),
        r.size_of@ == kept_members(fields@),
{
    let mut impl_fields: Vec<FieldEncode> = Vec::with_capacity(fields.len());
    let mut size_of_fields: Vec<Member> = Vec::with_capacity(fields.len());
    let mut idx: usize = 0;
    while idx < fields.len()
        invariant
            idx <= fields@.len(),
            impl_fields@ == kept(fields@.take(idx as int)).map_values(
                |at: int| field_encode(fields@, at),
            ),
            size_of_fields@ == kept(fields@.take(idx as int)).map_values(
                |at: int| member_of(fields@[at].ident, at),
            ),
        decreases fields@.len() - idx,
    {
        proof {
            lemma_kept_next(fields@, idx as int);
        }
        if fields[idx].skip.is_none() {
            let ghost before = impl_fields@;
            let ghost sizes_before = size_of_fields@;
            size_of_fields.push(struct_member(&fields[idx].ident, idx));
            impl_fields.push(impl_struct_field_encode(&fields[idx], idx));
            proof {
                let next = kept(fields@.take(idx + 1));
                assert(impl_fields@ =~= next.map_values(|at: int| field_encode(fields@, at)));
                assert(size_of_fields@ =~= next.map_values(
                    |at: int| member_of(fields@[at].ident, at),
                ));
            }
        }
        idx = idx + 1;
    }
    assert(fields@.take(fields@.len() as int) =~= fields@);
    StructEncode { fields: impl_fields, size_of: size_of_fields }
}

/// Plans the step encoding the `field` at `index`.
pub fn impl_struct_field_encode(field: &Field, index: usize) -> (r: FieldEncode)
    ensures
        r == (FieldEncode {
            index,
            member: member_of(field.ident, index as int),
            with: field.encode_with,
        }),
{
    FieldEncode { index, member: struct_member(&field.ident, index), with: field.encode_with }
}

/// How a field shows in a match pattern.
#[derive(Debug)]
pub enum Pattern {
    /// Bound to a name.
    Bind(String),
    /// Ignored by position.
    Ignore,
    /// Ignored by the name of the field.
    IgnoreNamed(String),
}

/// Whether `pattern` is that of the field at `at`.
pub open spec fn pattern_of(pattern: Pattern, fields: Seq<Field>, at: int, style: Style) -> bool {
    if fields[at].skip is None {
        pattern matches Pattern::Bind(name) && name@ == binding(fields, at)
    } else if style is Tuple {
        pattern is Ignore
    } else {
        pattern matches Pattern::IgnoreNamed(name) && name@ == binding(fields, at)
    }
}

/// A step encoding a field of a variant, bound to a name.
#[derive(Debug)]
pub struct BoundEncode {
    /// Position of the field.
    pub index: usize,
    pub name: String,
    /// Whether the function specified is called in place of the trait method.
    pub with: bool,
}

/// Plan for a variant with fields.
#[derive(Debug)]
pub struct NewtypeEncode {
    /// Pattern of each field.
    pub patterns: Vec<Pattern>,
    /// The fields encoded, in order. The sizes of the same fields are summed up.
    pub fields: Vec<BoundEncode>,
}

/// Whether `plan` matches each field and encodes those that are not skipped, in order.
pub open spec fn newtype_encode(plan: NewtypeEncode, fields: Seq<Field>, style: Style) -> bool {
    &&& plan.patterns@.len() == fields.len()
    &&& forall|at: int|
        0 <= at < fields.len() ==> pattern_of(#[trigger] plan.patterns@[at], fields, at, style)
    &&& plan.fields@.len() == kept(fields).len()
    &&& forall|k: int|
        0 <= k < plan.fields@.len() ==> {
            let step = #[trigger] plan.fields@[k];
            let at = kept(fields)[k];
            &&& step.index == at
            &&& step.name@ == binding(fields, at)
            &&& step.with == fields[at].encode_with
        }
}

/// Plans the part of an enum responsible for `variant` with fields.
pub fn impl_newtype_variant(variant: &Variant, style: Style) -> (r: NewtypeEncode)
    ensures
        newtype_encode(r, variant.fields@, style),
{
    let fields = &variant.fields;
    let mut match_patterns: Vec<Pattern> = Vec::with_capacity(fields.len());
    let mut field_impls: Vec<BoundEncode> = Vec::with_capacity(fields.len());
    let mut idx: usize = 0;
    while idx < fields.len()
        invariant
            idx <= fields@.len(),
            match_patterns@.len() == idx,
            forall|at: int|
                0 <= at < idx ==> pattern_of(#[trigger] match_patterns@[at], fields@, at, style),
            field_impls@.len() == kept(fields@.take(idx as int)).len(),
            forall|k: int|
                0 <= k < field_impls@.len() ==> {
                    let step = #[trigger] field_impls@[k];
                    let at = kept(fields@.take(idx as int))[k];
                    &&& step.index == at
                    &&& step.name@ == binding(fields@, at)
                    &&& step.with == fields@[at].encode_with
                },
        decreases fields@.len() - idx,
    {
        proof {
            lemma_kept_next(fields@, idx as int);
        }
        let field = &fields[idx];
        let name = binding_ident(fields, idx);
        if field.skip.is_some() {
            match style {
                Style::Tuple => match_patterns.push(Pattern::Ignore),
                _ => match_patterns.push(Pattern::IgnoreNamed(name)),
            }
        } else {
            match_patterns.push(Pattern::Bind(name.clone()));
            field_impls.push(BoundEncode { index: idx, name, with: field.encode_with });
        }
        idx = idx + 1;
    }
    assert(fields@.take(fields@.len() as int) =~= fields@);
    NewtypeEncode { patterns: match_patterns, fields: field_impls }
}

/// How the tag of a variant is encoded.
#[derive(Copy, Clone, Debug, PartialEq, Eq, Structural)]
pub struct VariantTag {
    pub tag: u32,
    /// Whether the type specified represents the tag in place of `u32`.
    pub repr: bool,
}

/// Plans the step encoding the tag of the variant at `idx`, which is its position in 4 bytes.
pub fn impl_variant_tag(idx: usize, tag_repr: bool) -> (r: VariantTag)
    ensures
        r.tag == idx as nat % 0x1_0000_0000,
        r.repr == tag_repr,
{
    VariantTag { tag: (idx as u64 % 0x1_0000_0000) as u32, repr: tag_repr }
}

/// Plan for a variant of an enum.
#[derive(Debug)]
pub struct VariantEncode {
    pub tag: VariantTag,
    /// What is to be done besides the tag, nothing for a unit variant.
    pub newtype: Option<NewtypeEncode>,
}

/// Whether `plan` encodes the tag of `variant` and then its fields, if it has any.
pub open spec fn variant_encode(
    plan: VariantEncode,
    variant: Variant,
    index: int,
    tag_repr: bool,
) -> bool {
    &&& plan.tag.tag == index % 0x1_0000_0000
    &&& plan.tag.repr == tag_repr
    &&& match plan.newtype {
        Some(newtype) => !(variant.style is Unit) && newtype_encode(
            newtype,
            variant.fields@,
            variant.style,
        ),
        None => variant.style is Unit,
    }
}

/// Whether `plan` has an arm for each of `variants`.
pub open spec fn enum_encode(
    plan: Seq<VariantEncode>,
    variants: Seq<Variant>,
    tag_repr: bool,
) -> bool {
    &&& plan.len() == variants.len()
    &&& forall|i: int|
        0 <= i < variants.len() ==> variant_encode(#[trigger] plan[i], variants[i], i, tag_repr)
}

/// Plans `encode` and `size_of` methods of an enum.
pub fn impl_enum(variants: &Vec<Variant>, tag_repr: bool) -> (r: Vec<VariantEncode>)
    ensures
        enum_encode(r@, variants@, tag_repr),
{
    let mut variant_impls: Vec<VariantEncode> = Vec::with_capacity(variants.len());
    let mut index: usize = 0;
    while index < variants.len()
        invariant
            index <= variants@.len(),
            variant_impls@.len() == index,
            forall|i: int|
                0 <= i < index ==> variant_encode(
                    #[trigger] variant_impls@[i],
                    variants@[i],
                    i,
                    tag_repr,
                ),
        decreases variants@.len() - index,
    {
        let variant = &variants[index];
        let tag = impl_variant_tag(index, tag_repr);
        let newtype = match variant.style {
            Style::Unit => None,
            style => Some(impl_newtype_variant(variant, style)),
        };
        variant_impls.push(VariantEncode { tag, newtype });
        index = index + 1;
    }
    variant_impls
}

/// Plan of an implementation.
#[derive(Debug)]
pub enum EncodePlan {
    Enum(Vec<VariantEncode>),
    Struct(StructEncode),
}

/// Plans an implementation for a struct or an enum.
pub fn impl_derive(args: &DeriveArgs) -> (r: Result<EncodePlan, DeriveError>)
    ensures
        match args.data {
            DeriveData::Enum(variants) => r matches Ok(EncodePlan::Enum(plan)) && enum_encode(
                plan@,
                variants@,
                args.tag_repr,
            ),
            DeriveData::Struct(fields) => if args.tag_repr {
                r == Err::<EncodePlan, DeriveError>(DeriveError::TagReprOnStruct)
            } else {
                r matches Ok(EncodePlan::Struct(plan)) && plan.fields@ == struct_encode(fields@)
                    && plan.size_of@ == kept_members(fields@)
            },
        },
{
    match &args.data {
        DeriveData::Enum(variants) => Ok(EncodePlan::Enum(impl_enum(variants, args.tag_repr))),
        DeriveData::Struct(fields) => {
            if args.tag_repr {
                return Err(DeriveError::TagReprOnStruct);
            }
            Ok(EncodePlan::Struct(impl_struct(fields)))
        },
    }
}

} // verus!

use barrique::derive::decode as decode_plan;
use barrique::derive::decode::{DecodePlan, FieldValue};
use barrique::derive::encode as encode_plan;
use barrique::derive::encode::{EncodePlan, Pattern};
use barrique::derive::tuple_drop_guard::impl_input;
use barrique::derive::{
    anon_ident, struct_member, DeriveArgs, DeriveData, DeriveError, Field, Member, SkipBy, Style,
    Variant,
};

fn field(ident: Option<&str>, skip: Option<SkipBy>) -> Field {
    Field { ident: ident.map(String::from), encode_with: false, decode_with: false, skip }
}

fn text(member: &Member) -> String {
    match member {
        Member::Named(name) => name.clone(),
        Member::Unnamed(index) => index.to_string(),
    }
}

#[test]
fn anonymous_identifiers() {
    assert_eq!(anon_ident(0), "a0");
    assert_eq!(anon_ident(1), "a1");
    assert_eq!(anon_ident(10), "a10");
    assert_eq!(anon_ident(40_905), "a40905");
}

#[test]
fn members() {
    let ident = Some("hello".to_string());
    assert!(matches!(struct_member(&ident, 0), Member::Named(name) if name == "hello"));
    assert!(matches!(struct_member(&None, 3), Member::Unnamed(3)));
}

#[test]
fn struct_plans() {
    let mut custom = field(None, None);
    custom.encode_with = true;
    custom.decode_with = true;
    let fields = vec![
        field(None, Some(SkipBy::DefaultExpr)),
        field(None, None),
        field(None, Some(SkipBy::Default)),
        custom,
    ];
    let args = DeriveArgs { data: DeriveData::Struct(fields), tag_repr: false };

    let plan = match encode_plan::impl_derive(&args) {
        Ok(EncodePlan::Struct(plan)) => plan,
        other => panic!("{:?}", other),
    };
    let steps: Vec<(usize, String, bool)> =
        plan.fields.iter().map(|step| (step.index, text(&step.member), step.with)).collect();
    assert_eq!(steps, vec![(1, "1".to_string(), false), (3, "3".to_string(), true)]);
    let sizes: Vec<String> = plan.size_of.iter().map(text).collect();
    assert_eq!(sizes, vec!["1", "3"]);

    let plan = match decode_plan::impl_derive(&args) {
        Ok(DecodePlan::Struct(plan)) => plan,
        other => panic!("{:?}", other),
    };
    let values: Vec<FieldValue> = plan.fields.iter().map(|step| step.value).collect();
    assert_eq!(
        values,
        vec![
            FieldValue::Skip(SkipBy::DefaultExpr),
            FieldValue::Trait,
            FieldValue::Skip(SkipBy::Default),
            FieldValue::With,
        ]
    );
    let counts: Vec<usize> = plan.fields.iter().map(|step| step.count).collect();
    assert_eq!(counts, vec![1, 2, 3, 4]);
    let guard: Vec<(usize, Vec<String>)> = plan
        .guard
        .iter()
        .map(|arm| (arm.count, arm.drops.iter().map(text).collect()))
        .collect();
    assert_eq!(
        guard,
        vec![(1, vec![]), (2, vec!["1".to_string()]), (3, vec!["1".to_string()])]
    );
}

fn world() -> Vec<Variant> {
    vec![
        Variant {
            ident: "Flat".to_string(),
            style: Style::Tuple,
            fields: vec![field(None, None), field(None, Some(SkipBy::Default)), field(None, None)],
        },
        Variant { ident: "Circular".to_string(), style: Style::Unit, fields: vec![] },
        Variant {
            ident: "Other".to_string(),
            style: Style::Struct,
            fields: vec![field(Some("x"), Some(SkipBy::DefaultExpr)), field(Some("y"), None)],
        },
    ]
}

#[test]
fn enum_plans() {
    let args = DeriveArgs { data: DeriveData::Enum(world()), tag_repr: true };
    let written = match encode_plan::impl_derive(&args) {
        Ok(EncodePlan::Enum(plan)) => plan,
        other => panic!("{:?}", other),
    };
    let tags: Vec<(u32, bool)> = written.iter().map(|arm| (arm.tag.tag, arm.tag.repr)).collect();
    assert_eq!(tags, vec![(0, true), (1, true), (2, true)]);
    let flat = written[0].newtype.as_ref().unwrap();
    assert!(matches!(&flat.patterns[0], Pattern::Bind(name) if name == "a0"));
    assert!(matches!(flat.patterns[1], Pattern::Ignore));
    assert!(matches!(&flat.patterns[2], Pattern::Bind(name) if name == "a2"));
    let steps: Vec<(usize, &str)> =
        flat.fields.iter().map(|step| (step.index, step.name.as_str())).collect();
    assert_eq!(steps, vec![(0, "a0"), (2, "a2")]);
    assert!(written[1].newtype.is_none());
    let other = written[2].newtype.as_ref().unwrap();
    assert!(matches!(&other.patterns[0], Pattern::IgnoreNamed(name) if name == "x"));
    assert!(matches!(&other.patterns[1], Pattern::Bind(name) if name == "y"));

    let (tag_repr, read) = match decode_plan::impl_derive(&args) {
        Ok(DecodePlan::Enum { tag_repr, variants }) => (tag_repr, variants),
        other => panic!("{:?}", other),
    };
    assert!(tag_repr);
    let tags: Vec<usize> = read.iter().map(|arm| arm.tag).collect();
    assert_eq!(tags, vec![0, 1, 2]);
    let flat: Vec<(&str, FieldValue)> = read[0]
        .newtype
        .as_ref()
        .unwrap()
        .iter()
        .map(|step| (step.name.as_str(), step.value))
        .collect();
    assert_eq!(
        flat,
        vec![
            ("a0", FieldValue::Trait),
            ("a1", FieldValue::Skip(SkipBy::Default)),
            ("a2", FieldValue::Trait),
        ]
    );
    assert!(read[1].newtype.is_none());
}

#[test]
fn tag_representation_of_a_struct() {
    let args = DeriveArgs { data: DeriveData::Struct(vec![]), tag_repr: true };
    assert!(matches!(encode_plan::impl_derive(&args), Err(DeriveError::TagReprOnStruct)));
    assert!(matches!(decode_plan::impl_derive(&args), Err(DeriveError::TagReprOnStruct)));
}

#[test]
fn tuple_guards() {
    assert!(impl_input(0).is_empty());
    assert!(impl_input(1).is_empty());
    let arms: Vec<(u8, Vec<usize>)> =
        impl_input(4).into_iter().map(|arm| (arm.count, arm.drops)).collect();
    assert_eq!(arms, vec![(1, vec![0]), (2, vec![1, 0]), (3, vec![2, 1, 0])]);
}

#[test]
fn tags_take_four_bytes() {
    assert_eq!(encode_plan::impl_variant_tag(7, false).tag, 7);
    assert_eq!(encode_plan::impl_variant_tag((1 << 32) + 7, false).tag, 7);
}

//! Plans of derived [`Encode`] and [`Decode`] implementations.
//!
//! A description of a struct or an enum is turned into what the methods of its
//! implementation do, step by step. Types, paths and expressions are left to whoever
//! renders the plan: steps refer to the fields they come from by position.
//!
//! [`Encode`]: crate::encode::Encode
//! [`Decode`]: crate::decode::Decode

use vstd::prelude::*;
use vstd::utf8::{
    encode_utf8,
    encode_utf8_decode_utf8,
    encode_utf8_valid_utf8,
    is_ascii_chars,
    is_ascii_chars_encode_utf8,
};

use crate::codec::string_from_utf8;
use crate::frame::ascii_bytes;

pub mod decode;
pub mod encode;
pub mod meaning;
pub mod tuple_drop_guard;

verus! {

/// How the value of a skipped field is made up.
#[derive(Copy, Clone, Debug, PartialEq, Eq, Structural)]
pub enum SkipBy {
    /// By the default value of its type.
    Default,
    /// By the expression specified.
    DefaultExpr,
}

/// A field of a struct or of a variant.
#[derive(Debug)]
pub struct Field {
    pub ident: Option<String>,
    /// Whether a function to encode the field with is specified.
    pub encode_with: bool,
    /// Whether a function to decode the field with is specified.
    pub decode_with: bool,
    pub skip: Option<SkipBy>,
}

/// How fields are written.
#[derive(Copy, Clone, Debug, PartialEq, Eq, Structural)]
pub enum Style {
    Tuple,
    Struct,
    Unit,
}

/// A variant of an enum.
#[derive(Debug)]
pub struct Variant {
    pub ident: String,
    pub style: Style,
    pub fields: Vec<Field>,
}

/// What the implementation is derived for.
#[derive(Debug)]
pub enum DeriveData {
    Enum(Vec<Variant>),
    Struct(Vec<Field>),
}

/// Input of a derivation.
#[derive(Debug)]
pub struct DeriveArgs {
    pub data: DeriveData,
    /// Whether a type to represent tags by is specified.
    pub tag_repr: bool,
}

/// An error of a derivation.
#[derive(Copy, Clone, Debug, PartialEq, Eq, Structural)]
pub enum DeriveError {
    /// `#[barrique(tag_repr = "...")]` can not be applied to structs.
    TagReprOnStruct,
}

/// Where a field is found in a struct.
#[derive(Debug)]
pub enum Member {
    Named(String),
    Unnamed(usize),
}

/// The member of a field at `index`, by its name if it has one.
pub open spec fn member_of(ident: Option<String>, index: int) -> Member {
    match ident {
        Some(ident) => Member::Named(ident),
        None => Member::Unnamed(index as usize),
    }
}

/// Returns a struct [`Member`] from `Some(ident)` or from `index` if `ident` is `None`.
pub fn struct_member(ident: &Option<String>, index: usize) -> (r: Member)
    ensures
        r == member_of(*ident, index as int),
{
    match ident {
        Some(ident) => Member::Named(ident.clone()),
        None => Member::Unnamed(index),
    }
}

/// Positions of the fields that are not skipped.
pub open spec fn kept(fields: Seq<Field>) -> Seq<int>
    decreases fields.len(),
{
    if fields.len() == 0 {
        Seq::empty()
    } else if fields.last().skip is None {
        kept(fields.drop_last()).push(fields.len() - 1)
    } else {
        kept(fields.drop_last())
    }
}

/// Positions of the fields that are not skipped are ascending, and there is one for each
/// such field.
pub proof fn law_kept(fields: Seq<Field>)
    ensures
        forall|a: int, b: int|
            0 <= a < b < kept(fields).len() ==> #[trigger] kept(fields)[a] < #[trigger] kept(
                fields,
            )[b],
        forall|k: int|
            0 <= k < kept(fields).len() ==> 0 <= #[trigger] kept(fields)[k] < fields.len()
                && fields[kept(fields)[k]].skip is None,
        forall|i: int|
            0 <= i < fields.len() && (#[trigger] fields[i]).skip is None ==> kept(fields).contains(
                i,
            ),
    decreases fields.len(),
{
    if fields.len() > 0 {
        let front = fields.drop_last();
        law_kept(front);
        let last = fields.len() - 1;
        if fields.last().skip is None {
            assert forall|i: int|
                0 <= i < fields.len() && (#[trigger] fields[i]).skip is None implies kept(
                fields,
            ).contains(i) by {
                if i < last {
                    assert(front[i].skip is None);
                    let k = kept(front).index_of(i);
                    assert(kept(fields)[k] == i);
                } else {
                    assert(kept(fields)[kept(fields).len() - 1] == i);
                }
            }
        } else {
            assert forall|i: int|
                0 <= i < fields.len() && (#[trigger] fields[i]).skip is None implies kept(
                fields,
            ).contains(i) by {
                assert(front[i].skip is None);
            }
        }
        assert forall|k: int| 0 <= k < kept(fields).len() implies 0 <= #[trigger] kept(fields)[k]
            < fields.len() && fields[kept(fields)[k]].skip is None by {
            if k < kept(front).len() {
                assert(front[kept(front)[k]] == fields[kept(front)[k]]);
            }
        }
    }
}

/// One field more.
pub(crate) proof fn lemma_kept_next(fields: Seq<Field>, at: int)
    requires
        0 <= at < fields.len(),
    ensures
        kept(fields.take(at + 1)) == (if fields[at].skip is None {
            kept(fields.take(at)).push(at)
        } else {
            kept(fields.take(at))
        }),
{
    assert(fields.take(at + 1).drop_last() =~= fields.take(at));
}

/// Name that the value of a field is bound to.
pub open spec fn binding(fields: Seq<Field>, at: int) -> Seq<char> {
    match fields[at].ident {
        Some(ident) => ident@,
        None => anon_name(at as nat),
    }
}

/// Returns the name that the value of the field at `index` is bound to.
pub fn binding_ident(fields: &Vec<Field>, index: usize) -> (r: String)
    requires
        index < fields@.len(),
    ensures
        r@ == binding(fields@, index as int),
{
    match &fields[index].ident {
        Some(ident) => ident.clone(),
        None => anon_ident(index),
    }
}

/// The digits of `n`.
pub open spec fn decimal(n: nat) -> Seq<char>
    decreases n,
{
    if n < 10 {
        seq![(48 + n) as char]
    } else {
        decimal(n / 10).push((48 + n % 10) as char)
    }
}

/// The anonymous identifier at `index`.
pub open spec fn anon_name(index: nat) -> Seq<char> {
    seq!['a'] + decimal(index)
}

/// Different numbers have different digits.
proof fn lemma_decimal_injective(a: nat, b: nat)
    requires
        decimal(a) == decimal(b),
    ensures
        a == b,
    decreases a,
{
    assert(decimal(a).last() == (48 + a % 10) as char);
    assert(decimal(b).last() == (48 + b % 10) as char);
    assert((48 + a % 10) as char as int == 48 + a % 10);
    assert((48 + b % 10) as char as int == 48 + b % 10);
    if a >= 10 && b >= 10 {
        assert(decimal(a).drop_last() =~= decimal(a / 10));
        assert(decimal(b).drop_last() =~= decimal(b / 10));
        lemma_decimal_injective(a / 10, b / 10);
    } else if a >= 10 {
        lemma_decimal_nonempty(a / 10);
    } else if b >= 10 {
        lemma_decimal_nonempty(b / 10);
    }
}

proof fn lemma_decimal_nonempty(n: nat)
    ensures
        decimal(n).len() > 0,
{
}

/// Anonymous identifiers at different positions differ.
pub proof fn law_anon_distinct(a: nat, b: nat)
    requires
        a != b,
    ensures
        anon_name(a) != anon_name(b),
{
    if anon_name(a) == anon_name(b) {
        assert(anon_name(a).skip(1) =~= decimal(a));
        assert(anon_name(b).skip(1) =~= decimal(b));
        lemma_decimal_injective(a, b);
    }
}

/// Returns the anonymous identifier at `index`: `a0`, `a1` and so on.
pub fn anon_ident(index: usize) -> (r: String)
    ensures
        r@ == anon_name(index as nat),
{
    let mut rest: usize = index;
    let mut digits: Vec<u8> = Vec::new();
    while rest >= 10
        invariant
            decimal(index as nat) == decimal(rest as nat) + ascii(digits@.reverse()),
            ascii_bytes(digits@),
        decreases rest,
    {
        let ghost before = digits@;
        digits.push(48 + (rest % 10) as u8);
        assert(decimal((rest / 10) as nat) + ascii(digits@.reverse()) =~= decimal(rest as nat)
            + ascii(before.reverse()));
        rest = rest / 10;
    }
    let ghost upper = digits@;
    digits.push(48 + rest as u8);
    assert(ascii(digits@.reverse()) =~= decimal(rest as nat) + ascii(upper.reverse()));

    let mut bytes: Vec<u8> = Vec::new();
    bytes.push(97);
    let mut left: usize = digits.len();
    while left > 0
        invariant
            left <= digits@.len(),
            ascii_bytes(digits@),
            ascii_bytes(bytes@),
            bytes@ == seq![97u8] + digits@.reverse().take(digits@.len() - left),
        decreases left,
    {
        let ghost done = digits@.reverse().take(digits@.len() - left);
        left = left - 1;
        bytes.push(digits[left]);
        assert(digits@.reverse().take(digits@.len() - left) =~= done.push(digits@[left as int]));
    }
    proof {
        assert(digits@.reverse().take(digits@.len() as int) =~= digits@.reverse());
        assert(ascii(bytes@) =~= anon_name(index as nat));
    }
    ascii_string(bytes)
}

/// The characters of ASCII codes.
pub open spec fn ascii(bytes: Seq<u8>) -> Seq<char> {
    Seq::new(bytes.len(), |i: int| bytes[i] as char)
}

/// Returns the string of ASCII codes.
fn ascii_string(bytes: Vec<u8>) -> (r: String)
    requires
        ascii_bytes(bytes@),
    ensures
        r@ == ascii(bytes@),
{
    proof {
        let chars = ascii(bytes@);
        assert(is_ascii_chars(chars));
        is_ascii_chars_encode_utf8(chars);
        assert(encode_utf8(chars) =~= bytes@);
        encode_utf8_valid_utf8(chars);
        encode_utf8_decode_utf8(chars);
    }
    match string_from_utf8(bytes) {
        Some(string) => {
            proof {
                encode_utf8_decode_utf8(string@);
            }
            string
        },
        None => String::new(),
    }
}

} // verus!

//! How numbers are stored.

use vstd::arithmetic::div_mod::lemma_div_denominator;
use vstd::arithmetic::power::{lemma_pow0, lemma_pow_positive, pow};
use vstd::prelude::*;

use crate::little_endian::{
    get_le,
    le_bytes,
    le_value,
    lemma_le_bytes_len,
    lemma_le_bytes_of_value,
    put_le,
    span,
};

verus! {

/// As many values can be represented as there are ways to choose the bytes.
pub proof fn law_span(len: nat)
    ensures
        span(len) == pow(256, len),
    decreases len,
{
    if len == 0 {
        lemma_pow0(256);
    } else {
        law_span((len - 1) as nat);
        reveal(pow);
    }
}

/// The bytes of a number are its digits to the base of 256, the least significant first.
pub proof fn law_le_digits(value: nat, len: nat, at: nat)
    requires
        at < len,
    ensures
        le_bytes(value, len).len() == len,
        le_bytes(value, len)[at as int] as int == (value as int / pow(256, at)) % 256,
    decreases len,
{
    lemma_le_bytes_len(value, len);
    if at == 0 {
        lemma_pow0(256);
    } else {
        let lower = (at - 1) as nat;
        law_le_digits(value / 256, (len - 1) as nat, lower);
        lemma_pow_positive(256, lower);
        lemma_div_denominator(value as int, 256, pow(256, lower));
        reveal(pow);
    }
}

/// The digits of the number that bytes stand for are these bytes.
pub proof fn law_le_value_digits(bytes: Seq<u8>, at: nat)
    requires
        at < bytes.len(),
    ensures
        (le_value(bytes) as int / pow(256, at)) % 256 == bytes[at as int] as int,
        le_value(bytes) < pow(256, bytes.len()),
{
    lemma_le_bytes_of_value(bytes);
    law_le_digits(le_value(bytes), bytes.len(), at);
    law_span(bytes.len());
}

/// The numbers that one byte and two bytes stand for.
pub proof fn law_le_value_short(a: u8, b: u8)
    ensures
        le_value(seq![a]) == a,
        le_value(seq![a, b]) == a + 256 * b,
{
    assert(seq![a].skip(1) =~= Seq::empty());
    assert(seq![a, b].skip(1) =~= seq![b]);
    assert(seq![b].skip(1) =~= Seq::empty());
    assert(le_value(Seq::<u8>::empty()) == 0);
    assert(le_value(seq![a]) == a + 256 * le_value(Seq::<u8>::empty()));
    assert(le_value(seq![b]) == b + 256 * le_value(Seq::<u8>::empty()));
    assert(le_value(seq![a, b]) == a + 256 * le_value(seq![b]));
}

/// [`put_le`] returns the digits of a number, and [`get_le`] the number with the digits
/// given.
pub proof fn law_put_get(value: u128, len: usize, bytes: Vec<u8>, src: &[u8], read: u128)
    requires
        call_ensures(put_le, (value, len), bytes),
        src@.len() <= 16,
        call_ensures(get_le, (src,), read),
    ensures
        bytes@.len() == len,
        forall|at: int|
            0 <= at < len ==> #[trigger] bytes@[at] as int == (value as int / pow(256, at as nat))
                % 256,
        forall|at: int|
            0 <= at < src@.len() ==> #[trigger] src@[at] as int == (read as int / pow(
                256,
                at as nat,
            )) % 256,
        read < pow(256, src@.len()),
{
    lemma_le_bytes_len(value as nat, len as nat);
    assert forall|at: int| 0 <= at < len implies #[trigger] bytes@[at] as int == (value as int
        / pow(256, at as nat)) % 256 by {
        law_le_digits(value as nat, len as nat, at as nat);
    }
    assert forall|at: int| 0 <= at < src@.len() implies #[trigger] src@[at] as int == (
    read as int / pow(256, at as nat)) % 256 by {
        law_le_value_digits(src@, at as nat);
    }
    lemma_le_bytes_of_value(src@);
    law_span(src@.len());
}

} // verus!

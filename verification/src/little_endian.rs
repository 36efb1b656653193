//! Little-endian representation of unsigned integers, the byte order of every number
//! in the format.

use vstd::prelude::*;

verus! {

/// Amount of values `len` bytes can represent.
pub open spec fn span(len: nat) -> nat
    decreases len,
{
    if len == 0 {
        1
    } else {
        256 * span((len - 1) as nat)
    }
}

/// The `len` bytes of `value`, least significant first.
pub open spec fn le_bytes(value: nat, len: nat) -> Seq<u8>
    decreases len,
{
    if len == 0 {
        Seq::empty()
    } else {
        seq![(value % 256) as u8] + le_bytes(value / 256, (len - 1) as nat)
    }
}

/// The number represented by `bytes`, least significant first.
pub open spec fn le_value(bytes: Seq<u8>) -> nat
    decreases bytes.len(),
{
    if bytes.len() == 0 {
        0
    } else {
        bytes[0] as nat + 256 * le_value(bytes.skip(1))
    }
}

/// Spans of the widths in use.
pub proof fn lemma_span_values()
    ensures
        span(0) == 1,
        span(1) == 0x100,
        span(2) == 0x1_0000,
        span(4) == 0x1_0000_0000,
        span(8) == 0x1_0000_0000_0000_0000,
        span(16) == 0x1_0000_0000_0000_0000_0000_0000_0000_0000,
{
    reveal_with_fuel(span, 17);
}

/// A representation has exactly the length asked for.
pub proof fn lemma_le_bytes_len(value: nat, len: nat)
    ensures
        le_bytes(value, len).len() == len,
    decreases len,
{
    if len > 0 {
        lemma_le_bytes_len(value / 256, (len - 1) as nat);
    }
}

/// Reading back a representation wide enough for the number gives the number.
pub proof fn lemma_le_value_of_bytes(value: nat, len: nat)
    requires
        value < span(len),
    ensures
        le_bytes(value, len).len() == len,
        le_value(le_bytes(value, len)) == value,
    decreases len,
{
    lemma_le_bytes_len(value, len);
    if len > 0 {
        let rest = le_bytes(value / 256, (len - 1) as nat);
        lemma_le_value_of_bytes(value / 256, (len - 1) as nat);
        assert(le_bytes(value, len).skip(1) =~= rest);
    }
}

/// Bytes are the representation of the number they stand for.
pub proof fn lemma_le_bytes_of_value(bytes: Seq<u8>)
    ensures
        le_value(bytes) < span(bytes.len()),
        le_bytes(le_value(bytes), bytes.len()) == bytes,
    decreases bytes.len(),
{
    if bytes.len() > 0 {
        let rest = bytes.skip(1);
        lemma_le_bytes_of_value(rest);
        assert(le_value(bytes) % 256 == bytes[0]);
        assert(le_value(bytes) / 256 == le_value(rest));
        assert(bytes =~= seq![bytes[0]] + rest);
    } else {
        assert(bytes =~= Seq::empty());
    }
}

/// Returns the `len` least significant bytes of `value`.
pub fn put_le(value: u128, len: usize) -> (bytes: Vec<u8>)
    ensures
        bytes@ == le_bytes(value as nat, len as nat),
{
    let mut bytes: Vec<u8> = Vec::with_capacity(len);
    let mut rest: u128 = value;
    let mut left: usize = len;
    while left > 0
        invariant
            le_bytes(value as nat, len as nat) == bytes@ + le_bytes(rest as nat, left as nat),
        decreases left,
    {
        let ghost before = bytes@;
        bytes.push((rest % 256) as u8);
        assert(before + le_bytes(rest as nat, left as nat) =~= bytes@ + le_bytes(
            (rest / 256) as nat,
            (left - 1) as nat,
        ));
        rest = rest / 256;
        left = left - 1;
    }
    assert(bytes@ + le_bytes(rest as nat, 0) =~= bytes@);
    bytes
}

/// Returns the number that up to 16 `bytes` stand for.
pub fn get_le(bytes: &[u8]) -> (value: u128)
    requires
        bytes@.len() <= 16,
    ensures
        value as nat == le_value(bytes@),
        value < span(bytes@.len()),
{
    let mut value: u128 = 0;
    let mut at: usize = bytes.len();
    proof {
        assert(bytes@.skip(at as int) =~= Seq::empty());
        lemma_span_values();
    }
    while at > 0
        invariant
            at <= bytes@.len() <= 16,
            value as nat == le_value(bytes@.skip(at as int)),
        decreases at,
    {
        proof {
            let tail = bytes@.skip(at - 1);
            assert(tail.skip(1) =~= bytes@.skip(at as int));
            assert(le_value(tail) == bytes@[at - 1] as nat + 256 * value as nat);
            lemma_le_bytes_of_value(tail);
            lemma_span_monotonic(tail.len(), 16);
            lemma_span_values();
        }
        at = at - 1;
        value = value * 256 + bytes[at] as u128;
    }
    proof {
        assert(bytes@.skip(0) =~= bytes@);
        lemma_le_bytes_of_value(bytes@);
    }
    value
}

/// Wider representations hold no fewer values.
pub proof fn lemma_span_monotonic(a: nat, b: nat)
    requires
        a <= b,
    ensures
        span(a) <= span(b),
    decreases b,
{
    if a < b {
        lemma_span_monotonic(a, (b - 1) as nat);
    }
}

} // verus!

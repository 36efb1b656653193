//! Plan of a drop guard for tuples.

use vstd::prelude::*;

verus! {

/// What is to be dropped if decoding of a tuple stops with `count` values initialized.
#[derive(Debug)]
pub struct TupleGuardArm {
    /// The amount, in a single byte.
    pub count: u8,
    /// Positions of the values, the last one first.
    pub drops: Vec<usize>,
}

/// Plans what is to be dropped if decoding of a tuple of `len` values stops: all of the
/// values initialized so far, in reverse order.
///
/// There is an arm for each amount of values between none and all.
pub fn impl_input(len: usize) -> (r: Vec<TupleGuardArm>)
    ensures
        r@.len() == (if len == 0 {
            0
        } else {
            len - 1
        }),
        forall|i: int|
            0 <= i < r@.len() ==> {
                &&& (#[trigger] r@[i]).count == (i + 1) % 256
                &&& r@[i].drops@ == Seq::new((i + 1) as nat, |k: int| (i - k) as usize)
            },
{
    let mut arms: Vec<TupleGuardArm> = Vec::new();
    let mut idx: usize = 1;
    while idx < len
        invariant
            1 <= idx,
            len == 0 ==> idx == 1,
            0 < len ==> idx <= len,
            arms@.len() == idx - 1,
            forall|i: int|
                0 <= i < arms@.len() ==> {
                    &&& (#[trigger] arms@[i]).count == (i + 1) % 256
                    &&& arms@[i].drops@ == Seq::new((i + 1) as nat, |k: int| (i - k) as usize)
                },
        decreases len - idx,
    {
        let mut drops: Vec<usize> = Vec::with_capacity(idx);
        let mut left: usize = idx;
        while left > 0
            invariant
                left <= idx,
                drops@ == Seq::new((idx - left) as nat, |k: int| (idx - 1 - k) as usize),
            decreases left,
        {
            left = left - 1;
            let ghost before = drops@;
            drops.push(left);
            assert(drops@ =~= Seq::new((idx - left) as nat, |k: int| (idx - 1 - k) as usize));
        }
        arms.push(TupleGuardArm { count: (idx % 256) as u8, drops });
        idx = idx + 1;
    }
    arms
}

} // verus!

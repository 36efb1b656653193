use vstd::prelude::*;

verus! {

/// Keeps the switches of this crate the only ones.
pub trait Sealed {

}

} // verus!

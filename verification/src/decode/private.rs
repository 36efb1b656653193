use vstd::prelude::*;

verus! {

/// Keeps the bearer of this crate the only one.
pub trait Sealed {

}

} // verus!

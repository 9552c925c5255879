use vstd::prelude::*;

pub mod decimal;
pub mod pricing;
pub mod instruments;
pub mod positions;
pub mod orders;
pub mod client;

verus! {

/// Adds two sizes.
pub fn add(left: usize, right: usize) -> (r: usize)
    requires
        left + right <= usize::MAX,
    ensures
        r == left + right,
{
    left + right
}

} // verus!

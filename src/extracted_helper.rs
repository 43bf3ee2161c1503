//! A repaired extraction: the helper `bar_extracted` selects between two
//! borrowed values and a constant, under one shared lifetime.
use vstd::prelude::*;

verus! {

/// The constant the helper falls back to.
pub const W: i32 = 5;

/// `y` when the value of `z` is below that of `x_ref`, else the constant `W`.
pub fn bar_extracted<'lt0>(x_ref: &'lt0 i32, z: &'lt0 i32, y: &'lt0 i32) -> (r: &'lt0 i32)
    ensures
        *r == (if *z < *x_ref { *y } else { W }),
{
    if *z < *x_ref {
        y
    } else {
        &W
    }
}

} // verus!

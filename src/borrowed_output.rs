//! The code that the extraction in this repair starts from: an output slot
//! that receives a borrow of a value which does not outlive it.
use vstd::prelude::*;

verus! {

/// Stores a borrow of a block-local value through an output slot; the slot
/// is not read after the value goes out of scope.
pub fn original_foo() {
    let zero: i32 = 0;
    let mut slot: &i32 = &zero;
    let p: &mut &i32 = &mut slot;
    {
        let x: i32 = 1;
        *p = &x;
    }
}

} // verus!

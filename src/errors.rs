use vstd::prelude::*;

verus! {

/// A size and alignment that do not describe a block, or a layout computation
/// that would overflow a machine word.
#[derive(Clone, Copy, PartialEq, Eq, Debug)]
pub struct LayoutErr;

pub(crate) fn new_layout_err() -> LayoutErr {
    LayoutErr
}

/// An allocation could not be satisfied: resources ran out, or the request
/// does not suit the allocator.
#[derive(Clone, Copy, PartialEq, Eq, Debug)]
pub struct AllocErr;

impl AllocErr {
    /// The message that describes this failure.
    pub fn to_string(&self) -> (r: String)
        ensures
            r@ == "memory allocation failed"@,
    {
        "memory allocation failed".to_string()
    }
}

/// An in-place grow or shrink could not reuse the given block.
#[derive(Clone, Copy, PartialEq, Eq, Debug)]
pub struct CannotReallocInPlace;

impl CannotReallocInPlace {
    /// The message that describes this failure.
    pub fn description(&self) -> (r: &str)
        ensures
            r@ == "cannot reallocate allocator's memory in place"@,
    {
        "cannot reallocate allocator's memory in place"
    }

    /// The message that describes this failure, as an owned string.
    pub fn to_string(&self) -> (r: String)
        ensures
            r@ == "cannot reallocate allocator's memory in place"@,
    {
        self.description().to_string()
    }
}

} // verus!

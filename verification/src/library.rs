//! What a pattern library holds: items found by their names.

use vstd::prelude::*;

use crate::harmony::HarmonicPattern;

verus! {

/// An item of a pattern library, listed and found by its name.
pub trait LibraryItem {
    /// The name the item is listed and found under.
    fn name(&self) -> &str;
}

impl LibraryItem for HarmonicPattern {
    /// A harmonic pattern goes by its `name` field.
    fn name(&self) -> (r: &str)
        ensures
            r@ == self.name@,
    {
        self.name.as_str()
    }
}

} // verus!

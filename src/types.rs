//! Values shared by all components.

use vstd::prelude::*;

verus! {

/// An account or contract identity.
#[derive(Clone, Copy, Debug, PartialEq, Eq, Structural, Hash)]
pub struct Address {
    pub id: u64,
}

impl Address {
    pub fn new(id: u64) -> (r: Address)
        ensures
            r.id == id,
    {
        Address { id }
    }
}

/// Seconds in one day.
pub const SECONDS_PER_DAY: u64 = 86400;

} // verus!

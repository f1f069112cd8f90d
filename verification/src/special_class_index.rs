//! Reserved class-index values. A region whose header carries the reserved
//! free value is a free region, available for allocation; every other class
//! index marks a live object and is never interpreted by this crate.

use vstd::prelude::*;

verus! {

/// The class index reserved for free regions.
pub const FREE_OBJECT_CLASS_INDEX: u64 = 1;

} // verus!

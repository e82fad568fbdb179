//! Items the derive macros refer to; not for direct use.
use vstd::prelude::*;

verus! {

/// A marker for the types that have a schema. It is implemented by the
/// schema derive, not by hand.
pub trait Schema {}

} // verus!

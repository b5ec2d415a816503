//! The `deserialization` unit of this layer.
use vstd::prelude::*;

verus! {

/// The unit's qualified name, `artop-runtime::deserialization`.
pub fn api_surface() -> (r: &'static str)
    ensures
        r@ == "artop-runtime::deserialization"@,
{
    "artop-runtime::deserialization"
}

} // verus!

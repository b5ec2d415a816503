//! The `serialization` unit of this layer.
use vstd::prelude::*;

verus! {

/// The unit's qualified name, `artop-runtime::serialization`.
pub fn api_surface() -> (r: &'static str)
    ensures
        r@ == "artop-runtime::serialization"@,
{
    "artop-runtime::serialization"
}

} // verus!

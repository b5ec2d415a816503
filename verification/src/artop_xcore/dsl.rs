//! The `dsl` unit of this layer.
use vstd::prelude::*;

verus! {

/// The unit's qualified name, `artop-xcore::dsl`.
pub fn api_surface() -> (r: &'static str)
    ensures
        r@ == "artop-xcore::dsl"@,
{
    "artop-xcore::dsl"
}

} // verus!

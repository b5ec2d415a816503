//! The `resource_factory` unit of this layer.
use vstd::prelude::*;

verus! {

/// The unit's qualified name, `artop-runtime::resource_factory`.
pub fn api_surface() -> (r: &'static str)
    ensures
        r@ == "artop-runtime::resource_factory"@,
{
    "artop-runtime::resource_factory"
}

} // verus!

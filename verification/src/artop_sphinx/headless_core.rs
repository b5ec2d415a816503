//! The `headless_core` unit of this layer.
use vstd::prelude::*;

verus! {

/// The unit's qualified name, `artop-sphinx::headless_core`.
pub fn api_surface() -> (r: &'static str)
    ensures
        r@ == "artop-sphinx::headless_core"@,
{
    "artop-sphinx::headless_core"
}

} // verus!

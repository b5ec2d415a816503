//! The `version_metadata` unit of this layer.
use vstd::prelude::*;

verus! {

/// The unit's qualified name, `artop-runtime::version_metadata`.
pub fn api_surface() -> (r: &'static str)
    ensures
        r@ == "artop-runtime::version_metadata"@,
{
    "artop-runtime::version_metadata"
}

} // verus!

//! The `autosar_metamodel` unit of this layer.
use vstd::prelude::*;

verus! {

/// The unit's qualified name, `artop-runtime::autosar_metamodel`.
pub fn api_surface() -> (r: &'static str)
    ensures
        r@ == "artop-runtime::autosar_metamodel"@,
{
    "artop-runtime::autosar_metamodel"
}

} // verus!

//! The `ecore_to_model` unit of this layer.
use vstd::prelude::*;

verus! {

/// The unit's qualified name, `artop-codegen::ecore_to_model`.
pub fn api_surface() -> (r: &'static str)
    ensures
        r@ == "artop-codegen::ecore_to_model"@,
{
    "artop-codegen::ecore_to_model"
}

} // verus!

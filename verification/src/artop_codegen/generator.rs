//! The `generator` unit of this layer.
use vstd::prelude::*;

verus! {

/// The unit's qualified name, `artop-codegen::generator`.
pub fn api_surface() -> (r: &'static str)
    ensures
        r@ == "artop-codegen::generator"@,
{
    "artop-codegen::generator"
}

} // verus!

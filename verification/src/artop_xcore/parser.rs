//! The `parser` unit of this layer.
use vstd::prelude::*;

verus! {

/// The unit's qualified name, `artop-xcore::parser`.
pub fn api_surface() -> (r: &'static str)
    ensures
        r@ == "artop-xcore::parser"@,
{
    "artop-xcore::parser"
}

} // verus!

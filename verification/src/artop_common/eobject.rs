//! The `EObject` trait: every model object names its classifier.
use vstd::prelude::*;

verus! {

/// Base trait for all model objects, mirroring EMF's `EObject`.
pub trait EObject {
    /// The classifier (class) name of this object, e.g. `"EClass"`.
    fn e_class(&self) -> &'static str;
}

} // verus!

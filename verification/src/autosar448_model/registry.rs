//! The class registry that reflection runs over: one entry per class (name,
//! abstract flag, super type ids, own feature ids) and the feature names.
use vstd::prelude::*;

verus! {

/// One registered class.
#[derive(Debug, Clone)]
pub struct EClassData {
    /// Class name.
    pub name: String,
    /// Whether the class is abstract.
    pub abstract_: bool,
    /// Ids of the direct super types.
    pub sups: Vec<u32>,
    /// Ids of the features the class declares itself.
    pub own: Vec<u16>,
}

/// The registry: classes indexed by id, feature names indexed by feature id.
#[derive(Debug, Clone)]
pub struct ClassRegistry {
    /// Classes; a class's id is its index.
    pub classes: Vec<EClassData>,
    /// Feature names; a feature's id is its index.
    pub feature_names: Vec<String>,
}

impl ClassRegistry {
    /// Number of classes.
    pub open spec fn n(&self) -> int {
        self.classes@.len() as int
    }

    /// The direct super types of class `c`.
    pub open spec fn sups_of(&self, c: u32) -> Seq<u32> {
        self.classes@[c as int].sups@
    }

    /// The features class `c` declares itself.
    pub open spec fn own_of(&self, c: u32) -> Seq<u16> {
        self.classes@[c as int].own@
    }

    /// Every class id fits `u32`, every super type id names a class, and
    /// every feature id fits `u16`.
    pub open spec fn wf(&self) -> bool {
        &&& self.classes@.len() <= u32::MAX
        &&& self.feature_names@.len() <= 0x10000
        &&& forall|c: int, k: int|
            0 <= c < self.classes@.len() && 0 <= k < self.classes@[c].sups@.len() ==> (
            #[trigger] self.classes@[c].sups@[k]) < self.classes@.len()
    }
}

} // verus!

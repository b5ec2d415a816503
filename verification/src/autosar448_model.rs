//! Data-driven reflection over a metamodel class registry: inheritance is
//! metadata (each class lists the ids of its super types), and the EMF
//! reflection algorithms (`eAllSuperTypes`, `eAllFeatures`, `isSuperTypeOf`,
//! `eGet`) walk that graph.
pub mod registry;
pub mod reflect;

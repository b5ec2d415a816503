//! AUTOSAR business constraints over a model's containment tree.
pub mod autosar_constraints;

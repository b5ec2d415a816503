//! Static model generation from `.ecore` files.
pub mod generator;
pub mod ecore_to_model;

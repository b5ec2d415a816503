//! Headless core subset of the Sphinx workspace layer.
pub mod headless_core;

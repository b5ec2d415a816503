//! The Xcore DSL: parser and language units.
pub mod parser;
pub mod dsl;

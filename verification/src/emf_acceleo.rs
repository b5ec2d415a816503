//! An Acceleo-style model-to-text engine: `mtl_parser` reads `.mtl` template
//! files into declarations, `template` holds the template model and the
//! variable context, and `m2t_engine` renders a template body against a
//! context (variable substitution, conditionals, iteration).
pub mod template;
pub mod mtl_parser;
pub mod m2t_engine;

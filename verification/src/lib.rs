//! Verified core of an EMF/ARTOP model tooling platform: lists, maps, URIs,
//! segment sequences, diagnostics, resources, undoable commands and their
//! stack, change notification, a template engine, metamodel helpers, AUTOSAR
//! constraints and model comparison.
pub mod emf_common;
pub mod emf_acceleo;
pub mod artop_common;
pub mod artop_ecore;
pub mod emf_compare;
pub mod artop_sphinx;
pub mod artop_xcore;
pub mod artop_codegen;
pub mod artop_runtime;
pub mod autosar448_model;
pub mod artop_validation;

pub mod text;

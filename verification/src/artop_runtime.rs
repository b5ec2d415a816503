//! AUTOSAR serialization, deserialization, resource factory and version metadata.
pub mod serialization;
pub mod deserialization;
pub mod resource_factory;
pub mod version_metadata;
pub mod autosar_metamodel;

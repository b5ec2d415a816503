//! Foundational metamodel infrastructure shared by the metamodel crates:
//! severities, URIs as text, a basic list, the namespace-URI package
//! registry, feature ids and notification kinds.
pub mod diagnostic;
pub mod uri;
pub mod elist;
pub mod eobject;
pub mod epackage_registry;
pub mod feature_map;
pub mod enotifier;
pub mod notification;

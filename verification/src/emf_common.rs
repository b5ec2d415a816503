pub mod elist;
pub mod emap;
pub mod segment_sequence;
pub mod uri;
pub mod diagnostic;
pub mod uriconverter;
pub mod command;
pub mod notification;
pub mod resource;

//! Metaobject definitions: configuration model, dependency planning, export and import.

pub mod types;
pub mod deps;
pub mod export;
pub mod import;

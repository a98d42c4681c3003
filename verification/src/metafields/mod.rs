//! Metafield definitions: Shopify read model, export and import.

pub mod types;
pub mod export;
pub mod import;

//! Ports: what the use cases need from Shopify, the file system, the clock and the JSON codec.
//! Implementations live outside the library.

use vstd::prelude::*;
use crate::domain::OwnerType;
use crate::error::AppError;
use crate::logging::Logger;
use crate::maps::StringMap;
use crate::metafield_config::MetafieldDefinitionConfig;
use crate::metafields::export::ExportedMetafieldDefinition;
use crate::metafields::import::MetafieldImportReport;
use crate::metafields::types::{MetafieldDefinitionInput, ShopifyMetafieldDefinition};
use crate::metaobjects::export::{ExportedMetaobjectDefinition, ShopifyMetaobjectDefinition};
use crate::metaobjects::import::{MetaobjectDefinitionCreateInput, MetaobjectDefinitionUpdateInput,
    MetaobjectImportReport};
use crate::metaobjects::types::MetaobjectDefinitionConfig;
use crate::validation::ValidationError;

verus! {

pub trait MetafieldGateway {
    fn list_metafield_definitions(&self, owner_type: OwnerType, logger: &dyn Logger) -> Result<Vec<ShopifyMetafieldDefinition>, AppError>;
}

pub trait MetaobjectGateway {
    fn list_metaobject_definitions(&self, logger: &dyn Logger) -> Result<Vec<ShopifyMetaobjectDefinition>, AppError>;
}

pub trait MetaobjectImportGateway {
    fn list_existing_metaobject_definitions(&self, logger: &dyn Logger) -> Result<Vec<ShopifyMetaobjectDefinition>, AppError>;

    /// Map metaobject definition type -> Shopify GID.
    fn metaobject_type_to_id_map(&self, logger: &dyn Logger) -> Result<StringMap, AppError>;

    fn metaobject_definition_create(&self, input: &MetaobjectDefinitionCreateInput, logger: &dyn Logger) -> Result<(), AppError>;

    fn metaobject_definition_update(&self, id: &str, input: &MetaobjectDefinitionUpdateInput, logger: &dyn Logger) -> Result<(), AppError>;

    /// Forget per-run caches about metaobject definitions (type and id maps, existing definitions).
    fn reset_metaobject_cache(&self);
}

pub trait MetafieldImportGateway {
    fn list_existing_metafield_definitions(&self, owner_type: OwnerType, logger: &dyn Logger) -> Result<Vec<ShopifyMetafieldDefinition>, AppError>;

    /// Map metaobject definition type -> Shopify GID.
    fn metaobject_type_to_id_map(&self, logger: &dyn Logger) -> Result<StringMap, AppError>;

    fn metafield_definition_create(&self, input: &MetafieldDefinitionInput, logger: &dyn Logger) -> Result<(), AppError>;

    fn metafield_definition_update(&self, id: &str, input: &MetafieldDefinitionInput, logger: &dyn Logger) -> Result<(), AppError>;

    fn metafield_definition_delete(&self, id: &str, logger: &dyn Logger) -> Result<(), AppError>;
}

pub trait FileRepo {
    fn read_text(&self, path: &str) -> Result<String, AppError>;

    fn write_text(&mut self, path: &str, contents: &str) -> Result<(), AppError>;
}

pub trait Clock {
    fn now_timestamp_millis(&self) -> u128;

    fn sleep_millis(&self, millis: u64);
}

/// The JSON text of the files the tool reads and writes. Parsing reports the failing path
/// of a structural error; writing reports the encoder's message.
pub trait JsonCodec {
    fn parse_metafield_definitions(&self, json: &str) -> Result<Vec<MetafieldDefinitionConfig>, Vec<ValidationError>>;

    fn parse_metaobject_definitions(&self, json: &str) -> Result<Vec<MetaobjectDefinitionConfig>, Vec<ValidationError>>;

    fn metafield_definitions_text(&self, defs: &[ExportedMetafieldDefinition]) -> Result<String, String>;

    fn metaobject_definitions_text(&self, defs: &[ExportedMetaobjectDefinition]) -> Result<String, String>;

    fn metafield_report_text(&self, report: &MetafieldImportReport) -> Result<String, String>;

    fn metaobject_report_text(&self, report: &MetaobjectImportReport) -> Result<String, String>;
}

} // verus!

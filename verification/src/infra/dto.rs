//! Shopify GraphQL responses, by the fields the tool reads.

use vstd::prelude::*;

verus! {

/// A GraphQL response: its data, if any, and the text of its `errors` member, if present.
#[derive(Debug)]
pub struct GraphQlResponse<D> {
    pub data: Option<D>,
    pub errors: Option<String>,
}

#[derive(Debug, Clone, PartialEq, Eq)]
pub struct PageInfo {
    pub has_next_page: bool,
    pub end_cursor: Option<String>,
}

#[derive(Debug, Clone, PartialEq, Eq)]
pub struct UserErrorNode {
    pub field: Option<Vec<String>>,
    pub message: String,
}

#[derive(Debug, Clone, PartialEq, Eq)]
pub struct IdNode {
    pub id: String,
}

// -------------------------------------------------------------------------------------------------
// metafieldDefinitions
// -------------------------------------------------------------------------------------------------

#[derive(Debug, Clone, PartialEq, Eq)]
pub struct MetafieldDefsData {
    pub metafield_definitions: MetafieldDefsConnection,
}

#[derive(Debug, Clone, PartialEq, Eq)]
pub struct MetafieldDefsConnection {
    pub edges: Vec<MetafieldDefEdge>,
    pub page_info: PageInfo,
}

#[derive(Debug, Clone, PartialEq, Eq)]
pub struct MetafieldDefEdge {
    pub node: MetafieldDefNode,
}

#[derive(Debug, Clone, PartialEq, Eq)]
pub struct MetafieldDefNode {
    pub id: String,
    pub namespace: String,
    pub key: String,
    pub name: String,
    pub description: Option<String>,
    pub type_obj: MetafieldTypeObj,
    pub validations: Vec<MetafieldValidationNode>,
    pub pinned_position: Option<i32>,
    pub access: Option<MetafieldAccessNode>,
    pub capabilities: Option<MetafieldCapabilitiesNode>,
}

#[derive(Debug, Clone, PartialEq, Eq)]
pub struct MetafieldTypeObj {
    pub name: String,
}

#[derive(Debug, PartialEq, Eq)]
pub struct MetafieldValidationNode {
    pub name: String,
    pub value: Option<String>,
}

#[derive(Debug, Clone, PartialEq, Eq)]
pub struct MetafieldAccessNode {
    pub admin: Option<String>,
    pub storefront: Option<String>,
    pub customer_account: Option<String>,
}

#[derive(Debug, Clone, Copy, PartialEq, Eq)]
pub struct CapabilityFlagNode {
    pub enabled: bool,
}

#[derive(Debug, Clone, Copy, PartialEq, Eq)]
pub struct MetafieldCapabilitiesNode {
    pub admin_filterable: Option<CapabilityFlagNode>,
    pub smart_collection_condition: Option<CapabilityFlagNode>,
    pub unique_values: Option<CapabilityFlagNode>,
}

#[derive(Debug, Clone, PartialEq, Eq)]
pub struct MetafieldDefinitionCreatePayload {
    pub created_definition: Option<IdNode>,
    pub user_errors: Vec<UserErrorNode>,
}

#[derive(Debug, Clone, PartialEq, Eq)]
pub struct MetafieldDefinitionUpdatePayload {
    pub updated_definition: Option<IdNode>,
    pub user_errors: Vec<UserErrorNode>,
}

#[derive(Debug, Clone, PartialEq, Eq)]
pub struct MetafieldDefinitionDeletePayload {
    pub deleted_definition_id: Option<String>,
    pub user_errors: Vec<UserErrorNode>,
}

#[derive(Debug, Clone, PartialEq, Eq)]
pub struct MetafieldDefinitionCreateData {
    pub metafield_definition_create: MetafieldDefinitionCreatePayload,
}

#[derive(Debug, Clone, PartialEq, Eq)]
pub struct MetafieldDefinitionUpdateData {
    pub metafield_definition_update: MetafieldDefinitionUpdatePayload,
}

#[derive(Debug, Clone, PartialEq, Eq)]
pub struct MetafieldDefinitionDeleteData {
    pub metafield_definition_delete: MetafieldDefinitionDeletePayload,
}

// -------------------------------------------------------------------------------------------------
// metaobjectDefinitions
// -------------------------------------------------------------------------------------------------

#[derive(Debug, Clone, PartialEq, Eq)]
pub struct MetaobjectDefsData {
    pub metaobject_definitions: MetaobjectDefsConnection,
}

#[derive(Debug, Clone, PartialEq, Eq)]
pub struct MetaobjectDefsConnection {
    pub edges: Vec<MetaobjectDefEdge>,
    pub page_info: PageInfo,
}

#[derive(Debug, Clone, PartialEq, Eq)]
pub struct MetaobjectDefEdge {
    pub node: MetaobjectDefNode,
}

#[derive(Debug, Clone, PartialEq, Eq)]
pub struct MetaobjectDefNode {
    pub id: String,
    pub typ: String,
}

#[derive(Debug, Clone, PartialEq, Eq)]
pub struct MetaobjectFieldTypeNodeForExport {
    pub name: String,
}

#[derive(Debug, Clone, PartialEq, Eq)]
pub struct MetaobjectValidationNodeForExport {
    pub name: String,
    pub value: Option<String>,
}

#[derive(Debug, Clone, PartialEq, Eq)]
pub struct MetaobjectFieldDefForExport {
    pub key: String,
    pub name: String,
    pub type_obj: MetaobjectFieldTypeNodeForExport,
    pub required: bool,
    pub description: Option<String>,
    pub validations: Vec<MetaobjectValidationNodeForExport>,
}

#[derive(Debug, Clone, PartialEq, Eq)]
pub struct MetaobjectAccessForExport {
    pub admin: Option<String>,
    pub storefront: Option<String>,
}

#[derive(Debug, Clone, Copy, PartialEq, Eq)]
pub struct MetaobjectCapabilityFlagNodeForExport {
    pub enabled: bool,
}

#[derive(Debug, Clone, Copy, PartialEq, Eq)]
pub struct MetaobjectCapabilitiesNodeForExport {
    pub publishable: Option<MetaobjectCapabilityFlagNodeForExport>,
    pub translatable: Option<MetaobjectCapabilityFlagNodeForExport>,
    pub renderable: Option<MetaobjectCapabilityFlagNodeForExport>,
    pub online_store: Option<MetaobjectCapabilityFlagNodeForExport>,
}

#[derive(Debug, Clone, PartialEq, Eq)]
pub struct MetaobjectDefNodeForExport {
    pub id: String,
    pub typ: String,
    pub name: String,
    pub field_definitions: Vec<MetaobjectFieldDefForExport>,
    pub description: Option<String>,
    pub display_name_key: Option<String>,
    pub access: Option<MetaobjectAccessForExport>,
    pub capabilities: Option<MetaobjectCapabilitiesNodeForExport>,
}

#[derive(Debug, Clone, PartialEq, Eq)]
pub struct MetaobjectDefsDataForExport {
    pub metaobject_definitions: MetaobjectDefsConnectionForExport,
}

#[derive(Debug, Clone, PartialEq, Eq)]
pub struct MetaobjectDefsConnectionForExport {
    pub edges: Vec<MetaobjectDefEdgeForExport>,
    pub page_info: PageInfo,
}

#[derive(Debug, Clone, PartialEq, Eq)]
pub struct MetaobjectDefEdgeForExport {
    pub node: MetaobjectDefNodeForExport,
}

#[derive(Debug, Clone, PartialEq, Eq)]
pub struct MetaobjectDefinitionCreatePayload {
    pub metaobject_definition: Option<IdNode>,
    pub user_errors: Vec<UserErrorNode>,
}

#[derive(Debug, Clone, PartialEq, Eq)]
pub struct MetaobjectDefinitionUpdatePayload {
    pub metaobject_definition: Option<IdNode>,
    pub user_errors: Vec<UserErrorNode>,
}

#[derive(Debug, Clone, PartialEq, Eq)]
pub struct MetaobjectDefinitionCreateData {
    pub metaobject_definition_create: MetaobjectDefinitionCreatePayload,
}

#[derive(Debug, Clone, PartialEq, Eq)]
pub struct MetaobjectDefinitionUpdateData {
    pub metaobject_definition_update: MetaobjectDefinitionUpdatePayload,
}

} // verus!

//! The metafield definitions file (`definitions/metafields/<owner>.json`), import side.

use vstd::prelude::*;
use crate::model::{RuleView, opt_view, copy_opt_string};

verus! {

#[derive(Debug, Clone, PartialEq, Eq)]
pub struct MetafieldDefinitionConfig {
    pub namespace: String,
    pub key: String,
    pub name: String,
    pub description: Option<String>,
    pub typ: String,
    pub validations: Option<Vec<ValidationRule>>,
    pub pin: bool,
    pub access: Option<MetafieldAccessConfig>,
    pub capabilities: Option<MetafieldCapabilitiesConfig>,
}

#[derive(Debug, PartialEq, Eq)]
pub struct ValidationRule {
    pub name: String,
    pub value: Option<String>,
}

#[derive(Debug, Clone, Copy, PartialEq, Eq)]
pub struct MetafieldAccessConfig {
    pub storefront: Option<StorefrontAccess>,
    pub admin: Option<AdminAccess>,
    pub customer_account: Option<CustomerAccountAccess>,
}

#[derive(Debug, Clone, Copy, PartialEq, Eq)]
pub enum StorefrontAccess {
    NoAccess,
    PublicRead,
}

#[derive(Debug, Clone, Copy, PartialEq, Eq)]
pub enum AdminAccess {
    MerchantRead,
    MerchantReadWrite,
}

#[derive(Debug, Clone, Copy, PartialEq, Eq)]
pub enum CustomerAccountAccess {
    NoAccess,
    Read,
}

#[derive(Debug, Clone, Copy, PartialEq, Eq)]
pub struct CapabilityFlagConfig {
    pub enabled: bool,
}

#[derive(Debug, Clone, Copy, PartialEq, Eq)]
pub struct MetafieldCapabilitiesConfig {
    pub admin_filterable: Option<CapabilityFlagConfig>,
    pub smart_collection_condition: Option<CapabilityFlagConfig>,
    pub unique_values: Option<CapabilityFlagConfig>,
}

pub struct MetafieldConfigView {
    pub namespace: Seq<char>,
    pub key: Seq<char>,
    pub name: Seq<char>,
    pub description: Option<Seq<char>>,
    pub typ: Seq<char>,
    pub validations: Option<Seq<RuleView>>,
    pub pin: bool,
    pub access: Option<MetafieldAccessConfig>,
    pub capabilities: Option<MetafieldCapabilitiesConfig>,
}

impl View for ValidationRule {
    type V = RuleView;

    open spec fn view(&self) -> RuleView {
        RuleView { name: self.name@, value: opt_view(self.value) }
    }
}

pub open spec fn config_rules_view(v: Seq<ValidationRule>) -> Seq<RuleView> {
    v.map_values(|r: ValidationRule| r@)
}

pub open spec fn opt_config_rules_view(o: Option<Vec<ValidationRule>>) -> Option<Seq<RuleView>> {
    match o {
        Some(v) => Some(config_rules_view(v@)),
        None => None,
    }
}

impl View for MetafieldDefinitionConfig {
    type V = MetafieldConfigView;

    open spec fn view(&self) -> MetafieldConfigView {
        MetafieldConfigView {
            namespace: self.namespace@,
            key: self.key@,
            name: self.name@,
            description: opt_view(self.description),
            typ: self.typ@,
            validations: opt_config_rules_view(self.validations),
            pin: self.pin,
            access: self.access,
            capabilities: self.capabilities,
        }
    }
}

pub open spec fn metafield_configs_view(v: Seq<MetafieldDefinitionConfig>) -> Seq<MetafieldConfigView> {
    v.map_values(|c: MetafieldDefinitionConfig| c@)
}

impl Clone for ValidationRule {
    fn clone(&self) -> (r: Self)
        ensures
            r == *self,
    {
        ValidationRule { name: self.name.clone(), value: copy_opt_string(&self.value) }
    }
}

} // verus!

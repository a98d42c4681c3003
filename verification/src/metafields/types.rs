//! Metafield DTOs shared by the use cases and the gateway.

use vstd::prelude::*;
use crate::model::{RuleView, opt_view, copy_opt_string};

verus! {

/// Minimal shape of a metafield definition as Shopify returns it.
#[derive(Debug, Clone, PartialEq, Eq)]
pub struct ShopifyMetafieldDefinition {
    /// Shopify GID (needed for update and delete on import).
    pub id: Option<String>,
    pub namespace: String,
    pub key: String,
    pub name: String,
    pub description: Option<String>,
    /// Shopify metafield type name (e.g. `single_line_text_field`).
    pub typ: String,
    pub validations: Vec<MetafieldValidation>,
    /// Raw `pinnedPosition`; export turns it into `pin: bool`.
    pub pinned_position: Option<i32>,
    pub access: Option<MetafieldAccess>,
    pub capabilities: Option<MetafieldCapabilities>,
}

#[derive(Debug, PartialEq, Eq)]
pub struct MetafieldValidation {
    pub name: String,
    pub value: Option<String>,
}

#[derive(Debug, PartialEq, Eq)]
pub struct MetafieldAccess {
    pub admin: Option<String>,
    pub storefront: Option<String>,
    pub customer_account: Option<String>,
}

#[derive(Debug, Clone, Copy, PartialEq, Eq)]
pub struct CapabilityFlag {
    pub enabled: bool,
}

#[derive(Debug, Clone, Copy, PartialEq, Eq)]
pub struct MetafieldCapabilities {
    pub admin_filterable: Option<CapabilityFlag>,
    pub smart_collection_condition: Option<CapabilityFlag>,
    pub unique_values: Option<CapabilityFlag>,
}

// -------------------------------------------------------------------------------------------------
// Import mutation inputs (used by the ports and the gateway).
// -------------------------------------------------------------------------------------------------

#[derive(Debug, PartialEq, Eq)]
pub struct MetafieldDefinitionValidationInput {
    pub name: String,
    pub value: Option<String>,
}

#[derive(Debug, Clone, Copy, PartialEq, Eq)]
pub struct MetafieldDefinitionCapabilitiesInput {
    pub admin_filterable: Option<CapabilityFlag>,
    pub smart_collection_condition: Option<CapabilityFlag>,
    pub unique_values: Option<CapabilityFlag>,
}

#[derive(Debug, Clone, PartialEq, Eq)]
pub struct MetafieldDefinitionInput {
    pub namespace: String,
    pub key: String,
    pub name: String,
    pub description: Option<String>,
    pub typ: String,
    pub owner_type: String,
    pub validations: Option<Vec<MetafieldDefinitionValidationInput>>,
    /// Pin the definition in the Shopify admin (`pinnedPosition` is not an input field).
    pub pin: bool,
    pub capabilities: Option<MetafieldDefinitionCapabilitiesInput>,
}

pub struct MetafieldAccessView {
    pub admin: Option<Seq<char>>,
    pub storefront: Option<Seq<char>>,
    pub customer_account: Option<Seq<char>>,
}

pub struct ShopifyMetafieldView {
    pub id: Option<Seq<char>>,
    pub namespace: Seq<char>,
    pub key: Seq<char>,
    pub name: Seq<char>,
    pub description: Option<Seq<char>>,
    pub typ: Seq<char>,
    pub validations: Seq<RuleView>,
    pub pinned_position: Option<i32>,
    pub access: Option<MetafieldAccessView>,
    pub capabilities: Option<MetafieldCapabilities>,
}

pub struct MetafieldInputView {
    pub namespace: Seq<char>,
    pub key: Seq<char>,
    pub name: Seq<char>,
    pub description: Option<Seq<char>>,
    pub typ: Seq<char>,
    pub owner_type: Seq<char>,
    pub validations: Option<Seq<RuleView>>,
    pub pin: bool,
    pub capabilities: Option<MetafieldDefinitionCapabilitiesInput>,
}

impl View for MetafieldValidation {
    type V = RuleView;

    open spec fn view(&self) -> RuleView {
        RuleView { name: self.name@, value: opt_view(self.value) }
    }
}

impl View for MetafieldDefinitionValidationInput {
    type V = RuleView;

    open spec fn view(&self) -> RuleView {
        RuleView { name: self.name@, value: opt_view(self.value) }
    }
}

impl View for MetafieldAccess {
    type V = MetafieldAccessView;

    open spec fn view(&self) -> MetafieldAccessView {
        MetafieldAccessView {
            admin: opt_view(self.admin),
            storefront: opt_view(self.storefront),
            customer_account: opt_view(self.customer_account),
        }
    }
}

pub open spec fn validations_view(v: Seq<MetafieldValidation>) -> Seq<RuleView> {
    v.map_values(|r: MetafieldValidation| r@)
}

pub open spec fn inputs_view(v: Seq<MetafieldDefinitionValidationInput>) -> Seq<RuleView> {
    v.map_values(|r: MetafieldDefinitionValidationInput| r@)
}

pub open spec fn opt_inputs_view(o: Option<Vec<MetafieldDefinitionValidationInput>>) -> Option<Seq<RuleView>> {
    match o {
        Some(v) => Some(inputs_view(v@)),
        None => None,
    }
}

pub open spec fn opt_access_view(o: Option<MetafieldAccess>) -> Option<MetafieldAccessView> {
    match o {
        Some(a) => Some(a@),
        None => None,
    }
}

impl View for ShopifyMetafieldDefinition {
    type V = ShopifyMetafieldView;

    open spec fn view(&self) -> ShopifyMetafieldView {
        ShopifyMetafieldView {
            id: opt_view(self.id),
            namespace: self.namespace@,
            key: self.key@,
            name: self.name@,
            description: opt_view(self.description),
            typ: self.typ@,
            validations: validations_view(self.validations@),
            pinned_position: self.pinned_position,
            access: opt_access_view(self.access),
            capabilities: self.capabilities,
        }
    }
}

impl View for MetafieldDefinitionInput {
    type V = MetafieldInputView;

    open spec fn view(&self) -> MetafieldInputView {
        MetafieldInputView {
            namespace: self.namespace@,
            key: self.key@,
            name: self.name@,
            description: opt_view(self.description),
            typ: self.typ@,
            owner_type: self.owner_type@,
            validations: opt_inputs_view(self.validations),
            pin: self.pin,
            capabilities: self.capabilities,
        }
    }
}

pub open spec fn shopify_metafields_view(v: Seq<ShopifyMetafieldDefinition>) -> Seq<ShopifyMetafieldView> {
    v.map_values(|d: ShopifyMetafieldDefinition| d@)
}

impl Clone for MetafieldValidation {
    fn clone(&self) -> (r: Self)
        ensures
            r == *self,
    {
        MetafieldValidation { name: self.name.clone(), value: copy_opt_string(&self.value) }
    }
}

impl Clone for MetafieldDefinitionValidationInput {
    fn clone(&self) -> (r: Self)
        ensures
            r == *self,
    {
        MetafieldDefinitionValidationInput { name: self.name.clone(), value: copy_opt_string(&self.value) }
    }
}

impl Clone for MetafieldAccess {
    fn clone(&self) -> (r: Self)
        ensures
            r == *self,
    {
        MetafieldAccess {
            admin: copy_opt_string(&self.admin),
            storefront: copy_opt_string(&self.storefront),
            customer_account: copy_opt_string(&self.customer_account),
        }
    }
}

/// Copy of a list of validations.
pub fn copy_validations(v: &Vec<MetafieldValidation>) -> (r: Vec<MetafieldValidation>)
    ensures
        r@ == v@,
{
    let mut out: Vec<MetafieldValidation> = Vec::new();
    let mut i: usize = 0;
    while i < v.len()
        invariant
            i <= v.len(),
            out@ == v@.take(i as int),
        decreases v.len() - i,
    {
        out.push(v[i].clone());
        assert(out@ =~= v@.take(i + 1));
        i = i + 1;
    }
    assert(v@.take(v.len() as int) =~= v@);
    out
}

impl ShopifyMetafieldDefinition {
    /// A copy with the same view.
    pub fn duplicate(&self) -> (r: Self)
        ensures
            r@ == self@,
    {
        let validations = copy_validations(&self.validations);
        ShopifyMetafieldDefinition {
            id: copy_opt_string(&self.id),
            namespace: self.namespace.clone(),
            key: self.key.clone(),
            name: self.name.clone(),
            description: copy_opt_string(&self.description),
            typ: self.typ.clone(),
            validations,
            pinned_position: self.pinned_position,
            access: match &self.access {
                Some(a) => Some(a.clone()),
                None => None,
            },
            capabilities: self.capabilities,
        }
    }
}

} // verus!

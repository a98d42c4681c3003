//! Metaobject definition configuration (the shape of `definitions/metaobjects.json`).

use vstd::prelude::*;
use crate::metafields::types::CapabilityFlag;
use crate::model::{RuleView, opt_view, copy_opt_string, lemma_map_values_push, lemma_take_push};

verus! {

#[derive(Debug, Clone, PartialEq, Eq)]
pub struct MetaobjectDefinitionConfig {
    /// Metaobject type (stable identifier).
    pub typ: String,
    pub name: String,
    pub field_definitions: Vec<MetaobjectFieldDefinitionConfig>,
    pub description: Option<String>,
    pub display_name_key: Option<String>,
    pub access: Option<MetaobjectAccessConfig>,
    pub capabilities: Option<MetaobjectCapabilitiesConfig>,
}

#[derive(Debug, Clone, PartialEq, Eq)]
pub struct MetaobjectFieldDefinitionConfig {
    pub key: String,
    pub name: String,
    pub typ: String,
    pub required: bool,
    pub description: Option<String>,
    pub validations: Option<Vec<MetaobjectValidationRule>>,
}

#[derive(Debug, PartialEq, Eq)]
pub struct MetaobjectValidationRule {
    pub name: String,
    pub value: Option<String>,
}

#[derive(Debug, PartialEq, Eq)]
pub struct MetaobjectAccessConfig {
    pub admin: Option<String>,
    pub storefront: Option<String>,
}

#[derive(Debug, Clone, Copy, PartialEq, Eq)]
pub struct MetaobjectCapabilitiesConfig {
    pub publishable: Option<CapabilityFlag>,
    pub translatable: Option<CapabilityFlag>,
    pub renderable: Option<CapabilityFlag>,
    pub online_store: Option<CapabilityFlag>,
}

pub struct AccessView {
    pub admin: Option<Seq<char>>,
    pub storefront: Option<Seq<char>>,
}

pub struct FieldConfigView {
    pub key: Seq<char>,
    pub name: Seq<char>,
    pub typ: Seq<char>,
    pub required: bool,
    pub description: Option<Seq<char>>,
    pub validations: Option<Seq<RuleView>>,
}

pub struct DefinitionConfigView {
    pub typ: Seq<char>,
    pub name: Seq<char>,
    pub field_definitions: Seq<FieldConfigView>,
    pub description: Option<Seq<char>>,
    pub display_name_key: Option<Seq<char>>,
    pub access: Option<AccessView>,
    pub capabilities: Option<MetaobjectCapabilitiesConfig>,
}

impl View for MetaobjectValidationRule {
    type V = RuleView;

    open spec fn view(&self) -> RuleView {
        RuleView { name: self.name@, value: opt_view(self.value) }
    }
}

impl View for MetaobjectAccessConfig {
    type V = AccessView;

    open spec fn view(&self) -> AccessView {
        AccessView { admin: opt_view(self.admin), storefront: opt_view(self.storefront) }
    }
}

pub open spec fn rules_view(v: Seq<MetaobjectValidationRule>) -> Seq<RuleView> {
    v.map_values(|r: MetaobjectValidationRule| r@)
}

pub open spec fn opt_rules_view(o: Option<Vec<MetaobjectValidationRule>>) -> Option<Seq<RuleView>> {
    match o {
        Some(v) => Some(rules_view(v@)),
        None => None,
    }
}

impl View for MetaobjectFieldDefinitionConfig {
    type V = FieldConfigView;

    open spec fn view(&self) -> FieldConfigView {
        FieldConfigView {
            key: self.key@,
            name: self.name@,
            typ: self.typ@,
            required: self.required,
            description: opt_view(self.description),
            validations: opt_rules_view(self.validations),
        }
    }
}

pub open spec fn field_configs_view(v: Seq<MetaobjectFieldDefinitionConfig>) -> Seq<FieldConfigView> {
    v.map_values(|f: MetaobjectFieldDefinitionConfig| f@)
}

pub open spec fn opt_access_view(o: Option<MetaobjectAccessConfig>) -> Option<AccessView> {
    match o {
        Some(a) => Some(a@),
        None => None,
    }
}

impl View for MetaobjectDefinitionConfig {
    type V = DefinitionConfigView;

    open spec fn view(&self) -> DefinitionConfigView {
        DefinitionConfigView {
            typ: self.typ@,
            name: self.name@,
            field_definitions: field_configs_view(self.field_definitions@),
            description: opt_view(self.description),
            display_name_key: opt_view(self.display_name_key),
            access: opt_access_view(self.access),
            capabilities: self.capabilities,
        }
    }
}

pub open spec fn definition_configs_view(v: Seq<MetaobjectDefinitionConfig>) -> Seq<DefinitionConfigView> {
    v.map_values(|d: MetaobjectDefinitionConfig| d@)
}

impl Clone for MetaobjectValidationRule {
    fn clone(&self) -> (r: Self)
        ensures
            r == *self,
    {
        MetaobjectValidationRule { name: self.name.clone(), value: copy_opt_string(&self.value) }
    }
}

impl Clone for MetaobjectAccessConfig {
    fn clone(&self) -> (r: Self)
        ensures
            r == *self,
    {
        MetaobjectAccessConfig {
            admin: copy_opt_string(&self.admin),
            storefront: copy_opt_string(&self.storefront),
        }
    }
}

/// Copy of a list of validation rules.
pub fn copy_rules(v: &Vec<MetaobjectValidationRule>) -> (r: Vec<MetaobjectValidationRule>)
    ensures
        r@ == v@,
{
    let mut out: Vec<MetaobjectValidationRule> = Vec::new();
    let mut i: usize = 0;
    while i < v.len()
        invariant
            i <= v.len(),
            out@ == v@.take(i as int),
        decreases v.len() - i,
    {
        out.push(v[i].clone());
        assert(out@ =~= v@.take(i + 1));
        i = i + 1;
    }
    assert(v@.take(v.len() as int) =~= v@);
    out
}

/// Copy of an optional list of validation rules.
pub fn copy_opt_rules(o: &Option<Vec<MetaobjectValidationRule>>) -> (r: Option<
    Vec<MetaobjectValidationRule>,
>)
    ensures
        opt_rules_view(r) == opt_rules_view(*o),
{
    match o {
        Some(v) => Some(copy_rules(v)),
        None => None,
    }
}

impl MetaobjectFieldDefinitionConfig {
    /// A copy with the same view.
    pub fn duplicate(&self) -> (r: Self)
        ensures
            r@ == self@,
    {
        MetaobjectFieldDefinitionConfig {
            key: self.key.clone(),
            name: self.name.clone(),
            typ: self.typ.clone(),
            required: self.required,
            description: copy_opt_string(&self.description),
            validations: copy_opt_rules(&self.validations),
        }
    }
}

impl MetaobjectDefinitionConfig {
    /// A copy with the same view.
    pub fn duplicate(&self) -> (r: Self)
        ensures
            r@ == self@,
    {
        let mut fields: Vec<MetaobjectFieldDefinitionConfig> = Vec::new();
        let mut i: usize = 0;
        while i < self.field_definitions.len()
            invariant
                i <= self.field_definitions.len(),
                field_configs_view(fields@) == field_configs_view(self.field_definitions@.take(i as int)),
            decreases self.field_definitions.len() - i,
        {
            let ghost before = fields@;
            let f = self.field_definitions[i].duplicate();
            fields.push(f);
            proof {
                assert(fields@ =~= before.push(f));
                lemma_take_push(self.field_definitions@, i as int);
                lemma_map_values_push(before, f, |x: MetaobjectFieldDefinitionConfig| x@);
                lemma_map_values_push(self.field_definitions@.take(i as int), self.field_definitions@[i as int], |x: MetaobjectFieldDefinitionConfig| x@);
            }
            i = i + 1;
        }
        assert(self.field_definitions@.take(self.field_definitions.len() as int) =~= self.field_definitions@);
        let r = MetaobjectDefinitionConfig {
            typ: self.typ.clone(),
            name: self.name.clone(),
            field_definitions: fields,
            description: copy_opt_string(&self.description),
            display_name_key: copy_opt_string(&self.display_name_key),
            access: match &self.access {
                Some(a) => Some(a.clone()),
                None => None,
            },
            capabilities: self.capabilities,
        };
        assert(r@.field_definitions =~= self@.field_definitions);
        r
    }
}

} // verus!

//! Metafield import: compare the definitions file with Shopify, then create, update or
//! recreate definitions in batches, and report what was done.

use vstd::prelude::*;
use crate::domain::OwnerType;
use crate::error::AppError;
use crate::logging::{LogField, LogLevel, Logger};
use crate::maps::{StringMap, views};
use crate::metafield_config::{MetafieldDefinitionConfig, MetafieldCapabilitiesConfig, CapabilityFlagConfig,
    ValidationRule, MetafieldAccessConfig, MetafieldConfigView, config_rules_view, opt_config_rules_view, metafield_configs_view};
use crate::model::{RuleView, opt_view, copy_opt_string, lemma_map_values_push, lemma_take_push};
use crate::ports::{Clock, FileRepo, JsonCodec, MetafieldImportGateway};
use crate::text::{trim, trim_str, str_eq, concat, chars_of, string_from_range, decimal, lower, u128_to_decimal,
    usize_to_decimal, contains_str, to_ascii_lowercase, utf8_longer_than_255};
use crate::validation::{format_validation_errors, ValidationError};
use super::export::{metafield_definitions_file, metafield_definitions_path, exported_metafield, ExportedMetafieldView};
use super::types::{CapabilityFlag, MetafieldCapabilities, MetafieldDefinitionCapabilitiesInput,
    MetafieldDefinitionInput, MetafieldDefinitionValidationInput, MetafieldValidation,
    ShopifyMetafieldDefinition, ShopifyMetafieldView, MetafieldInputView, inputs_view, opt_inputs_view,
    validations_view, shopify_metafields_view, MetafieldAccessView};

verus! {

#[derive(Debug, Clone, Copy, PartialEq, Eq)]
pub struct ImportMetafieldsOptions {
    pub allow_type_changes: bool,
    pub allow_associated_metafields_deletion: bool,
}

impl Default for ImportMetafieldsOptions {
    fn default() -> (r: Self)
        ensures
            !r.allow_type_changes,
            !r.allow_associated_metafields_deletion,
    {
        ImportMetafieldsOptions { allow_type_changes: false, allow_associated_metafields_deletion: false }
    }
}

#[derive(Debug, Clone, Copy, PartialEq, Eq)]
pub enum MetafieldImportAction {
    Create,
    Update,
    Recreate,
    NoChange,
    Failed,
    Skipped,
}

#[derive(Debug, Clone, PartialEq, Eq)]
pub struct MetafieldImportItemReport {
    pub namespace: String,
    pub key: String,
    pub action: MetafieldImportAction,
    pub message: Option<String>,
}

#[derive(Debug, Clone, Copy, PartialEq, Eq)]
pub struct MetafieldImportSummary {
    pub created: usize,
    pub updated: usize,
    pub recreated: usize,
    pub no_change: usize,
    pub failed: usize,
    pub total: usize,
}

impl Default for MetafieldImportSummary {
    fn default() -> (r: Self)
        ensures
            r == (MetafieldImportSummary { created: 0, updated: 0, recreated: 0, no_change: 0, failed: 0, total: 0 }),
    {
        MetafieldImportSummary { created: 0, updated: 0, recreated: 0, no_change: 0, failed: 0, total: 0 }
    }
}

#[derive(Debug, Clone, PartialEq, Eq)]
pub struct MetafieldImportReport {
    pub owner_type: String,
    pub summary: MetafieldImportSummary,
    pub items: Vec<MetafieldImportItemReport>,
}


/// The key a definition is found by: `namespace.key`.
pub open spec fn metafield_key(namespace: Seq<char>, key: Seq<char>) -> Seq<char> {
    namespace + "."@ + key
}

fn metafield_key_text(namespace: &str, key: &str) -> (r: String)
    ensures
        r@ == metafield_key(namespace@, key@),
{
    let mut out = namespace.to_string();
    out.append(".");
    out.append(key);
    out
}

/// A description as sent to Shopify: trimmed, none when blank, cut to its first 255
/// characters when its UTF-8 text is longer than 255 bytes.
pub open spec fn import_description(d: Option<Seq<char>>) -> Option<Seq<char>> {
    match d {
        None => None,
        Some(s) => {
            let t = trim(s);
            if t.len() == 0 {
                None
            } else if vstd::utf8::encode_utf8(t).len() > 255 {
                Some(t.take(if t.len() < 255 { t.len() as int } else { 255 }))
            } else {
                Some(t)
            }
        },
    }
}

fn normalize_description(d: Option<String>) -> (r: Option<String>)
    ensures
        opt_view(r) == import_description(opt_view(d)),
{
    let s = match d {
        None => {
            return None;
        },
        Some(s) => trim_str(s.as_str()),
    };
    if s.as_str().is_empty() {
        return None;
    }
    if utf8_longer_than_255(s.as_str()) {
        let v = chars_of(s.as_str());
        let hi: usize = if v.len() < 255 { v.len() } else { 255 };
        let r = string_from_range(&v, 0, hi);
        assert(v@.subrange(0, hi as int) =~= s@.take(hi as int));
        Some(r)
    } else {
        Some(s)
    }
}


/// A configured rule as sent to Shopify: `metaobject_definition_type` becomes
/// `metaobject_definition_id` when `m` knows the type; other rules are kept.
pub open spec fn input_rule(r: RuleView, m: Map<Seq<char>, Seq<char>>) -> RuleView {
    if r.name == "metaobject_definition_type"@ && r.value is Some && m.contains_key(r.value->0) {
        RuleView { name: "metaobject_definition_id"@, value: Some(m[r.value->0]) }
    } else {
        r
    }
}

/// The configured validations as sent to Shopify: none when absent or empty.
pub open spec fn input_validations(v: Option<Seq<RuleView>>, m: Map<Seq<char>, Seq<char>>) -> Option<Seq<RuleView>> {
    match v {
        None => None,
        Some(l) => if l.len() == 0 {
            None
        } else {
            Some(l.map_values(|r: RuleView| input_rule(r, m)))
        },
    }
}

fn rule_to_input(r: &ValidationRule, m: &StringMap) -> (out: MetafieldDefinitionValidationInput)
    ensures
        out@ == input_rule(r@, m@),
{
    if str_eq(r.name.as_str(), "metaobject_definition_type") {
        if let Some(t) = &r.value {
            if let Some(id) = m.get(t.as_str()) {
                return MetafieldDefinitionValidationInput { name: "metaobject_definition_id".to_string(), value: Some(id.clone()) };
            }
        }
    }
    MetafieldDefinitionValidationInput { name: r.name.clone(), value: copy_opt_string(&r.value) }
}

/// The configured validations as sent to Shopify (see `input_validations`).
fn validations_to_input(validations: &Option<Vec<ValidationRule>>, metaobject_type_to_id: &StringMap) -> (r: Option<Vec<MetafieldDefinitionValidationInput>>)
    ensures
        opt_inputs_view(r) == input_validations(opt_config_rules_view(*validations), metaobject_type_to_id@),
{
    let v = match validations {
        None => {
            return None;
        },
        Some(v) => v,
    };
    if v.len() == 0 {
        return None;
    }
    let ghost rs = config_rules_view(v@);
    let mut out: Vec<MetafieldDefinitionValidationInput> = Vec::new();
    let mut i: usize = 0;
    while i < v.len()
        invariant
            i <= v.len(),
            rs == config_rules_view(v@),
            inputs_view(out@) == rs.take(i as int).map_values(|r: RuleView| input_rule(r, metaobject_type_to_id@)),
        decreases v.len() - i,
    {
        let x = rule_to_input(&v[i], metaobject_type_to_id);
        let ghost before = out@;
        out.push(x);
        proof {
            lemma_map_values_push(before, x, |y: MetafieldDefinitionValidationInput| y@);
            lemma_take_push(rs, i as int);
            lemma_map_values_push(rs.take(i as int), rs[i as int], |r: RuleView| input_rule(r, metaobject_type_to_id@));
        }
        i = i + 1;
    }
    assert(rs.take(v.len() as int) =~= rs);
    Some(out)
}

pub open spec fn flag_input(f: Option<CapabilityFlagConfig>) -> Option<CapabilityFlag> {
    match f {
        Some(x) => Some(CapabilityFlag { enabled: x.enabled }),
        None => None,
    }
}

/// The configured capabilities as sent to Shopify.
pub open spec fn input_capabilities(c: Option<MetafieldCapabilitiesConfig>) -> Option<MetafieldDefinitionCapabilitiesInput> {
    match c {
        Some(c) => Some(MetafieldDefinitionCapabilitiesInput {
            admin_filterable: flag_input(c.admin_filterable),
            smart_collection_condition: flag_input(c.smart_collection_condition),
            unique_values: flag_input(c.unique_values),
        }),
        None => None,
    }
}

fn flag_to_input(f: Option<CapabilityFlagConfig>) -> (r: Option<CapabilityFlag>)
    ensures
        r == flag_input(f),
{
    match f {
        Some(x) => Some(CapabilityFlag { enabled: x.enabled }),
        None => None,
    }
}

fn capabilities_to_input(c: Option<MetafieldCapabilitiesConfig>) -> (r: Option<MetafieldDefinitionCapabilitiesInput>)
    ensures
        r == input_capabilities(c),
{
    match c {
        Some(c) => Some(MetafieldDefinitionCapabilitiesInput {
            admin_filterable: flag_to_input(c.admin_filterable),
            smart_collection_condition: flag_to_input(c.smart_collection_condition),
            unique_values: flag_to_input(c.unique_values),
        }),
        None => None,
    }
}

/// Validations with an empty list counted as none.
pub open spec fn non_empty(a: Option<Seq<RuleView>>) -> Option<Seq<RuleView>> {
    match a {
        Some(v) => if v.len() == 0 { None } else { Some(v) },
        None => None,
    }
}

/// The validations to send agree with Shopify's, an empty list counting as none.
pub open spec fn same_validations(a: Option<Seq<RuleView>>, b: Seq<RuleView>) -> bool {
    non_empty(a) == non_empty(Some(b))
}

fn opt_str_eq(a: &Option<String>, b: &Option<String>) -> (r: bool)
    ensures
        r == (opt_view(*a) == opt_view(*b)),
{
    match (a, b) {
        (None, None) => true,
        (Some(x), Some(y)) => str_eq(x.as_str(), y.as_str()),
        _ => false,
    }
}

fn are_validations_equal(a: &Option<Vec<MetafieldDefinitionValidationInput>>, b: &Vec<MetafieldValidation>) -> (r: bool)
    ensures
        r == same_validations(opt_inputs_view(*a), validations_view(b@)),
{
    let v = match a {
        None => {
            return b.len() == 0;
        },
        Some(v) => v,
    };
    if v.len() == 0 {
        return b.len() == 0;
    }
    if b.len() == 0 || v.len() != b.len() {
        assert(inputs_view(v@).len() != validations_view(b@).len());
        return false;
    }
    let mut i: usize = 0;
    while i < v.len()
        invariant
            i <= v.len(),
            v.len() == b.len(),
            v.len() > 0,
            opt_inputs_view(*a) == Some(inputs_view(v@)),
            forall|j: int| 0 <= j < i ==> inputs_view(v@)[j] == validations_view(b@)[j],
        decreases v.len() - i,
    {
        if !str_eq(v[i].name.as_str(), b[i].name.as_str()) || !opt_str_eq(&v[i].value, &b[i].value) {
            assert(inputs_view(v@)[i as int] != validations_view(b@)[i as int]);
            return false;
        }
        i = i + 1;
    }
    assert(inputs_view(v@) =~= validations_view(b@));
    true
}

/// A configured capability agrees with Shopify's: both absent, or both present with the same
/// `enabled`.
pub open spec fn same_flag(c: Option<CapabilityFlagConfig>, e: Option<CapabilityFlag>) -> bool {
    match (c, e) {
        (None, None) => true,
        (Some(a), Some(b)) => a.enabled == b.enabled,
        _ => false,
    }
}

/// Capabilities are compared only when the file states them.
pub open spec fn same_capabilities(cfg: Option<MetafieldCapabilitiesConfig>, ex: Option<MetafieldCapabilities>) -> bool {
    match cfg {
        None => true,
        Some(c) => {
            &&& same_flag(c.admin_filterable, match ex { Some(e) => e.admin_filterable, None => None })
            &&& same_flag(c.smart_collection_condition, match ex { Some(e) => e.smart_collection_condition, None => None })
            &&& same_flag(c.unique_values, match ex { Some(e) => e.unique_values, None => None })
        },
    }
}

fn flags_equal(c: Option<CapabilityFlagConfig>, e: Option<CapabilityFlag>) -> (r: bool)
    ensures
        r == same_flag(c, e),
{
    match (c, e) {
        (None, None) => true,
        (Some(a), Some(b)) => a.enabled == b.enabled,
        _ => false,
    }
}

fn are_capabilities_equal(cfg: &Option<MetafieldCapabilitiesConfig>, existing: &Option<MetafieldCapabilities>) -> (r: bool)
    ensures
        r == same_capabilities(*cfg, *existing),
{
    match cfg {
        None => true,
        Some(c) => {
            let (a, s, u) = match existing {
                Some(e) => (e.admin_filterable, e.smart_collection_condition, e.unique_values),
                None => (None, None, None),
            };
            flags_equal(c.admin_filterable, a) && flags_equal(c.smart_collection_condition, s) && flags_equal(c.unique_values, u)
        },
    }
}

/// The existing definition differs from the file: name, description (as sent), pin,
/// validations (as sent) or, when the file states them, capabilities. Access is not compared.
pub open spec fn needs_update(cfg: MetafieldConfigView, vals: Option<Seq<RuleView>>, ex: ShopifyMetafieldView) -> bool {
    ||| ex.name != cfg.name
    ||| import_description(cfg.description) != import_description(ex.description)
    ||| (ex.pinned_position is Some) != cfg.pin
    ||| !same_validations(vals, ex.validations)
    ||| !same_capabilities(cfg.capabilities, ex.capabilities)
}

/// Whether the existing definition needs an update to match the file (see `needs_update`).
pub fn should_update(cfg: &MetafieldDefinitionConfig, input_validations: &Option<Vec<MetafieldDefinitionValidationInput>>, existing: &ShopifyMetafieldDefinition) -> (r: bool)
    ensures
        r == needs_update(cfg@, opt_inputs_view(*input_validations), existing@),
{
    if !str_eq(existing.name.as_str(), cfg.name.as_str()) {
        return true;
    }
    let cfg_desc = normalize_description(copy_opt_string(&cfg.description));
    let ex_desc = normalize_description(copy_opt_string(&existing.description));
    if !opt_str_eq(&cfg_desc, &ex_desc) {
        return true;
    }
    if existing.pinned_position.is_some() != cfg.pin {
        return true;
    }
    if !are_validations_equal(input_validations, &existing.validations) {
        return true;
    }
    if !are_capabilities_equal(&cfg.capabilities, &existing.capabilities) {
        return true;
    }
    false
}

/// The mutation input of a configured definition for an owner type.
pub open spec fn definition_input(cfg: MetafieldConfigView, owner: Seq<char>, m: Map<Seq<char>, Seq<char>>) -> MetafieldInputView {
    MetafieldInputView {
        namespace: cfg.namespace,
        key: cfg.key,
        name: cfg.name,
        description: import_description(cfg.description),
        typ: cfg.typ,
        owner_type: owner,
        validations: input_validations(cfg.validations, m),
        pin: cfg.pin,
        capabilities: input_capabilities(cfg.capabilities),
    }
}

fn build_input(cfg: &MetafieldDefinitionConfig, owner_type: OwnerType, validations: Option<Vec<MetafieldDefinitionValidationInput>>) -> (r: MetafieldDefinitionInput)
    ensures
        r@.namespace == cfg@.namespace,
        r@.key == cfg@.key,
        r@.name == cfg@.name,
        r@.description == import_description(cfg@.description),
        r@.typ == cfg@.typ,
        r@.owner_type == owner_type.name(),
        r@.validations == opt_inputs_view(validations),
        r@.pin == cfg.pin,
        r@.capabilities == input_capabilities(cfg.capabilities),
{
    MetafieldDefinitionInput {
        namespace: cfg.namespace.clone(),
        key: cfg.key.clone(),
        name: cfg.name.clone(),
        description: normalize_description(copy_opt_string(&cfg.description)),
        typ: cfg.typ.clone(),
        owner_type: owner_type.as_str().to_string(),
        validations,
        pin: cfg.pin,
        capabilities: capabilities_to_input(cfg.capabilities),
    }
}

/// What an import does with one configured definition.
#[derive(Debug, Clone, PartialEq, Eq)]
pub enum MetafieldImportStep {
    /// Not imported: the message for the report and the reason for the log.
    Blocked { message: String, reason: &'static str },
    /// Delete the existing definition, then create it again with the new type.
    Recreate { id: String, input: MetafieldDefinitionInput },
    Update { id: String, input: MetafieldDefinitionInput },
    NoChange,
    Create(MetafieldDefinitionInput),
}

pub open spec fn msg_type_change_blocked() -> Seq<char> {
    "Type differs; recreation blocked (pass --allow-type-changes)"@
}

pub open spec fn msg_deletion_required() -> Seq<char> {
    "Type requires associated metafields deletion (pass --allow-associated-metafields-deletion)"@
}

pub open spec fn msg_missing_metafield_id(k: Seq<char>) -> Seq<char> {
    "missing metafield definition id for existing "@ + k
}

/// The error whose message is `m`, from the gateway.
pub open spec fn gateway_error(e: AppError, m: Seq<char>) -> bool {
    e matches AppError::Gateway(s) && s@ == m
}

/// Recreating a definition of this type deletes its metafields.
pub open spec fn deletes_associated(t: Seq<char>) -> bool {
    t == "reference"@ || t == "metaobject"@
}

/// What to do with `cfg` given the existing definition with its key, if any:
/// - none: create it;
/// - another type: recreate it, unless type changes are not allowed, or the new type would
///   delete associated metafields without permission (both reported as failed);
/// - same type: update it when it differs (see `needs_update`), else leave it.
/// Updating or recreating a definition without an id is an error.
pub fn decide_metafield_import(
    cfg: &MetafieldDefinitionConfig,
    existing: Option<&ShopifyMetafieldDefinition>,
    options: ImportMetafieldsOptions,
    owner_type: OwnerType,
    metaobject_type_to_id: &StringMap,
) -> (r: Result<MetafieldImportStep, AppError>)
    ensures
        ({
            let m = metaobject_type_to_id@;
            let input = definition_input(cfg@, owner_type.name(), m);
            let key = metafield_key(cfg@.namespace, cfg@.key);
            match existing {
                None => r matches Ok(MetafieldImportStep::Create(x)) && x@ == input,
                Some(ex) => if ex@.typ != cfg@.typ {
                    if !options.allow_type_changes {
                        r matches Ok(MetafieldImportStep::Blocked { message, reason }) && message@ == msg_type_change_blocked()
                            && reason@ == "type_change_blocked"@
                    } else if deletes_associated(cfg@.typ) && !options.allow_associated_metafields_deletion {
                        r matches Ok(MetafieldImportStep::Blocked { message, reason }) && message@ == msg_deletion_required()
                            && reason@ == "requires_associated_metafields_deletion_flag"@
                    } else if ex.id is None {
                        r matches Err(e) && gateway_error(e, msg_missing_metafield_id(key))
                    } else {
                        r matches Ok(MetafieldImportStep::Recreate { id, input: x }) && id@ == ex.id->0@ && x@ == input
                    }
                } else if !needs_update(cfg@, input.validations, ex@) {
                    r matches Ok(MetafieldImportStep::NoChange)
                } else if ex.id is None {
                    r matches Err(e) && gateway_error(e, msg_missing_metafield_id(key))
                } else {
                    r matches Ok(MetafieldImportStep::Update { id, input: x }) && id@ == ex.id->0@ && x@ == input
                },
            }
        }),
        !options.allow_type_changes ==> !(r matches Ok(MetafieldImportStep::Recreate { .. })),
{
    let key = metafield_key_text(cfg.namespace.as_str(), cfg.key.as_str());
    match existing {
        Some(ex) => {
            if !str_eq(ex.typ.as_str(), cfg.typ.as_str()) {
                if !options.allow_type_changes {
                    return Ok(MetafieldImportStep::Blocked {
                        message: "Type differs; recreation blocked (pass --allow-type-changes)".to_string(),
                        reason: "type_change_blocked",
                    });
                }
                if (str_eq(cfg.typ.as_str(), "reference") || str_eq(cfg.typ.as_str(), "metaobject")) && !options.allow_associated_metafields_deletion {
                    return Ok(MetafieldImportStep::Blocked {
                        message: "Type requires associated metafields deletion (pass --allow-associated-metafields-deletion)".to_string(),
                        reason: "requires_associated_metafields_deletion_flag",
                    });
                }
                let id = match &ex.id {
                    Some(id) => id.clone(),
                    None => {
                        return Err(AppError::Gateway(concat("missing metafield definition id for existing ", key.as_str())));
                    },
                };
                let validations = validations_to_input(&cfg.validations, metaobject_type_to_id);
                let input = build_input(cfg, owner_type, validations);
                return Ok(MetafieldImportStep::Recreate { id, input });
            }
            let validations = validations_to_input(&cfg.validations, metaobject_type_to_id);
            if should_update(cfg, &validations, ex) {
                let id = match &ex.id {
                    Some(id) => id.clone(),
                    None => {
                        return Err(AppError::Gateway(concat("missing metafield definition id for existing ", key.as_str())));
                    },
                };
                let input = build_input(cfg, owner_type, validations);
                Ok(MetafieldImportStep::Update { id, input })
            } else {
                Ok(MetafieldImportStep::NoChange)
            }
        },
        None => {
            let validations = validations_to_input(&cfg.validations, metaobject_type_to_id);
            Ok(MetafieldImportStep::Create(build_input(cfg, owner_type, validations)))
        },
    }
}


/// How many items have action `a`.
pub open spec fn count_action(items: Seq<MetafieldImportItemReport>, a: MetafieldImportAction) -> nat
    decreases items.len(),
{
    if items.len() == 0 {
        0
    } else {
        count_action(items.drop_last(), a) + if items.last().action == a { 1nat } else { 0nat }
    }
}

proof fn lemma_count_push(items: Seq<MetafieldImportItemReport>, x: MetafieldImportItemReport, a: MetafieldImportAction)
    ensures
        count_action(items.push(x), a) == count_action(items, a) + if x.action == a { 1nat } else { 0nat },
{
    assert(items.push(x).drop_last() =~= items);
}

proof fn lemma_count_le(items: Seq<MetafieldImportItemReport>, a: MetafieldImportAction)
    ensures
        count_action(items, a) <= items.len(),
    decreases items.len(),
{
    if items.len() > 0 {
        lemma_count_le(items.drop_last(), a);
    }
}

/// The report agrees with its items: the summary counts them by action and in all, and an
/// item carries a message exactly when it failed.
pub open spec fn report_consistent(rep: MetafieldImportReport) -> bool {
    &&& rep.summary.created == count_action(rep.items@, MetafieldImportAction::Create)
    &&& rep.summary.updated == count_action(rep.items@, MetafieldImportAction::Update)
    &&& rep.summary.recreated == count_action(rep.items@, MetafieldImportAction::Recreate)
    &&& rep.summary.no_change == count_action(rep.items@, MetafieldImportAction::NoChange)
    &&& rep.summary.failed == count_action(rep.items@, MetafieldImportAction::Failed)
    &&& rep.summary.total == rep.items@.len()
    &&& forall|k: int| 0 <= k < rep.items@.len() ==> ((#[trigger] rep.items@[k]).action == MetafieldImportAction::Failed
        <==> rep.items@[k].message is Some)
}

/// Where a metafield import report is written for the timestamp `ts` (milliseconds).
pub open spec fn metafield_report_path(ts: nat) -> Seq<char> {
    "reports/metafield-definitions:import/metafield-import-report-"@ + decimal(ts) + ".json"@
}

/// The report file for the timestamp `ts`.
pub fn metafield_report_file(ts: u128) -> (r: String)
    ensures
        r@ == metafield_report_path(ts as nat),
{
    let n = u128_to_decimal(ts);
    let a = concat("reports/metafield-definitions:import/metafield-import-report-", n.as_str());
    concat(a.as_str(), ".json")
}

/// The last listed definition with key `key`, if any.
pub open spec fn last_with_key(exs: Seq<ShopifyMetafieldView>, key: Seq<char>) -> Option<ShopifyMetafieldView>
    decreases exs.len(),
{
    if exs.len() == 0 {
        None
    } else if metafield_key(exs.last().namespace, exs.last().key) == key {
        Some(exs.last())
    } else {
        last_with_key(exs.drop_last(), key)
    }
}

proof fn lemma_last_with_key(exs: Seq<ShopifyMetafieldView>, key: Seq<char>, i: int)
    requires
        -1 <= i < exs.len(),
        i >= 0 ==> metafield_key(exs[i].namespace, exs[i].key) == key,
        forall|j: int| i < j < exs.len() ==> metafield_key(#[trigger] exs[j].namespace, exs[j].key) != key,
    ensures
        last_with_key(exs, key) == (if i >= 0 { Some(exs[i]) } else { None::<ShopifyMetafieldView> }),
    decreases exs.len(),
{
    if exs.len() > 0 && i < exs.len() - 1 {
        assert(metafield_key(exs[exs.len() - 1].namespace, exs[exs.len() - 1].key) != key);
        let d = exs.drop_last();
        assert forall|j: int| i < j < d.len() implies metafield_key(#[trigger] d[j].namespace, d[j].key) != key by {
            assert(d[j] == exs[j]);
        }
        lemma_last_with_key(d, key, i);
    }
}

/// The action reported for `cfg` when the definition listed with its key is `ex`, unless
/// the import ends with an error there (see `decide_metafield_import`); a creation that the
/// gateway refuses is reported as failed instead.
pub open spec fn planned_action(
    cfg: MetafieldConfigView,
    ex: Option<ShopifyMetafieldView>,
    options: ImportMetafieldsOptions,
    owner: Seq<char>,
    m: Map<Seq<char>, Seq<char>>,
) -> MetafieldImportAction {
    match ex {
        None => MetafieldImportAction::Create,
        Some(e) => if e.typ != cfg.typ {
            if !options.allow_type_changes || (deletes_associated(cfg.typ) && !options.allow_associated_metafields_deletion) {
                MetafieldImportAction::Failed
            } else {
                MetafieldImportAction::Recreate
            }
        } else if needs_update(cfg, definition_input(cfg, owner, m).validations, e) {
            MetafieldImportAction::Update
        } else {
            MetafieldImportAction::NoChange
        },
    }
}

/// The message of a definition that the rules block (see `decide_metafield_import`), if they
/// block it.
pub open spec fn planned_message(cfg: MetafieldConfigView, ex: Option<ShopifyMetafieldView>, options: ImportMetafieldsOptions) -> Option<Seq<char>> {
    match ex {
        Some(e) => if e.typ != cfg.typ && !options.allow_type_changes {
            Some(msg_type_change_blocked())
        } else if e.typ != cfg.typ && deletes_associated(cfg.typ) && !options.allow_associated_metafields_deletion {
            Some(msg_deletion_required())
        } else {
            None
        },
        None => None,
    }
}

/// The report item for `cfg` follows the decision rules, given the existing definitions `exs`
/// and Shopify's `type -> id` map `m`: its namespace and key are `cfg`'s; its action is the
/// planned one, except that a creation the gateway refuses is reported as failed (with the
/// error's text as its message); a blocked definition carries the blocking message.
pub open spec fn item_follows_rules(
    item: MetafieldImportItemReport,
    cfg: MetafieldConfigView,
    exs: Seq<ShopifyMetafieldView>,
    options: ImportMetafieldsOptions,
    owner: Seq<char>,
    m: Map<Seq<char>, Seq<char>>,
) -> bool {
    let a = planned_action(cfg, last_with_key(exs, metafield_key(cfg.namespace, cfg.key)), options, owner, m);
    &&& item.namespace@ == cfg.namespace
    &&& item.key@ == cfg.key
    &&& (item.action == a || (a == MetafieldImportAction::Create && item.action == MetafieldImportAction::Failed))
    &&& (a == MetafieldImportAction::Failed ==> opt_view(item.message)
        == planned_message(cfg, last_with_key(exs, metafield_key(cfg.namespace, cfg.key)), options))
}

/// The items of `rep` are one per configured definition of `cfgs`, in order, each following the
/// decision rules for the same existing definitions and map.
pub open spec fn report_follows_rules(
    rep: MetafieldImportReport,
    cfgs: Seq<MetafieldConfigView>,
    exs: Seq<ShopifyMetafieldView>,
    options: ImportMetafieldsOptions,
    owner: Seq<char>,
    m: Map<Seq<char>, Seq<char>>,
) -> bool {
    &&& rep.items@.len() == cfgs.len()
    &&& forall|k: int| 0 <= k < cfgs.len() ==> #[trigger] item_follows_rules(rep.items@[k], cfgs[k], exs, options, owner, m)
}

/// `rep` reports the import of some configured definitions by the decision rules, for some
/// existing definitions and `type -> id` map (see `report_follows_rules`).
pub open spec fn imported_by_rules(rep: MetafieldImportReport, options: ImportMetafieldsOptions, owner: Seq<char>) -> bool {
    exists|cfgs: Seq<MetafieldConfigView>, exs: Seq<ShopifyMetafieldView>, m: Map<Seq<char>, Seq<char>>|
        #[trigger] report_follows_rules(rep, cfgs, exs, options, owner, m)
}

/// The existing definition with key `key` (the last one listed).
fn find_existing(defs: &Vec<ShopifyMetafieldDefinition>, key: &str) -> (r: Option<usize>)
    ensures
        match r {
            Some(i) => i < defs.len() && metafield_key(defs@[i as int].namespace@, defs@[i as int].key@) == key@
                && forall|j: int| i < j < defs.len() ==> metafield_key(#[trigger] defs@[j].namespace@, defs@[j].key@) != key@,
            None => forall|j: int| 0 <= j < defs.len() ==> metafield_key(#[trigger] defs@[j].namespace@, defs@[j].key@) != key@,
        },
{
    let mut i = defs.len();
    while i > 0
        invariant
            i <= defs.len(),
            forall|j: int| i <= j < defs.len() ==> metafield_key(#[trigger] defs@[j].namespace@, defs@[j].key@) != key@,
        decreases i,
    {
        let k = metafield_key_text(defs[i - 1].namespace.as_str(), defs[i - 1].key.as_str());
        if str_eq(k.as_str(), key) {
            return Some(i - 1);
        }
        i = i - 1;
    }
    None
}

fn push_item(report: &mut MetafieldImportReport, cfg: &MetafieldDefinitionConfig, action: MetafieldImportAction, message: Option<String>)
    requires
        report_consistent(*old(report)),
        (action == MetafieldImportAction::Failed) <==> message is Some,
    ensures
        report_consistent(*final(report)),
        final(report).items@ == old(report).items@.push(final(report).items@.last()),
        final(report).items@.last().namespace@ == cfg.namespace@,
        final(report).items@.last().key@ == cfg.key@,
        final(report).items@.last().action == action,
        final(report).items@.last().message == message,
        final(report).owner_type == old(report).owner_type,
{
    let item = MetafieldImportItemReport { namespace: cfg.namespace.clone(), key: cfg.key.clone(), action, message };
    let ghost before = report.items@;
    report.items.push(item);
    let n = report.items.len();
    proof {
        lemma_count_push(before, item, MetafieldImportAction::Create);
        lemma_count_push(before, item, MetafieldImportAction::Update);
        lemma_count_push(before, item, MetafieldImportAction::Recreate);
        lemma_count_push(before, item, MetafieldImportAction::NoChange);
        lemma_count_push(before, item, MetafieldImportAction::Failed);
        lemma_count_le(report.items@, MetafieldImportAction::Create);
        lemma_count_le(report.items@, MetafieldImportAction::Update);
        lemma_count_le(report.items@, MetafieldImportAction::Recreate);
        lemma_count_le(report.items@, MetafieldImportAction::NoChange);
        lemma_count_le(report.items@, MetafieldImportAction::Failed);
    }
    report.summary.total = n;
    match action {
        MetafieldImportAction::Create => {
            report.summary.created = report.summary.created + 1;
        },
        MetafieldImportAction::Update => {
            report.summary.updated = report.summary.updated + 1;
        },
        MetafieldImportAction::Recreate => {
            report.summary.recreated = report.summary.recreated + 1;
        },
        MetafieldImportAction::NoChange => {
            report.summary.no_change = report.summary.no_change + 1;
        },
        MetafieldImportAction::Failed => {
            report.summary.failed = report.summary.failed + 1;
        },
        MetafieldImportAction::Skipped => {},
    }
    proof {
        assert forall|k: int| 0 <= k < report.items@.len() implies ((#[trigger] report.items@[k]).action == MetafieldImportAction::Failed
            <==> report.items@[k].message is Some) by {
            if k < before.len() {
                assert(report.items@[k] == before[k]);
            }
        }
    }
}

pub struct ImportMetafieldsFromFileUseCase<G, C> {
    gateway: G,
    clock: C,
}

/// The error for a definitions file of `owner_type` that holds no definition.
pub open spec fn is_empty_file_error(e: AppError, owner_type: OwnerType) -> bool {
    e matches AppError::Json(m) && m@ == "metafield config file must be a non-empty array: "@
        + metafield_definitions_path(owner_type)
}

/// An empty list of definitions read from the file of `owner_type` is an error.
pub fn check_non_empty(parsed: &Vec<MetafieldDefinitionConfig>, owner_type: OwnerType) -> (r: Result<(), AppError>)
    ensures
        parsed@.len() == 0 ==> (r matches Err(e) && is_empty_file_error(e, owner_type)),
        parsed@.len() > 0 ==> r is Ok,
{
    if parsed.len() == 0 {
        let path = metafield_definitions_file(owner_type);
        return Err(AppError::Json(concat("metafield config file must be a non-empty array: ", path.as_str())));
    }
    Ok(())
}

/// Whether an import of one of several owner types that ended with `e` is skipped with a
/// warning instead of failing the run: with several owner types (`multi`), when the error's
/// text says that a file was not found.
pub fn skips_missing_file(multi: bool, e: &AppError) -> (r: bool)
    ensures
        r == (multi && exists|i: int| 0 <= i <= e.text().len() - "file not found:"@.len()
            && #[trigger] e.text().subrange(i, i + "file not found:"@.len()) == "file not found:"@),
{
    if !multi {
        return false;
    }
    let msg = e.to_string();
    contains_str(msg.as_str(), "file not found:")
}

/// The hint logged when a definitions file is missing, when `e` is such an error.
fn log_missing_file_hint(e: &AppError, owner_type: OwnerType, output: &str, logger: &dyn Logger) {
    if let AppError::Repo(msg) = e {
        if contains_str(msg.as_str(), "file not found:") {
            logger.log(LogLevel::Info, "Hint: run command to generate missing definitions file", &[
                LogField::new("suggested_command", concat("mdsr-cli metafield export --owner-type ", owner_type.as_str())),
                LogField::new("output", output.to_string()),
            ]);
        }
    }
}

/// One read of the definitions file of `owner_type` (`metafield_definitions_file`) through
/// `repo`. Nothing is known of the result; the import states, through `call_ensures` of this
/// function, what it does with whatever came back.
pub fn read_metafield_definitions_text<R: FileRepo>(repo: &R, owner_type: OwnerType) -> Result<String, AppError> {
    let path = metafield_definitions_file(owner_type);
    repo.read_text(path.as_str())
}

/// One parse of a metafield definitions text through `codec` (see
/// `read_metafield_definitions_text`).
pub fn parse_metafield_definitions_text<C: JsonCodec>(codec: &C, json: &String) -> Result<Vec<MetafieldDefinitionConfig>, Vec<ValidationError>> {
    codec.parse_metafield_definitions(json.as_str())
}

/// One call of the gateway's `list_existing_metafield_definitions` (see
/// `read_metafield_definitions_text`).
pub fn fetch_existing_metafield_definitions<G: MetafieldImportGateway, L: Logger>(gateway: &G, owner_type: OwnerType, logger: &L) -> Result<Vec<ShopifyMetafieldDefinition>, AppError> {
    gateway.list_existing_metafield_definitions(owner_type, logger)
}

/// One call of the gateway's `metaobject_type_to_id_map` (see
/// `read_metafield_definitions_text`).
pub fn fetch_metafield_type_to_id_map<G: MetafieldImportGateway, L: Logger>(gateway: &G, logger: &L) -> Result<StringMap, AppError> {
    gateway.metaobject_type_to_id_map(logger)
}

/// `rep` reports the import, by the decision rules, of what one parse of `json` through
/// `codec` gave, against what one listing of the existing definitions of `owner_type` and one
/// call of the `type -> id` map gave.
pub open spec fn imported_from_text<C: JsonCodec, G: MetafieldImportGateway, L: Logger>(
    rep: MetafieldImportReport,
    codec: &C,
    gateway: &G,
    logger: &L,
    owner_type: OwnerType,
    options: ImportMetafieldsOptions,
    json: String,
) -> bool {
    exists|parsed: Vec<MetafieldDefinitionConfig>|
        #[trigger] call_ensures(parse_metafield_definitions_text::<C>, (codec, &json), Ok::<Vec<MetafieldDefinitionConfig>, Vec<ValidationError>>(parsed))
        && exists|existing: Vec<ShopifyMetafieldDefinition>|
            #[trigger] call_ensures(fetch_existing_metafield_definitions::<G, L>, (gateway, owner_type, logger), Ok::<Vec<ShopifyMetafieldDefinition>, AppError>(existing))
            && exists|m: StringMap|
                #[trigger] call_ensures(fetch_metafield_type_to_id_map::<G, L>, (gateway, logger), Ok::<StringMap, AppError>(m))
                && report_follows_rules(rep, parsed@.map_values(|c: MetafieldDefinitionConfig| c@),
                    shopify_metafields_view(existing@), options, owner_type.name(), m@)
}

impl<G: MetafieldImportGateway, C: Clock> ImportMetafieldsFromFileUseCase<G, C> {
    /// The gateway the use case works through.
    pub closed spec fn gateway_of(self) -> G {
        self.gateway
    }

    /// The clock the use case waits and stamps reports with.
    pub closed spec fn clock_of(self) -> C {
        self.clock
    }

    pub fn new(gateway: G, clock: C) -> (r: Self)
        ensures
            r.gateway_of() == gateway,
            r.clock_of() == clock,
    {
        ImportMetafieldsFromFileUseCase { gateway, clock }
    }

    /// Imports `definitions/metafields/<owner>.json`: every configured definition is created,
    /// updated, recreated, left or reported as failed (see `decide_metafield_import`), in
    /// batches of ten a second apart; a failed creation is reported, other gateway errors end
    /// the import. The report is written to
    /// `reports/metafield-definitions:import/metafield-import-report-<millis>.json`.
    pub fn execute<Rp: FileRepo, Jc: JsonCodec, L: Logger>(&self, owner_type: OwnerType, repo: &mut Rp, codec: &Jc, options: ImportMetafieldsOptions, logger: &L) -> (r: Result<MetafieldImportReport, AppError>)
        ensures
            r matches Ok(rep) ==> exists|json: String|
                #[trigger] call_ensures(read_metafield_definitions_text::<Rp>, (&*old(repo), owner_type), Ok::<String, AppError>(json))
                && imported_from_text(rep, codec, &self.gateway_of(), logger, owner_type, options, json),
            r matches Ok(rep) ==> {
                &&& rep.owner_type@ == owner_type.name()
                &&& rep.items@.len() > 0
                &&& report_consistent(rep)
            },
            r matches Ok(rep) ==> (!options.allow_type_changes ==> forall|k: int| 0 <= k < rep.items@.len()
                ==> (#[trigger] rep.items@[k]).action != MetafieldImportAction::Recreate),
            r matches Ok(rep) ==> imported_by_rules(rep, options, owner_type.name()),
            r matches Ok(rep) ==> forall|k: int| 0 <= k < rep.items@.len()
                ==> (#[trigger] rep.items@[k]).action != MetafieldImportAction::Skipped,
            r matches Ok(rep) ==> (!options.allow_type_changes ==> rep.summary.recreated == 0),
    {
        let input_path = metafield_definitions_file(owner_type);
        let read = read_metafield_definitions_text::<Rp>;
        let read_result = read(&*repo, owner_type);
        let ghost read_ok = read_result;
        let json = match read_result {
            Ok(v) => v,
            Err(e) => {
                log_missing_file_hint(&e, owner_type, input_path.as_str(), logger);
                return Err(e);
            },
        };
        let parse = parse_metafield_definitions_text::<Jc>;
        let parse_result = parse(codec, &json);
        let ghost parse_ok = parse_result;
        let parsed = match parse_result {
            Ok(v) => v,
            Err(errs) => {
                return Err(AppError::Json(format_validation_errors(errs.as_slice())));
            },
        };
        check_non_empty(&parsed, owner_type)?;
        let list = fetch_existing_metafield_definitions::<G, L>;
        let list_result = list(&self.gateway, owner_type, logger);
        let ghost list_ok = list_result;
        let existing = list_result?;
        let fetch = fetch_metafield_type_to_id_map::<G, L>;
        let fetch_result = fetch(&self.gateway, logger);
        let ghost fetch_ok = fetch_result;
        let metaobject_type_to_id = fetch_result?;
        let report = self.import_definitions(&parsed, &existing, &metaobject_type_to_id, options, owner_type, logger)?;
        proof {
            assert(read_ok == Ok::<String, AppError>(json));
            assert(parse_ok == Ok::<Vec<MetafieldDefinitionConfig>, Vec<ValidationError>>(parsed));
            assert(list_ok == Ok::<Vec<ShopifyMetafieldDefinition>, AppError>(existing));
            assert(fetch_ok == Ok::<StringMap, AppError>(metaobject_type_to_id));
            assert(imported_from_text(report, codec, &self.gateway_of(), logger, owner_type, options, json));
            assert(report_follows_rules(report, parsed@.map_values(|c: MetafieldDefinitionConfig| c@),
                shopify_metafields_view(existing@), options, owner_type.name(), metaobject_type_to_id@));
            lemma_import_never_skips_and_recreates_only_when_allowed(report,
                parsed@.map_values(|c: MetafieldDefinitionConfig| c@), shopify_metafields_view(existing@),
                options, owner_type.name(), metaobject_type_to_id@);
        }
        let ts = self.clock.now_timestamp_millis();
        let report_path = metafield_report_file(ts);
        let out = match codec.metafield_report_text(&report) {
            Ok(t) => t,
            Err(m) => {
                return Err(AppError::Json(m));
            },
        };
        repo.write_text(report_path.as_str(), out.as_str())?;
        Ok(report)
    }

    /// Imports the parsed definitions `parsed` of `owner_type`, given the existing definitions
    /// `existing` and Shopify's `type -> id` map: an empty list is an error; otherwise every
    /// definition is created, updated, recreated, left or reported as failed by the rules of
    /// `decide_metafield_import`, in order, in batches of ten a second apart. A creation that the
    /// gateway refuses is reported as failed with the error's text and the import goes on; any
    /// other gateway error, or an existing definition without an id, ends the import with that
    /// error.
    pub fn import_definitions(
        &self,
        parsed: &Vec<MetafieldDefinitionConfig>,
        existing: &Vec<ShopifyMetafieldDefinition>,
        metaobject_type_to_id: &StringMap,
        options: ImportMetafieldsOptions,
        owner_type: OwnerType,
        logger: &dyn Logger,
    ) -> (r: Result<MetafieldImportReport, AppError>)
        ensures
            parsed@.len() == 0 ==> (r matches Err(e) && is_empty_file_error(e, owner_type)),
            r matches Ok(rep) ==> {
                &&& rep.owner_type@ == owner_type.name()
                &&& report_consistent(rep)
                &&& report_follows_rules(rep, parsed@.map_values(|c: MetafieldDefinitionConfig| c@),
                    shopify_metafields_view(existing@), options, owner_type.name(), metaobject_type_to_id@)
                &&& (!options.allow_type_changes ==> forall|k: int| 0 <= k < rep.items@.len()
                    ==> (#[trigger] rep.items@[k]).action != MetafieldImportAction::Recreate)
            },
    {
        check_non_empty(parsed, owner_type)?;
        let mut report = MetafieldImportReport {
            owner_type: owner_type.as_str().to_string(),
            summary: MetafieldImportSummary { created: 0, updated: 0, recreated: 0, no_change: 0, failed: 0, total: 0 },
            items: Vec::new(),
        };
        let batch_size: usize = 10;
        let total = parsed.len();
        let total_batches = total / 10 + if total % 10 != 0 { 1 } else { 0 };
        let mut processed: usize = 0;
        let ghost cfgs = parsed@.map_values(|c: MetafieldDefinitionConfig| c@);
        let ghost exs = shopify_metafields_view(existing@);
        let ghost m = metaobject_type_to_id@;
        let mut i: usize = 0;
        while i < total
            invariant
                i <= total,
                total == parsed.len(),
                batch_size == 10,
                processed == i,
                report.items@.len() == i,
                report.owner_type@ == owner_type.name(),
                report_consistent(report),
                !options.allow_type_changes ==> forall|k: int| 0 <= k < report.items@.len()
                    ==> (#[trigger] report.items@[k]).action != MetafieldImportAction::Recreate,
                cfgs == parsed@.map_values(|c: MetafieldDefinitionConfig| c@),
                exs == shopify_metafields_view(existing@),
                m == metaobject_type_to_id@,
                forall|k: int| 0 <= k < i ==> #[trigger] item_follows_rules(report.items@[k], cfgs[k], exs, options, owner_type.name(), m),
            decreases total - i,
        {
            let batch_number = i / batch_size + 1;
            if i % batch_size == 0 {
                let in_batch = if total - i < batch_size { total - i } else { batch_size };
                logger.log(LogLevel::Info, "Processing batch", &[
                    LogField::new("batch", usize_to_decimal(batch_number)),
                    LogField::new("batches_total", usize_to_decimal(total_batches)),
                    LogField::new("items_in_batch", usize_to_decimal(in_batch)),
                    LogField::new("processed_so_far", usize_to_decimal(processed)),
                    LogField::new("total", usize_to_decimal(total)),
                ]);
            }
            let cfg = &parsed[i];
            processed = processed + 1;
            let key = metafield_key_text(cfg.namespace.as_str(), cfg.key.as_str());
            let found = find_existing(&existing, key.as_str());
            proof {
                assert forall|j: int| 0 <= j < exs.len() implies #[trigger] exs[j] == existing@[j]@ by {}
                match found {
                    Some(k) => {
                        assert forall|j: int| k < j < exs.len() implies metafield_key(#[trigger] exs[j].namespace, exs[j].key) != key@ by {
                            assert(exs[j] == existing@[j]@);
                        }
                        assert(exs[k as int] == existing@[k as int]@);
                        lemma_last_with_key(exs, key@, k as int);
                    },
                    None => {
                        assert forall|j: int| -1 < j < exs.len() implies metafield_key(#[trigger] exs[j].namespace, exs[j].key) != key@ by {
                            assert(exs[j] == existing@[j]@);
                        }
                        lemma_last_with_key(exs, key@, -1);
                    },
                }
            }
            let ex = match found {
                Some(k) => Some(&existing[k]),
                None => None,
            };
            assert(last_with_key(exs, metafield_key(cfgs[i as int].namespace, cfgs[i as int].key)) == match ex {
                Some(e) => Some(e@),
                None => None::<ShopifyMetafieldView>,
            });
            let ghost before = report.items@;
            let ghost planned = planned_action(cfg@, last_with_key(exs, key@), options, owner_type.name(), m);
            let step = decide_metafield_import(cfg, ex, options, owner_type, &metaobject_type_to_id)?;
            match step {
                MetafieldImportStep::Blocked { message, reason } => {
                    push_item(&mut report, cfg, MetafieldImportAction::Failed, Some(message));
                    logger.log(LogLevel::Info, "Failed", &[
                        LogField::new("definition", key.clone()),
                        LogField::new("reason", reason.to_string()),
                    ]);
                },
                MetafieldImportStep::Recreate { id, input } => {
                    self.gateway.metafield_definition_delete(id.as_str(), logger)?;
                    self.clock.sleep_millis(1000);
                    self.gateway.metafield_definition_create(&input, logger)?;
                    push_item(&mut report, cfg, MetafieldImportAction::Recreate, None);
                    logger.log(LogLevel::Info, "Recreated", &[LogField::new("definition", key.clone())]);
                },
                MetafieldImportStep::Update { id, input } => {
                    self.gateway.metafield_definition_update(id.as_str(), &input, logger)?;
                    push_item(&mut report, cfg, MetafieldImportAction::Update, None);
                    logger.log(LogLevel::Info, "Updated", &[LogField::new("definition", key.clone())]);
                },
                MetafieldImportStep::NoChange => {
                    push_item(&mut report, cfg, MetafieldImportAction::NoChange, None);
                    logger.log(LogLevel::Info, "No change", &[LogField::new("definition", key.clone())]);
                },
                MetafieldImportStep::Create(input) => {
                    match self.gateway.metafield_definition_create(&input, logger) {
                        Ok(()) => {
                            push_item(&mut report, cfg, MetafieldImportAction::Create, None);
                            logger.log(LogLevel::Info, "Created", &[LogField::new("definition", key.clone())]);
                        },
                        Err(e) => {
                            push_item(&mut report, cfg, MetafieldImportAction::Failed, Some(e.to_string()));
                            logger.log(LogLevel::Info, "Failed", &[
                                LogField::new("definition", key.clone()),
                                LogField::new("error", e.to_string()),
                            ]);
                        },
                    }
                },
            }
            proof {
                assert(report.items@ == before.push(report.items@[i as int]));
                assert(cfgs[i as int] == cfg@);
                assert(item_follows_rules(report.items@[i as int], cfgs[i as int], exs, options, owner_type.name(), m));
                assert forall|k: int| 0 <= k < i + 1 implies #[trigger] item_follows_rules(report.items@[k], cfgs[k], exs, options, owner_type.name(), m) by {
                    if k < i {
                        assert(report.items@[k] == before[k]);
                    }
                }
            }
            let end_of_batch = (i + 1) % batch_size == 0 || i + 1 == total;
            if end_of_batch && batch_number < total_batches {
                logger.log(LogLevel::Info, "Waiting before next batch", &[
                    LogField::new("millis", "1000".to_string()),
                    LogField::new("next_batch", usize_to_decimal(batch_number + 1)),
                ]);
                self.clock.sleep_millis(1000);
            }
            i = i + 1;
        }
        Ok(report)
    }
}


/// Export then import gives back every rule that is not a type rule: a
/// `metaobject_definition_id` rule turned into a type on export is turned back into the same
/// id on import when the target store maps that type back to the id; other rules pass
/// through both unchanged.
pub proof fn lemma_validation_round_trip(r: RuleView, id_to_type: Map<Seq<char>, Seq<char>>, type_to_id: Map<Seq<char>, Seq<char>>)
    requires
        r.name != "metaobject_definition_type"@,
        r.name == "metaobject_definition_id"@ && r.value is Some && id_to_type.contains_key(r.value->0)
            ==> type_to_id.contains_key(id_to_type[r.value->0]) && type_to_id[id_to_type[r.value->0]] == r.value->0,
    ensures
        input_rule(crate::metaobjects::export::exported_rule(r, id_to_type), type_to_id) == r,
{
}

/// The configured flag that a listed capability flag reads back as.
pub open spec fn flag_read_back(c: Option<CapabilityFlagConfig>, e: Option<CapabilityFlag>) -> bool {
    match (c, e) {
        (None, None) => true,
        (Some(a), Some(b)) => a.enabled == b.enabled,
        _ => false,
    }
}

/// `cfg` is what the exported definition `e` reads back as from a definitions file (access,
/// which the import does not compare, aside).
pub open spec fn reads_back(cfg: MetafieldConfigView, e: ExportedMetafieldView) -> bool {
    &&& cfg.namespace == e.namespace
    &&& cfg.key == e.key
    &&& cfg.name == e.name
    &&& cfg.description == e.description
    &&& cfg.typ == e.typ
    &&& cfg.validations == e.validations
    &&& cfg.pin == e.pin
    &&& match (cfg.capabilities, e.capabilities) {
        (None, None) => true,
        (Some(c), Some(x)) => flag_read_back(c.admin_filterable, x.admin_filterable)
            && flag_read_back(c.smart_collection_condition, x.smart_collection_condition)
            && flag_read_back(c.unique_values, x.unique_values),
        _ => false,
    }
}

/// Importing a definition just exported from the same store changes nothing: the decision is
/// to leave it. (A rule naming a metaobject type that the store maps to an id is sent as that
/// id while Shopify lists it by type, so such definitions are left out.)
pub proof fn lemma_reimport_changes_nothing(
    d: ShopifyMetafieldView,
    cfg: MetafieldConfigView,
    options: ImportMetafieldsOptions,
    owner: Seq<char>,
    m: Map<Seq<char>, Seq<char>>,
)
    requires
        reads_back(cfg, exported_metafield(d)),
        forall|k: int| 0 <= k < d.validations.len() ==> !(#[trigger] d.validations[k].name == "metaobject_definition_type"@
            && d.validations[k].value is Some && m.contains_key(d.validations[k].value->0)),
    ensures
        planned_action(cfg, Some(d), options, owner, m) == MetafieldImportAction::NoChange,
{
    let vals = definition_input(cfg, owner, m).validations;
    if d.validations.len() > 0 {
        assert(d.validations.map_values(|r: RuleView| input_rule(r, m)) =~= d.validations);
    }
    assert(same_validations(vals, d.validations));
}


/// Neither the type nor access counts as a change of a metafield definition.
pub proof fn lemma_update_ignores_access(
    cfg: MetafieldConfigView,
    vals: Option<Seq<RuleView>>,
    ex: ShopifyMetafieldView,
    cfg_access: Option<MetafieldAccessConfig>,
    ex_access: Option<MetafieldAccessView>,
    cfg_typ: Seq<char>,
    ex_typ: Seq<char>,
)
    ensures
        needs_update(cfg, vals, ex) == needs_update(
            MetafieldConfigView { access: cfg_access, typ: cfg_typ, ..cfg },
            vals,
            ShopifyMetafieldView { access: ex_access, typ: ex_typ, ..ex },
        ),
{
}

/// The validations to send agree with Shopify's exactly when the list sent (none counting as
/// empty) equals Shopify's list.
pub proof fn lemma_same_validations_as_lists(a: Option<Seq<RuleView>>, b: Seq<RuleView>)
    ensures
        same_validations(a, b) == ((match a {
            Some(v) => v,
            None => Seq::<RuleView>::empty(),
        }) == b),
{
    if let Some(v) = a {
        if v.len() == 0 && b.len() == 0 {
            assert(v =~= b);
        }
    } else {
        if b.len() == 0 {
            assert(b =~= Seq::<RuleView>::empty());
        }
    }
}


/// A list in which no item has action `a` counts none of them.
proof fn lemma_count_absent(items: Seq<MetafieldImportItemReport>, a: MetafieldImportAction)
    requires
        forall|k: int| 0 <= k < items.len() ==> (#[trigger] items[k]).action != a,
    ensures
        count_action(items, a) == 0,
    decreases items.len(),
{
    if items.len() > 0 {
        assert(items[items.len() - 1].action != a);
        lemma_count_absent(items.drop_last(), a);
    }
}

/// An import by the rules never reports a definition as skipped, and without permission to
/// change types (the default options) it recreates none: a type change is reported as failed.
pub proof fn lemma_import_never_skips_and_recreates_only_when_allowed(
    rep: MetafieldImportReport,
    cfgs: Seq<MetafieldConfigView>,
    exs: Seq<ShopifyMetafieldView>,
    options: ImportMetafieldsOptions,
    owner: Seq<char>,
    m: Map<Seq<char>, Seq<char>>,
)
    requires
        report_consistent(rep),
        report_follows_rules(rep, cfgs, exs, options, owner, m),
    ensures
        forall|k: int| 0 <= k < rep.items@.len() ==> (#[trigger] rep.items@[k]).action != MetafieldImportAction::Skipped,
        !options.allow_type_changes ==> rep.summary.recreated == 0,
        !options.allow_type_changes ==> forall|k: int| 0 <= k < rep.items@.len()
            ==> (#[trigger] rep.items@[k]).action != MetafieldImportAction::Recreate,
{
    assert forall|k: int| 0 <= k < rep.items@.len() implies (#[trigger] rep.items@[k]).action != MetafieldImportAction::Skipped
        && (!options.allow_type_changes ==> rep.items@[k].action != MetafieldImportAction::Recreate) by {
        assert(item_follows_rules(rep.items@[k], cfgs[k], exs, options, owner, m));
    }
    if !options.allow_type_changes {
        lemma_count_absent(rep.items@, MetafieldImportAction::Recreate);
    }
}

/// For an existing definition of the same type, a different name, a different description (as
/// sent to Shopify) or a different pinning makes the import update it.
pub proof fn lemma_differences_mean_update(
    cfg: MetafieldConfigView,
    ex: ShopifyMetafieldView,
    options: ImportMetafieldsOptions,
    owner: Seq<char>,
    m: Map<Seq<char>, Seq<char>>,
)
    requires
        ex.typ == cfg.typ,
        ex.name != cfg.name
            || import_description(cfg.description) != import_description(ex.description)
            || (ex.pinned_position is Some) != cfg.pin,
    ensures
        planned_action(cfg, Some(ex), options, owner, m) == MetafieldImportAction::Update,
{
}

/// A configured definition that Shopify lacks is created; one whose type Shopify has otherwise
/// is never recreated without permission to change types (it is reported as failed, with the
/// message that type changes are blocked), nor, for a type whose change deletes associated
/// metafields, without permission to delete them; with both permissions it is recreated.
pub proof fn lemma_missing_created_and_type_changes_guarded(
    cfg: MetafieldConfigView,
    ex: ShopifyMetafieldView,
    options: ImportMetafieldsOptions,
    owner: Seq<char>,
    m: Map<Seq<char>, Seq<char>>,
)
    ensures
        planned_action(cfg, None, options, owner, m) == MetafieldImportAction::Create,
        ex.typ != cfg.typ && !options.allow_type_changes ==> planned_action(cfg, Some(ex), options, owner, m) == MetafieldImportAction::Failed
            && planned_message(cfg, Some(ex), options) == Some(msg_type_change_blocked()),
        ex.typ != cfg.typ && (cfg.typ == "reference"@ || cfg.typ == "metaobject"@) && !options.allow_associated_metafields_deletion
            ==> planned_action(cfg, Some(ex), options, owner, m) == MetafieldImportAction::Failed,
        ex.typ != cfg.typ && options.allow_type_changes && options.allow_associated_metafields_deletion
            ==> planned_action(cfg, Some(ex), options, owner, m) == MetafieldImportAction::Recreate,
        ex.typ == cfg.typ ==> planned_action(cfg, Some(ex), options, owner, m) != MetafieldImportAction::Recreate
            && planned_action(cfg, Some(ex), options, owner, m) != MetafieldImportAction::Failed,
{
}

/// The description sent to Shopify: none for a missing or blank description; otherwise the
/// trimmed text, cut to its first 255 characters only when its UTF-8 form is longer than 255
/// bytes, so a short description is sent exactly as trimmed.
pub proof fn lemma_import_description(s: Seq<char>)
    ensures
        import_description(None) is None,
        import_description(Some(s)) is None <==> trim(s).len() == 0,
        import_description(Some(s)) is Some ==> trim(s).take(import_description(Some(s))->0.len() as int) == import_description(Some(s))->0,
        trim(s).len() > 0 && vstd::utf8::encode_utf8(trim(s)).len() <= 255 ==> import_description(Some(s)) == Some(trim(s)),
{
    let t = trim(s);
    if t.len() > 0 {
        assert(t.take(t.len() as int) =~= t);
    }
}
} // verus!

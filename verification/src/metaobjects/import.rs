//! Metaobject import: planning (dependency levels) and execution (create or update, level by
//! level, in batches).

use vstd::prelude::*;
use crate::error::AppError;
use crate::logging::{LogField, LogLevel, Logger};
use crate::maps::{StringMap, views, has_value};
use crate::model::{RuleView, opt_view, lemma_map_values_push, lemma_take_push};
use crate::text::{trim, trim_str, str_eq, concat, join_strings, join};
use super::types::{MetaobjectCapabilitiesConfig, MetaobjectDefinitionConfig, MetaobjectValidationRule,
    opt_rules_view, rules_view, copy_rules, AccessView};
use crate::ports::{Clock, FileRepo, JsonCodec, MetaobjectImportGateway};
use crate::maps::{DepsMap, StringSet, map_of, lookup, keys_of};
use crate::sorting::{sort_seq, sort_strings};
use crate::text::{decimal, u128_to_decimal, usize_to_decimal, contains_str};
use crate::validation::{format_validation_errors, ValidationError};
use super::deps::{build_internal_deps_map, compute_levels, collect_external_dependency_types,
    render_dependency_forest_text, keep_in, keep_out, forest_text, key_list, def_types, acyclic,
    internal_dep_entries, keep_in_set, keep_out_set, definition_types, valid_heights, levels_of, external_deps, children,
    metaobject_deps, lemma_levels_respect_dependencies, on_cycle, cycle_message, dependency_search};
use crate::sorting::dedup_adjacent;
use super::deps::{normalize_validations, normalize_description, normalize_display_name_key, normalized_text};
use super::export::{ShopifyMetaobjectDefinition, ShopifyMetaobjectFieldDefinition, ShopifyDefinitionView,
    ShopifyFieldView, ExportedFieldView, ExportedDefinitionView, shopify_definitions_view,
    metaobject_definitions_file, metaobject_definitions_path};
use super::types::{MetaobjectFieldDefinitionConfig, FieldConfigView, DefinitionConfigView, field_configs_view,
    definition_configs_view};
use crate::model::copy_opt_string;

verus! {

/// What an import would do: the dependency tree as text and the definitions by level.
#[derive(Debug, Clone)]
pub struct MetaobjectImportPlan {
    pub tree_markdown: String,
    pub levels: Vec<Vec<MetaobjectDefinitionConfig>>,
    pub total: usize,
    pub missing_external_types: Vec<String>,
}

#[derive(Debug, Clone, PartialEq, Eq)]
pub struct MetaobjectFieldDefinitionCreateInput {
    pub key: String,
    pub name: String,
    pub description: Option<String>,
    pub typ: String,
    pub required: bool,
    pub validations: Option<Vec<MetaobjectValidationRule>>,
}

#[derive(Debug, Clone, PartialEq, Eq)]
pub struct MetaobjectFieldDefinitionUpdateInput {
    pub key: String,
    pub name: String,
    pub description: Option<String>,
    pub required: bool,
    pub validations: Option<Vec<MetaobjectValidationRule>>,
}

#[derive(Debug, Clone, PartialEq, Eq)]
pub struct MetaobjectDefinitionCreateInput {
    pub typ: String,
    pub name: String,
    pub description: Option<String>,
    pub display_name_key: Option<String>,
    pub capabilities: Option<MetaobjectCapabilitiesConfig>,
    pub field_definitions: Vec<MetaobjectFieldDefinitionCreateInput>,
}

#[derive(Debug, Clone, PartialEq, Eq)]
pub struct MetaobjectDefinitionUpdateInput {
    pub name: String,
    pub description: Option<String>,
    pub display_name_key: Option<String>,
    pub capabilities: Option<MetaobjectCapabilitiesConfig>,
    pub field_definitions: Vec<MetaobjectFieldDefinitionOperation>,
}

/// A field of an update: created when the definition lacks it, updated otherwise.
#[derive(Debug, Clone, PartialEq, Eq)]
pub enum MetaobjectFieldDefinitionOperation {
    Create { create: MetaobjectFieldDefinitionCreateInput },
    Update { update: MetaobjectFieldDefinitionUpdateInput },
}

#[derive(Debug, Clone, Copy, PartialEq, Eq)]
pub enum MetaobjectImportAction {
    Create,
    Update,
    NoChange,
    Failed,
}

#[derive(Debug, Clone, PartialEq, Eq)]
pub struct MetaobjectImportItemReport {
    pub typ: String,
    pub action: MetaobjectImportAction,
    pub message: Option<String>,
}

#[derive(Debug, Clone, Copy, PartialEq, Eq)]
pub struct MetaobjectImportSummary {
    pub created: usize,
    pub updated: usize,
    pub no_change: usize,
    pub failed: usize,
    pub total: usize,
}

impl Default for MetaobjectImportSummary {
    fn default() -> (r: Self)
        ensures
            r == (MetaobjectImportSummary { created: 0, updated: 0, no_change: 0, failed: 0, total: 0 }),
    {
        MetaobjectImportSummary { created: 0, updated: 0, no_change: 0, failed: 0, total: 0 }
    }
}

#[derive(Debug, Clone, PartialEq, Eq)]
pub struct MetaobjectImportReport {
    pub summary: MetaobjectImportSummary,
    pub items: Vec<MetaobjectImportItemReport>,
}


// -------------------------------------------------------------------------------------------------
// JSON string arrays inside validation values
// -------------------------------------------------------------------------------------------------

/// The strings of a JSON array of strings, or none when `text` is not one
/// (`serde_json::from_str::<Vec<String>>`).
pub uninterp spec fn json_string_array(text: Seq<char>) -> Option<Seq<Seq<char>>>;

/// A lower-case hexadecimal digit.
pub open spec fn hex_digit(n: int) -> char {
    if n < 10 {
        (('0' as int) + n) as char
    } else {
        (('a' as int) + n - 10) as char
    }
}

/// One character inside a JSON string as `serde_json` writes it: `"` and `\` escaped by a
/// backslash, backspace, tab, line feed, form feed and carriage return as `\b \t \n \f \r`,
/// other characters below U+0020 as `\u00xx` (lower-case hex), all others as they are.
pub open spec fn json_escaped_char(c: char) -> Seq<char> {
    if c == '"' {
        seq!['\\', '"']
    } else if c == '\\' {
        seq!['\\', '\\']
    } else if c == '\u{8}' {
        seq!['\\', 'b']
    } else if c == '\t' {
        seq!['\\', 't']
    } else if c == '\n' {
        seq!['\\', 'n']
    } else if c == '\u{c}' {
        seq!['\\', 'f']
    } else if c == '\r' {
        seq!['\\', 'r']
    } else if (c as int) < 0x20 {
        seq!['\\', 'u', '0', '0', hex_digit((c as int) / 16), hex_digit((c as int) % 16)]
    } else {
        seq![c]
    }
}

/// The characters of `s` as written inside a JSON string.
pub open spec fn json_escaped(s: Seq<char>) -> Seq<char>
    decreases s.len(),
{
    if s.len() == 0 {
        Seq::empty()
    } else {
        json_escaped(s.drop_last()) + json_escaped_char(s.last())
    }
}

/// The JSON text of an array of strings as `serde_json::to_string` writes a `[String]`:
/// `[`, each string quoted and escaped, separated by `,` without spaces, then `]`.
pub open spec fn json_string_array_text(items: Seq<Seq<char>>) -> Seq<char> {
    "["@ + join(items.map_values(|x: Seq<char>| "\""@ + json_escaped(x) + "\""@), ","@) + "]"@
}

pub open spec fn opt_views(o: Option<Vec<String>>) -> Option<Seq<Seq<char>>> {
    match o {
        Some(v) => Some(views(v@)),
        None => None,
    }
}

/// Reads `input` as a JSON array of strings with `serde_json::from_str`; the contract says
/// that the result is `json_string_array` of the text, which is left unspecified here.
#[verifier::external_body]
pub(crate) fn parse_json_string_array(input: &str) -> (r: Option<Vec<String>>)
    ensures
        opt_views(r) == json_string_array(input@),
{
    serde_json::from_str::<Vec<String>>(input).ok()
}

/// Writes `items` as a JSON array with `serde_json::to_string`, which cannot fail for a list of
/// strings; the contract states the text (see `json_string_array_text`).
#[verifier::external_body]
pub(crate) fn to_json_string_array(items: &[String]) -> (r: String)
    ensures
        r@ == json_string_array_text(views(items@)),
{
    serde_json::to_string(items).unwrap_or_default()
}

// -------------------------------------------------------------------------------------------------
// Resolving validations for Shopify
// -------------------------------------------------------------------------------------------------

pub open spec fn type_rule_name() -> Seq<char> { "metaobject_definition_type"@ }
pub open spec fn types_rule_name() -> Seq<char> { "metaobject_definition_types"@ }
pub open spec fn id_rule_name() -> Seq<char> { "metaobject_definition_id"@ }
pub open spec fn ids_rule_name() -> Seq<char> { "metaobject_definition_ids"@ }

pub open spec fn msg_type_not_found(t: Seq<char>) -> Seq<char> {
    "cannot resolve metaobject_definition_type `"@ + t + "` in Shopify (type not found)"@
}

pub open spec fn msg_invalid_types(raw: Seq<char>) -> Seq<char> {
    "invalid metaobject_definition_types value (expected JSON array string): `"@ + raw + "`"@
}

pub open spec fn msg_types_item_not_found(t: Seq<char>) -> Seq<char> {
    "cannot resolve metaobject_definition_types item `"@ + t + "` in Shopify (type not found)"@
}

pub open spec fn msg_foreign_id(id: Seq<char>) -> Seq<char> {
    "metaobject_definition_id `"@ + id
        + "` does not belong to the target Shopify store (export should use metaobject_definition_type instead)"@
}

pub open spec fn msg_foreign_ids(id: Seq<char>) -> Seq<char> {
    "metaobject_definition_ids contains `"@ + id
        + "` which does not belong to the target Shopify store (export should use metaobject_definition_types instead)"@
}

pub open spec fn msg_invalid_ids(raw: Seq<char>) -> Seq<char> {
    "invalid metaobject_definition_ids value (expected JSON array string): `"@ + raw + "`"@
}

/// The ids of the (trimmed) types, in order, or the message for the first type `m` lacks.
pub open spec fn resolved_types(ts: Seq<Seq<char>>, m: Map<Seq<char>, Seq<char>>) -> Result<Seq<Seq<char>>, Seq<char>>
    decreases ts.len(),
{
    if ts.len() == 0 {
        Ok(Seq::empty())
    } else {
        match resolved_types(ts.drop_last(), m) {
            Err(e) => Err(e),
            Ok(ids) => {
                let t = trim(ts.last());
                if m.contains_key(t) {
                    Ok(ids.push(m[t]))
                } else {
                    Err(msg_types_item_not_found(t))
                }
            },
        }
    }
}

/// The first id that is no value of `m`, if any.
pub open spec fn first_foreign_id(ids: Seq<Seq<char>>, m: Map<Seq<char>, Seq<char>>) -> Option<Seq<char>>
    decreases ids.len(),
{
    if ids.len() == 0 {
        None
    } else {
        match first_foreign_id(ids.drop_last(), m) {
            Some(id) => Some(id),
            None => if has_value(m, ids.last()) { None } else { Some(ids.last()) },
        }
    }
}

/// A `metaobject_definition_types` value, once read as a JSON array (or not): the types
/// resolved to ids, or an error message.
pub open spec fn resolved_type_list(parsed: Option<Seq<Seq<char>>>, raw: Seq<char>, m: Map<Seq<char>, Seq<char>>) -> Result<Seq<Seq<char>>, Seq<char>> {
    match parsed {
        None => Err(msg_invalid_types(raw)),
        Some(ts) => resolved_types(ts, m),
    }
}

/// A `metaobject_definition_ids` value, once read as a JSON array (or not): the message for
/// the first problem, if any.
pub open spec fn id_list_problem(parsed: Option<Seq<Seq<char>>>, raw: Seq<char>, m: Map<Seq<char>, Seq<char>>) -> Option<Seq<char>> {
    match parsed {
        None => Some(msg_invalid_ids(raw)),
        Some(ids) => match first_foreign_id(ids, m) {
            Some(id) => Some(msg_foreign_ids(id)),
            None => None,
        },
    }
}

/// One rule as sent to Shopify, `m` mapping types to ids:
/// - `metaobject_definition_type` becomes `metaobject_definition_id` (an unknown type fails);
/// - `metaobject_definition_types` (a JSON array) becomes `metaobject_definition_ids`;
/// - `metaobject_definition_id(s)` must name ids of the target store;
/// - other rules are kept.
pub open spec fn resolved_rule(r: RuleView, m: Map<Seq<char>, Seq<char>>) -> Result<RuleView, Seq<char>> {
    if r.name == type_rule_name() && r.value is Some {
        if m.contains_key(r.value->0) {
            Ok(RuleView { name: id_rule_name(), value: Some(m[r.value->0]) })
        } else {
            Err(msg_type_not_found(r.value->0))
        }
    } else if r.name == types_rule_name() {
        let raw = match r.value {
            Some(v) => v,
            None => Seq::empty(),
        };
        match resolved_type_list(json_string_array(raw), raw, m) {
            Err(e) => Err(e),
            Ok(ids) => Ok(RuleView { name: ids_rule_name(), value: Some(json_string_array_text(ids)) }),
        }
    } else if r.name == id_rule_name() && r.value is Some && !has_value(m, r.value->0) {
        Err(msg_foreign_id(r.value->0))
    } else if r.name == ids_rule_name() && r.value is Some && id_list_problem(json_string_array(r.value->0), r.value->0, m) is Some {
        Err(id_list_problem(json_string_array(r.value->0), r.value->0, m)->0)
    } else {
        Ok(r)
    }
}

/// Every rule resolved, in order, or the message of the first rule that fails.
pub open spec fn resolved_rules(rs: Seq<RuleView>, m: Map<Seq<char>, Seq<char>>) -> Result<Seq<RuleView>, Seq<char>>
    decreases rs.len(),
{
    if rs.len() == 0 {
        Ok(Seq::empty())
    } else {
        match resolved_rules(rs.drop_last(), m) {
            Err(e) => Err(e),
            Ok(out) => match resolved_rule(rs.last(), m) {
                Err(e) => Err(e),
                Ok(x) => Ok(out.push(x)),
            },
        }
    }
}

/// A field's validations as sent to Shopify: none when there are none.
pub open spec fn resolved_validations(v: Option<Seq<RuleView>>, m: Map<Seq<char>, Seq<char>>) -> Result<Option<Seq<RuleView>>, Seq<char>> {
    let rs = match v {
        Some(l) => l,
        None => Seq::empty(),
    };
    if rs.len() == 0 {
        Ok(None)
    } else {
        match resolved_rules(rs, m) {
            Err(e) => Err(e),
            Ok(out) => if out.len() == 0 { Ok(None) } else { Ok(Some(out)) },
        }
    }
}

/// `a`, `b` and `c` in a row.
pub fn concat3(a: &str, b: &str, c: &str) -> (r: String)
    ensures
        r@ == a@ + b@ + c@,
{
    let mut out = a.to_string();
    out.append(b);
    out.append(c);
    out
}

/// The error whose message is `m`.
pub open spec fn json_error(e: AppError, m: Seq<char>) -> bool {
    e matches AppError::Json(s) && s@ == m
}

/// Resolves a `metaobject_definition_types` list, read from `raw` as `parsed`: the ids of the
/// trimmed types in order, or an error for an unreadable list or the first unknown type.
pub fn resolve_type_list(parsed: Option<Vec<String>>, raw: &str, type_to_id: &StringMap) -> (r: Result<Vec<String>, AppError>)
    ensures
        match resolved_type_list(opt_views(parsed), raw@, type_to_id@) {
            Ok(ids) => r matches Ok(v) && views(v@) == ids,
            Err(m) => r matches Err(e) && json_error(e, m),
        },
{
    let types = match parsed {
        None => {
            return Err(AppError::Json(concat3("invalid metaobject_definition_types value (expected JSON array string): `", raw, "`")));
        },
        Some(t) => t,
    };
    let ghost ts = views(types@);
    let mut ids: Vec<String> = Vec::new();
    let mut i: usize = 0;
    assert(ts.take(0) =~= Seq::<Seq<char>>::empty());
    assert(views(ids@) =~= Seq::<Seq<char>>::empty());
    while i < types.len()
        invariant
            i <= types.len(),
            ts == views(types@),
            opt_views(parsed) == Some(ts),
            resolved_types(ts.take(i as int), type_to_id@) == Ok::<Seq<Seq<char>>, Seq<char>>(views(ids@)),
        decreases types.len() - i,
    {
        proof {
            lemma_take_push(ts, i as int);
            assert(ts.take(i + 1).drop_last() =~= ts.take(i as int));
            assert(ts[i as int] == types@[i as int]@);
        }
        let t = trim_str(types[i].as_str());
        match type_to_id.get(t.as_str()) {
            Some(id) => {
                let ghost before = ids@;
                let c = id.clone();
                ids.push(c);
                proof {
                    lemma_map_values_push(before, c, |x: String| x@);
                }
            },
            None => {
                proof {
                    assert(ts.take(i + 1).last() == ts[i as int]);
                    assert(resolved_types(ts.take(i + 1), type_to_id@) == Err::<Seq<Seq<char>>, Seq<char>>(msg_types_item_not_found(t@)));
                    lemma_resolved_types_err_prefix(ts, type_to_id@, i + 1);
                }
                return Err(AppError::Json(concat3("cannot resolve metaobject_definition_types item `", t.as_str(), "` in Shopify (type not found)")));
            },
        }
        i = i + 1;
    }
    assert(ts.take(types.len() as int) =~= ts);
    Ok(ids)
}

/// Once the first `k` types fail, the whole list fails with the same message.
proof fn lemma_resolved_types_err_prefix(ts: Seq<Seq<char>>, m: Map<Seq<char>, Seq<char>>, k: int)
    requires
        0 <= k <= ts.len(),
        resolved_types(ts.take(k), m) is Err,
    ensures
        resolved_types(ts, m) == resolved_types(ts.take(k), m),
    decreases ts.len() - k,
{
    if k < ts.len() {
        lemma_take_push(ts, k);
        assert(ts.take(k + 1).drop_last() =~= ts.take(k));
        lemma_resolved_types_err_prefix(ts, m, k + 1);
    } else {
        assert(ts.take(k) =~= ts);
    }
}

/// Once the first `k` ids hold a foreign one, it is the first foreign id of the whole list.
proof fn lemma_foreign_prefix(ids: Seq<Seq<char>>, m: Map<Seq<char>, Seq<char>>, k: int)
    requires
        0 <= k <= ids.len(),
        first_foreign_id(ids.take(k), m) is Some,
    ensures
        first_foreign_id(ids, m) == first_foreign_id(ids.take(k), m),
    decreases ids.len() - k,
{
    if k < ids.len() {
        lemma_take_push(ids, k);
        assert(ids.take(k + 1).drop_last() =~= ids.take(k));
        lemma_foreign_prefix(ids, m, k + 1);
    } else {
        assert(ids.take(k) =~= ids);
    }
}

/// Checks a `metaobject_definition_ids` list, read from `raw` as `parsed`: every id must be
/// an id of the target store.
pub fn check_id_list(parsed: Option<Vec<String>>, raw: &str, type_to_id: &StringMap) -> (r: Result<(), AppError>)
    ensures
        match id_list_problem(opt_views(parsed), raw@, type_to_id@) {
            None => r is Ok,
            Some(m) => r matches Err(e) && json_error(e, m),
        },
{
    let ids = match parsed {
        None => {
            return Err(AppError::Json(concat3("invalid metaobject_definition_ids value (expected JSON array string): `", raw, "`")));
        },
        Some(v) => v,
    };
    let ghost vs = views(ids@);
    let mut i: usize = 0;
    while i < ids.len()
        invariant
            i <= ids.len(),
            vs == views(ids@),
            opt_views(parsed) == Some(vs),
            first_foreign_id(vs.take(i as int), type_to_id@) is None,
        decreases ids.len() - i,
    {
        proof {
            lemma_take_push(vs, i as int);
            assert(vs.take(i + 1).drop_last() =~= vs.take(i as int));
            assert(vs[i as int] == ids@[i as int]@);
        }
        if !type_to_id.contains_value(ids[i].as_str()) {
            proof {
                assert(vs.take(i + 1).last() == vs[i as int]);
                assert(first_foreign_id(vs.take(i + 1), type_to_id@) == Some(vs[i as int]));
                lemma_foreign_prefix(vs, type_to_id@, i + 1);
            }
            return Err(AppError::Json(concat3("metaobject_definition_ids contains `", ids[i].as_str(), "` which does not belong to the target Shopify store (export should use metaobject_definition_types instead)")));
        }
        i = i + 1;
    }
    assert(vs.take(ids.len() as int) =~= vs);
    Ok(())
}

/// One rule resolved for Shopify (see `resolved_rule`).
fn resolve_rule(rule: &MetaobjectValidationRule, type_to_id: &StringMap, logger: &dyn Logger) -> (r: Result<MetaobjectValidationRule, AppError>)
    ensures
        match resolved_rule(rule@, type_to_id@) {
            Ok(x) => r matches Ok(v) && v@ == x,
            Err(m) => r matches Err(e) && json_error(e, m),
        },
{
    let name = rule.name.as_str();
    if str_eq(name, "metaobject_definition_type") {
        if let Some(t) = &rule.value {
            match type_to_id.get(t.as_str()) {
                Some(id) => {
                    logger.log(LogLevel::Debug, "Resolved metaobject_definition_type -> metaobject_definition_id", &[
                        LogField::new("type", t.clone()),
                        LogField::new("id", id.clone()),
                    ]);
                    return Ok(MetaobjectValidationRule { name: "metaobject_definition_id".to_string(), value: Some(id.clone()) });
                },
                None => {
                    return Err(AppError::Json(concat3("cannot resolve metaobject_definition_type `", t.as_str(), "` in Shopify (type not found)")));
                },
            }
        }
    }
    if str_eq(name, "metaobject_definition_types") {
        let raw: String = match &rule.value {
            Some(v) => v.clone(),
            None => String::new(),
        };
        let parsed = parse_json_string_array(raw.as_str());
        let types_text = match &parsed {
            Some(ts) => join_strings(ts, ", "),
            None => String::new(),
        };
        let ids = resolve_type_list(parsed, raw.as_str(), type_to_id)?;
        let json = to_json_string_array(ids.as_slice());
        logger.log(LogLevel::Debug, "Resolved metaobject_definition_types -> metaobject_definition_ids", &[
            LogField::new("types", types_text),
            LogField::new("ids", join_strings(&ids, ", ")),
        ]);
        return Ok(MetaobjectValidationRule { name: "metaobject_definition_ids".to_string(), value: Some(json) });
    }
    if str_eq(name, "metaobject_definition_id") {
        if let Some(id) = &rule.value {
            if !type_to_id.contains_value(id.as_str()) {
                return Err(AppError::Json(concat3("metaobject_definition_id `", id.as_str(), "` does not belong to the target Shopify store (export should use metaobject_definition_type instead)")));
            }
        }
    }
    if str_eq(name, "metaobject_definition_ids") {
        if let Some(raw) = &rule.value {
            let parsed = parse_json_string_array(raw.as_str());
            check_id_list(parsed, raw.as_str(), type_to_id)?;
        }
    }
    Ok(rule.clone())
}

/// Once the first `k` rules fail, the whole list fails with the same message.
proof fn lemma_resolved_rules_err_prefix(rs: Seq<RuleView>, m: Map<Seq<char>, Seq<char>>, k: int)
    requires
        0 <= k <= rs.len(),
        resolved_rules(rs.take(k), m) is Err,
    ensures
        resolved_rules(rs, m) == resolved_rules(rs.take(k), m),
    decreases rs.len() - k,
{
    if k < rs.len() {
        lemma_take_push(rs, k);
        assert(rs.take(k + 1).drop_last() =~= rs.take(k));
        lemma_resolved_rules_err_prefix(rs, m, k + 1);
    } else {
        assert(rs.take(k) =~= rs);
    }
}

/// A field's validations as sent to Shopify (see `resolved_validations`): none when there are
/// none, otherwise every rule resolved, or an error for the first rule that cannot be.
pub fn resolve_validations_for_shopify(validations: &Option<Vec<MetaobjectValidationRule>>, type_to_id: &StringMap, logger: &dyn Logger) -> (r: Result<Option<Vec<MetaobjectValidationRule>>, AppError>)
    ensures
        match resolved_validations(opt_rules_view(*validations), type_to_id@) {
            Ok(o) => r matches Ok(v) && opt_rules_view(v) == o,
            Err(m) => r matches Err(e) && json_error(e, m),
        },
{
    let v = normalize_validations(validations);
    if v.len() == 0 {
        return Ok(None);
    }
    let ghost rs = rules_view(v@);
    let mut out: Vec<MetaobjectValidationRule> = Vec::new();
    let mut i: usize = 0;
    assert(rs.take(0) =~= Seq::<RuleView>::empty());
    assert(rules_view(out@) =~= Seq::<RuleView>::empty());
    assert(rs == (match opt_rules_view(*validations) {
        Some(l) => l,
        None => Seq::<RuleView>::empty(),
    }));
    while i < v.len()
        invariant
            i <= v.len(),
            rs == rules_view(v@),
            rs.len() > 0,
            rs == (match opt_rules_view(*validations) {
                Some(l) => l,
                None => Seq::<RuleView>::empty(),
            }),
            resolved_rules(rs.take(i as int), type_to_id@) == Ok::<Seq<RuleView>, Seq<char>>(rules_view(out@)),
        decreases v.len() - i,
    {
        proof {
            lemma_take_push(rs, i as int);
            assert(rs.take(i + 1).drop_last() =~= rs.take(i as int));
            assert(rs[i as int] == v@[i as int]@);
        }
        match resolve_rule(&v[i], type_to_id, logger) {
            Ok(x) => {
                let ghost before = out@;
                out.push(x);
                proof {
                    lemma_map_values_push(before, x, |y: MetaobjectValidationRule| y@);
                }
            },
            Err(e) => {
                proof {
                    assert(rs.take(i + 1).last() == rs[i as int]);
                    assert(resolved_rules(rs.take(i + 1), type_to_id@) is Err);
                    lemma_resolved_rules_err_prefix(rs, type_to_id@, i + 1);
                }
                return Err(e);
            },
        }
        i = i + 1;
    }
    assert(rs.take(v.len() as int) =~= rs);
    if out.len() == 0 {
        Ok(None)
    } else {
        Ok(Some(out))
    }
}


// -------------------------------------------------------------------------------------------------
// Mutation inputs
// -------------------------------------------------------------------------------------------------

pub struct FieldCreateView {
    pub key: Seq<char>,
    pub name: Seq<char>,
    pub description: Option<Seq<char>>,
    pub typ: Seq<char>,
    pub required: bool,
    pub validations: Option<Seq<RuleView>>,
}

pub struct FieldUpdateView {
    pub key: Seq<char>,
    pub name: Seq<char>,
    pub description: Option<Seq<char>>,
    pub required: bool,
    pub validations: Option<Seq<RuleView>>,
}

pub enum FieldOperationView {
    Create(FieldCreateView),
    Update(FieldUpdateView),
}

pub struct CreateInputView {
    pub typ: Seq<char>,
    pub name: Seq<char>,
    pub description: Option<Seq<char>>,
    pub display_name_key: Option<Seq<char>>,
    pub capabilities: Option<MetaobjectCapabilitiesConfig>,
    pub field_definitions: Seq<FieldCreateView>,
}

pub struct UpdateInputView {
    pub name: Seq<char>,
    pub description: Option<Seq<char>>,
    pub display_name_key: Option<Seq<char>>,
    pub capabilities: Option<MetaobjectCapabilitiesConfig>,
    pub field_definitions: Seq<FieldOperationView>,
}

impl View for MetaobjectFieldDefinitionCreateInput {
    type V = FieldCreateView;

    open spec fn view(&self) -> FieldCreateView {
        FieldCreateView {
            key: self.key@,
            name: self.name@,
            description: opt_view(self.description),
            typ: self.typ@,
            required: self.required,
            validations: opt_rules_view(self.validations),
        }
    }
}

impl View for MetaobjectFieldDefinitionUpdateInput {
    type V = FieldUpdateView;

    open spec fn view(&self) -> FieldUpdateView {
        FieldUpdateView {
            key: self.key@,
            name: self.name@,
            description: opt_view(self.description),
            required: self.required,
            validations: opt_rules_view(self.validations),
        }
    }
}

impl View for MetaobjectFieldDefinitionOperation {
    type V = FieldOperationView;

    open spec fn view(&self) -> FieldOperationView {
        match self {
            MetaobjectFieldDefinitionOperation::Create { create } => FieldOperationView::Create(create@),
            MetaobjectFieldDefinitionOperation::Update { update } => FieldOperationView::Update(update@),
        }
    }
}

impl View for MetaobjectDefinitionCreateInput {
    type V = CreateInputView;

    open spec fn view(&self) -> CreateInputView {
        CreateInputView {
            typ: self.typ@,
            name: self.name@,
            description: opt_view(self.description),
            display_name_key: opt_view(self.display_name_key),
            capabilities: self.capabilities,
            field_definitions: self.field_definitions@.map_values(|f: MetaobjectFieldDefinitionCreateInput| f@),
        }
    }
}

impl View for MetaobjectDefinitionUpdateInput {
    type V = UpdateInputView;

    open spec fn view(&self) -> UpdateInputView {
        UpdateInputView {
            name: self.name@,
            description: opt_view(self.description),
            display_name_key: opt_view(self.display_name_key),
            capabilities: self.capabilities,
            field_definitions: self.field_definitions@.map_values(|f: MetaobjectFieldDefinitionOperation| f@),
        }
    }
}

/// A configured field as created in Shopify.
pub open spec fn created_field(f: FieldConfigView, m: Map<Seq<char>, Seq<char>>) -> Result<FieldCreateView, Seq<char>> {
    match resolved_validations(f.validations, m) {
        Err(e) => Err(e),
        Ok(v) => Ok(FieldCreateView {
            key: f.key,
            name: f.name,
            description: normalized_text(f.description),
            typ: f.typ,
            required: f.required,
            validations: v,
        }),
    }
}

/// A configured field as updated in Shopify.
pub open spec fn updated_field(f: FieldConfigView, m: Map<Seq<char>, Seq<char>>) -> Result<FieldUpdateView, Seq<char>> {
    match resolved_validations(f.validations, m) {
        Err(e) => Err(e),
        Ok(v) => Ok(FieldUpdateView {
            key: f.key,
            name: f.name,
            description: normalized_text(f.description),
            required: f.required,
            validations: v,
        }),
    }
}

/// Every field as created, in order, or the message of the first that fails.
pub open spec fn created_fields(fs: Seq<FieldConfigView>, m: Map<Seq<char>, Seq<char>>) -> Result<Seq<FieldCreateView>, Seq<char>>
    decreases fs.len(),
{
    if fs.len() == 0 {
        Ok(Seq::empty())
    } else {
        match created_fields(fs.drop_last(), m) {
            Err(e) => Err(e),
            Ok(out) => match created_field(fs.last(), m) {
                Err(e) => Err(e),
                Ok(x) => Ok(out.push(x)),
            },
        }
    }
}

/// The create input of a configured definition.
pub open spec fn create_input(d: DefinitionConfigView, m: Map<Seq<char>, Seq<char>>) -> Result<CreateInputView, Seq<char>> {
    match created_fields(d.field_definitions, m) {
        Err(e) => Err(e),
        Ok(fs) => Ok(CreateInputView {
            typ: d.typ,
            name: d.name,
            description: normalized_text(d.description),
            display_name_key: normalized_text(d.display_name_key),
            capabilities: d.capabilities,
            field_definitions: fs,
        }),
    }
}

pub open spec fn shopify_field_keys(fs: Seq<ShopifyFieldView>) -> Set<Seq<char>> {
    fs.map_values(|f: ShopifyFieldView| f.key).to_set()
}

/// A configured field in an update: updated when the definition has a field with its key,
/// created otherwise.
pub open spec fn field_operation(f: FieldConfigView, existing: Set<Seq<char>>, m: Map<Seq<char>, Seq<char>>) -> Result<FieldOperationView, Seq<char>> {
    if existing.contains(f.key) {
        match updated_field(f, m) {
            Err(e) => Err(e),
            Ok(u) => Ok(FieldOperationView::Update(u)),
        }
    } else {
        match created_field(f, m) {
            Err(e) => Err(e),
            Ok(c) => Ok(FieldOperationView::Create(c)),
        }
    }
}

pub open spec fn field_operations(fs: Seq<FieldConfigView>, existing: Set<Seq<char>>, m: Map<Seq<char>, Seq<char>>) -> Result<Seq<FieldOperationView>, Seq<char>>
    decreases fs.len(),
{
    if fs.len() == 0 {
        Ok(Seq::empty())
    } else {
        match field_operations(fs.drop_last(), existing, m) {
            Err(e) => Err(e),
            Ok(out) => match field_operation(fs.last(), existing, m) {
                Err(e) => Err(e),
                Ok(x) => Ok(out.push(x)),
            },
        }
    }
}

/// The update input of a configured definition against its existing definition.
pub open spec fn update_input(d: DefinitionConfigView, ex: ShopifyDefinitionView, m: Map<Seq<char>, Seq<char>>) -> Result<UpdateInputView, Seq<char>> {
    match field_operations(d.field_definitions, shopify_field_keys(ex.field_definitions), m) {
        Err(e) => Err(e),
        Ok(ops) => Ok(UpdateInputView {
            name: d.name,
            description: normalized_text(d.description),
            display_name_key: normalized_text(d.display_name_key),
            capabilities: d.capabilities,
            field_definitions: ops,
        }),
    }
}

fn build_create_field(f: &MetaobjectFieldDefinitionConfig, type_to_id: &StringMap, logger: &dyn Logger) -> (r: Result<MetaobjectFieldDefinitionCreateInput, AppError>)
    ensures
        match created_field(f@, type_to_id@) {
            Ok(x) => r matches Ok(v) && v@ == x,
            Err(m) => r matches Err(e) && json_error(e, m),
        },
{
    let validations = resolve_validations_for_shopify(&f.validations, type_to_id, logger)?;
    Ok(MetaobjectFieldDefinitionCreateInput {
        key: f.key.clone(),
        name: f.name.clone(),
        description: normalize_description(copy_opt_string(&f.description)),
        typ: f.typ.clone(),
        required: f.required,
        validations,
    })
}

fn build_update_field(f: &MetaobjectFieldDefinitionConfig, type_to_id: &StringMap, logger: &dyn Logger) -> (r: Result<MetaobjectFieldDefinitionUpdateInput, AppError>)
    ensures
        match updated_field(f@, type_to_id@) {
            Ok(x) => r matches Ok(v) && v@ == x,
            Err(m) => r matches Err(e) && json_error(e, m),
        },
{
    let validations = resolve_validations_for_shopify(&f.validations, type_to_id, logger)?;
    Ok(MetaobjectFieldDefinitionUpdateInput {
        key: f.key.clone(),
        name: f.name.clone(),
        description: normalize_description(copy_opt_string(&f.description)),
        required: f.required,
        validations,
    })
}

proof fn lemma_created_fields_err_prefix(fs: Seq<FieldConfigView>, m: Map<Seq<char>, Seq<char>>, k: int)
    requires
        0 <= k <= fs.len(),
        created_fields(fs.take(k), m) is Err,
    ensures
        created_fields(fs, m) == created_fields(fs.take(k), m),
    decreases fs.len() - k,
{
    if k < fs.len() {
        lemma_take_push(fs, k);
        assert(fs.take(k + 1).drop_last() =~= fs.take(k));
        lemma_created_fields_err_prefix(fs, m, k + 1);
    } else {
        assert(fs.take(k) =~= fs);
    }
}

proof fn lemma_field_operations_err_prefix(fs: Seq<FieldConfigView>, ex: Set<Seq<char>>, m: Map<Seq<char>, Seq<char>>, k: int)
    requires
        0 <= k <= fs.len(),
        field_operations(fs.take(k), ex, m) is Err,
    ensures
        field_operations(fs, ex, m) == field_operations(fs.take(k), ex, m),
    decreases fs.len() - k,
{
    if k < fs.len() {
        lemma_take_push(fs, k);
        assert(fs.take(k + 1).drop_last() =~= fs.take(k));
        lemma_field_operations_err_prefix(fs, ex, m, k + 1);
    } else {
        assert(fs.take(k) =~= fs);
    }
}

/// The create input of `cfg` (see `create_input`): descriptions and display-name key
/// normalised, validations resolved for Shopify; the first field that cannot be resolved fails.
pub fn build_create_input(cfg: &MetaobjectDefinitionConfig, type_to_id: &StringMap, logger: &dyn Logger) -> (r: Result<MetaobjectDefinitionCreateInput, AppError>)
    ensures
        match create_input(cfg@, type_to_id@) {
            Ok(x) => r matches Ok(v) && v@ == x,
            Err(m) => r matches Err(e) && json_error(e, m),
        },
{
    let ghost fs = cfg@.field_definitions;
    let mut out: Vec<MetaobjectFieldDefinitionCreateInput> = Vec::new();
    let mut i: usize = 0;
    assert(fs.take(0) =~= Seq::<FieldConfigView>::empty());
    assert(out@.map_values(|f: MetaobjectFieldDefinitionCreateInput| f@) =~= Seq::<FieldCreateView>::empty());
    while i < cfg.field_definitions.len()
        invariant
            i <= cfg.field_definitions.len(),
            fs == cfg@.field_definitions,
            created_fields(fs.take(i as int), type_to_id@) == Ok::<Seq<FieldCreateView>, Seq<char>>(out@.map_values(|f: MetaobjectFieldDefinitionCreateInput| f@)),
        decreases cfg.field_definitions.len() - i,
    {
        proof {
            lemma_take_push(fs, i as int);
            assert(fs.take(i + 1).drop_last() =~= fs.take(i as int));
            assert(fs[i as int] == cfg.field_definitions@[i as int]@);
        }
        match build_create_field(&cfg.field_definitions[i], type_to_id, logger) {
            Ok(x) => {
                let ghost before = out@;
                out.push(x);
                proof {
                    lemma_map_values_push(before, x, |f: MetaobjectFieldDefinitionCreateInput| f@);
                }
            },
            Err(e) => {
                proof {
                    assert(created_fields(fs.take(i + 1), type_to_id@) is Err);
                    lemma_created_fields_err_prefix(fs, type_to_id@, i + 1);
                }
                return Err(e);
            },
        }
        i = i + 1;
    }
    assert(fs.take(cfg.field_definitions.len() as int) =~= fs);
    Ok(MetaobjectDefinitionCreateInput {
        typ: cfg.typ.clone(),
        name: cfg.name.clone(),
        description: normalize_description(copy_opt_string(&cfg.description)),
        display_name_key: normalize_display_name_key(copy_opt_string(&cfg.display_name_key)),
        capabilities: cfg.capabilities,
        field_definitions: out,
    })
}

/// Whether some field of `fs` has key `k`.
fn has_field_key(fs: &Vec<ShopifyMetaobjectFieldDefinition>, k: &str) -> (r: bool)
    ensures
        r == shopify_field_keys(super::export::shopify_fields_view(fs@)).contains(k@),
{
    let ghost ks = super::export::shopify_fields_view(fs@).map_values(|f: ShopifyFieldView| f.key);
    let mut i: usize = 0;
    while i < fs.len()
        invariant
            i <= fs.len(),
            ks == super::export::shopify_fields_view(fs@).map_values(|f: ShopifyFieldView| f.key),
            forall|j: int| 0 <= j < i ==> ks[j] != k@,
        decreases fs.len() - i,
    {
        if str_eq(fs[i].key.as_str(), k) {
            assert(ks[i as int] == k@);
            assert(ks.to_set().contains(k@));
            return true;
        }
        i = i + 1;
    }
    assert(!ks.contains(k@));
    false
}

/// The update input of `cfg` against `existing` (see `update_input`): a configured field is
/// updated when the definition has a field with its key and created otherwise.
pub fn build_update_input(cfg: &MetaobjectDefinitionConfig, existing: &ShopifyMetaobjectDefinition, type_to_id: &StringMap, logger: &dyn Logger) -> (r: Result<MetaobjectDefinitionUpdateInput, AppError>)
    ensures
        match update_input(cfg@, existing@, type_to_id@) {
            Ok(x) => r matches Ok(v) && v@ == x,
            Err(m) => r matches Err(e) && json_error(e, m),
        },
{
    let ghost fs = cfg@.field_definitions;
    let ghost exk = shopify_field_keys(existing@.field_definitions);
    let mut out: Vec<MetaobjectFieldDefinitionOperation> = Vec::new();
    let mut i: usize = 0;
    assert(fs.take(0) =~= Seq::<FieldConfigView>::empty());
    assert(out@.map_values(|f: MetaobjectFieldDefinitionOperation| f@) =~= Seq::<FieldOperationView>::empty());
    while i < cfg.field_definitions.len()
        invariant
            i <= cfg.field_definitions.len(),
            fs == cfg@.field_definitions,
            exk == shopify_field_keys(existing@.field_definitions),
            field_operations(fs.take(i as int), exk, type_to_id@) == Ok::<Seq<FieldOperationView>, Seq<char>>(out@.map_values(|f: MetaobjectFieldDefinitionOperation| f@)),
        decreases cfg.field_definitions.len() - i,
    {
        proof {
            lemma_take_push(fs, i as int);
            assert(fs.take(i + 1).drop_last() =~= fs.take(i as int));
            assert(fs[i as int] == cfg.field_definitions@[i as int]@);
        }
        let f = &cfg.field_definitions[i];
        let op = if has_field_key(&existing.field_definitions, f.key.as_str()) {
            match build_update_field(f, type_to_id, logger) {
                Ok(u) => MetaobjectFieldDefinitionOperation::Update { update: u },
                Err(e) => {
                    proof {
                        assert(field_operations(fs.take(i + 1), exk, type_to_id@) is Err);
                        lemma_field_operations_err_prefix(fs, exk, type_to_id@, i + 1);
                    }
                    return Err(e);
                },
            }
        } else {
            match build_create_field(f, type_to_id, logger) {
                Ok(c) => MetaobjectFieldDefinitionOperation::Create { create: c },
                Err(e) => {
                    proof {
                        assert(field_operations(fs.take(i + 1), exk, type_to_id@) is Err);
                        lemma_field_operations_err_prefix(fs, exk, type_to_id@, i + 1);
                    }
                    return Err(e);
                },
            }
        };
        let ghost before = out@;
        out.push(op);
        proof {
            lemma_map_values_push(before, op, |f: MetaobjectFieldDefinitionOperation| f@);
        }
        i = i + 1;
    }
    assert(fs.take(cfg.field_definitions.len() as int) =~= fs);
    Ok(MetaobjectDefinitionUpdateInput {
        name: cfg.name.clone(),
        description: normalize_description(copy_opt_string(&cfg.description)),
        display_name_key: normalize_display_name_key(copy_opt_string(&cfg.display_name_key)),
        capabilities: cfg.capabilities,
        field_definitions: out,
    })
}


// -------------------------------------------------------------------------------------------------
// Change detection
// -------------------------------------------------------------------------------------------------

/// The last configured field with key `k`.
pub open spec fn last_config_field(fs: Seq<FieldConfigView>, k: Seq<char>) -> Option<FieldConfigView>
    decreases fs.len(),
{
    if fs.len() == 0 {
        None
    } else if fs.last().key == k {
        Some(fs.last())
    } else {
        last_config_field(fs.drop_last(), k)
    }
}

/// The last existing field with key `k`.
pub open spec fn last_shopify_field(fs: Seq<ShopifyFieldView>, k: Seq<char>) -> Option<ShopifyFieldView>
    decreases fs.len(),
{
    if fs.len() == 0 {
        None
    } else if fs.last().key == k {
        Some(fs.last())
    } else {
        last_shopify_field(fs.drop_last(), k)
    }
}

/// Validations with an empty list counted as none.
pub open spec fn non_empty_rules(a: Option<Seq<RuleView>>) -> Option<Seq<RuleView>> {
    match a {
        Some(v) => if v.len() == 0 { None } else { Some(v) },
        None => None,
    }
}

/// Two lists of validations agree, an empty list counting as none.
pub open spec fn same_validations(a: Option<Seq<RuleView>>, b: Seq<RuleView>) -> bool {
    non_empty_rules(a) == non_empty_rules(Some(b))
}

/// An existing field differs from its configuration: name, normalised description, type,
/// required flag or validations (resolved for Shopify; unresolvable counts as none).
pub open spec fn field_differs(ex: ShopifyFieldView, cf: FieldConfigView, m: Map<Seq<char>, Seq<char>>) -> bool {
    let resolved = match resolved_validations(cf.validations, m) {
        Ok(v) => v,
        Err(_) => None,
    };
    ||| ex.name != cf.name
    ||| normalized_text(ex.description) != normalized_text(cf.description)
    ||| ex.typ != cf.typ
    ||| ex.required != cf.required
    ||| !same_validations(resolved, ex.validations)
}

/// The field with key `k` changed: the definition lacks it, or its last existing field
/// differs from its last configured one.
pub open spec fn key_changed(ex: Seq<ShopifyFieldView>, cfg: Seq<FieldConfigView>, k: Seq<char>, m: Map<Seq<char>, Seq<char>>) -> bool {
    match last_shopify_field(ex, k) {
        None => true,
        Some(ef) => match last_config_field(cfg, k) {
            Some(cf) => field_differs(ef, cf, m),
            None => false,
        },
    }
}

pub open spec fn config_field_keys(fs: Seq<FieldConfigView>) -> Set<Seq<char>> {
    fs.map_values(|f: FieldConfigView| f.key).to_set()
}

/// The existing definition needs an update to match its configuration.
pub open spec fn definition_changed(ex: ShopifyDefinitionView, cfg: DefinitionConfigView, m: Map<Seq<char>, Seq<char>>) -> bool {
    ||| ex.name != cfg.name
    ||| normalized_text(ex.description) != normalized_text(cfg.description)
    ||| normalized_text(ex.display_name_key) != normalized_text(cfg.display_name_key)
    ||| ex.field_definitions.len() != cfg.field_definitions.len()
    ||| exists|i: int| 0 <= i < cfg.field_definitions.len() && #[trigger] key_changed(ex.field_definitions, cfg.field_definitions, cfg.field_definitions[i].key, m)
    ||| exists|i: int| 0 <= i < ex.field_definitions.len() && !config_field_keys(cfg.field_definitions).contains(#[trigger] ex.field_definitions[i].key)
}

fn last_config_index(fs: &Vec<MetaobjectFieldDefinitionConfig>, k: &str) -> (r: Option<usize>)
    ensures
        match r {
            Some(i) => i < fs.len() && last_config_field(field_configs_view(fs@), k@) == Some(fs@[i as int]@),
            None => last_config_field(field_configs_view(fs@), k@) is None,
        },
{
    let ghost v = field_configs_view(fs@);
    let mut i = fs.len();
    assert(v.take(i as int) =~= v);
    while i > 0
        invariant
            i <= fs.len(),
            v == field_configs_view(fs@),
            last_config_field(v, k@) == last_config_field(v.take(i as int), k@),
        decreases i,
    {
        assert(v.take(i as int).last() == fs@[i - 1]@);
        assert(v.take(i as int).drop_last() =~= v.take(i - 1));
        if str_eq(fs[i - 1].key.as_str(), k) {
            return Some(i - 1);
        }
        i = i - 1;
    }
    None
}

fn last_shopify_index(fs: &Vec<ShopifyMetaobjectFieldDefinition>, k: &str) -> (r: Option<usize>)
    ensures
        match r {
            Some(i) => i < fs.len() && last_shopify_field(super::export::shopify_fields_view(fs@), k@) == Some(fs@[i as int]@),
            None => last_shopify_field(super::export::shopify_fields_view(fs@), k@) is None,
        },
{
    let ghost v = super::export::shopify_fields_view(fs@);
    let mut i = fs.len();
    assert(v.take(i as int) =~= v);
    while i > 0
        invariant
            i <= fs.len(),
            v == super::export::shopify_fields_view(fs@),
            last_shopify_field(v, k@) == last_shopify_field(v.take(i as int), k@),
        decreases i,
    {
        assert(v.take(i as int).last() == fs@[i - 1]@);
        assert(v.take(i as int).drop_last() =~= v.take(i - 1));
        if str_eq(fs[i - 1].key.as_str(), k) {
            return Some(i - 1);
        }
        i = i - 1;
    }
    None
}

fn opt_str_eq(a: &Option<String>, b: &Option<String>) -> (r: bool)
    ensures
        r == (opt_view(*a) == opt_view(*b)),
{
    match (a, b) {
        (None, None) => true,
        (Some(x), Some(y)) => str_eq(x.as_str(), y.as_str()),
        _ => false,
    }
}

/// Whether two lists of rules are equal rule by rule.
fn rules_equal(a: &Vec<MetaobjectValidationRule>, b: &Vec<MetaobjectValidationRule>) -> (r: bool)
    ensures
        r == (rules_view(a@) == rules_view(b@)),
{
    if a.len() != b.len() {
        assert(rules_view(a@).len() != rules_view(b@).len());
        return false;
    }
    let mut i: usize = 0;
    while i < a.len()
        invariant
            i <= a.len(),
            a.len() == b.len(),
            forall|j: int| 0 <= j < i ==> rules_view(a@)[j] == rules_view(b@)[j],
        decreases a.len() - i,
    {
        if !str_eq(a[i].name.as_str(), b[i].name.as_str()) || !opt_str_eq(&a[i].value, &b[i].value) {
            assert(rules_view(a@)[i as int] != rules_view(b@)[i as int]);
            return false;
        }
        assert(rules_view(a@)[i as int] == rules_view(b@)[i as int]);
        i = i + 1;
    }
    assert(rules_view(a@) =~= rules_view(b@));
    true
}

/// Whether two lists of validations agree, an empty list counting as none.
fn validations_equal(a: &Option<Vec<MetaobjectValidationRule>>, b: &Vec<MetaobjectValidationRule>) -> (r: bool)
    ensures
        r == same_validations(opt_rules_view(*a), rules_view(b@)),
{
    match a {
        None => b.len() == 0,
        Some(v) => {
            if v.len() == 0 {
                b.len() == 0
            } else if b.len() == 0 {
                false
            } else {
                rules_equal(v, b)
            }
        },
    }
}

fn field_differs_exec(ex: &ShopifyMetaobjectFieldDefinition, cf: &MetaobjectFieldDefinitionConfig, type_to_id: &StringMap, logger: &dyn Logger) -> (r: bool)
    ensures
        r == field_differs(ex@, cf@, type_to_id@),
{
    let resolved = match resolve_validations_for_shopify(&cf.validations, type_to_id, logger) {
        Ok(v) => v,
        Err(_) => None,
    };
    let ex_desc = normalize_description(copy_opt_string(&ex.description));
    let cf_desc = normalize_description(copy_opt_string(&cf.description));
    !str_eq(ex.name.as_str(), cf.name.as_str())
        || !opt_str_eq(&ex_desc, &cf_desc)
        || !str_eq(ex.typ.as_str(), cf.typ.as_str())
        || ex.required != cf.required
        || !validations_equal(&resolved, &ex.validations)
}

/// Whether `existing` differs from its configuration `cfg` (see `definition_changed`): name,
/// description or display-name key (normalised), the number of fields, a configured field that
/// is missing or differs, or an existing field that is no longer configured. Access and
/// capabilities are not compared.
pub fn has_changes(existing: &ShopifyMetaobjectDefinition, cfg: &MetaobjectDefinitionConfig, type_to_id: &StringMap, logger: &dyn Logger) -> (r: bool)
    ensures
        r == definition_changed(existing@, cfg@, type_to_id@),
{
    let ghost exv = existing@;
    let ghost cv = cfg@;
    if !str_eq(existing.name.as_str(), cfg.name.as_str()) {
        return true;
    }
    let a = normalize_description(copy_opt_string(&existing.description));
    let b = normalize_description(copy_opt_string(&cfg.description));
    if !opt_str_eq(&a, &b) {
        return true;
    }
    let c = normalize_display_name_key(copy_opt_string(&existing.display_name_key));
    let d = normalize_display_name_key(copy_opt_string(&cfg.display_name_key));
    if !opt_str_eq(&c, &d) {
        return true;
    }
    if existing.field_definitions.len() != cfg.field_definitions.len() {
        assert(exv.field_definitions.len() != cv.field_definitions.len());
        return true;
    }
    let mut i: usize = 0;
    while i < cfg.field_definitions.len()
        invariant
            i <= cfg.field_definitions.len(),
            exv == existing@,
            cv == cfg@,
            forall|j: int| 0 <= j < i ==> !#[trigger] key_changed(exv.field_definitions, cv.field_definitions, cv.field_definitions[j].key, type_to_id@),
        decreases cfg.field_definitions.len() - i,
    {
        let k = cfg.field_definitions[i].key.as_str();
        assert(cv.field_definitions[i as int].key == k@);
        let changed = match last_shopify_index(&existing.field_definitions, k) {
            None => true,
            Some(ei) => match last_config_index(&cfg.field_definitions, k) {
                Some(ci) => field_differs_exec(&existing.field_definitions[ei], &cfg.field_definitions[ci], type_to_id, logger),
                None => false,
            },
        };
        if changed {
            assert(key_changed(exv.field_definitions, cv.field_definitions, cv.field_definitions[i as int].key, type_to_id@));
            return true;
        }
        i = i + 1;
    }
    let ghost ck = cv.field_definitions.map_values(|f: FieldConfigView| f.key);
    let mut j: usize = 0;
    while j < existing.field_definitions.len()
        invariant
            j <= existing.field_definitions.len(),
            exv == existing@,
            cv == cfg@,
            ck == cv.field_definitions.map_values(|f: FieldConfigView| f.key),
            forall|q: int| 0 <= q < j ==> config_field_keys(cv.field_definitions).contains(#[trigger] exv.field_definitions[q].key),
        decreases existing.field_definitions.len() - j,
    {
        let k = existing.field_definitions[j].key.as_str();
        assert(exv.field_definitions[j as int].key == k@);
        match last_config_index(&cfg.field_definitions, k) {
            None => {
                proof {
                    if config_field_keys(cv.field_definitions).contains(k@) {
                        let q = choose|q: int| 0 <= q < ck.len() && ck[q] == k@;
                        lemma_last_config_found(cv.field_definitions, q);
                    }
                }
                return true;
            },
            Some(ci) => {
                proof {
                    lemma_last_config_key(cv.field_definitions, k@);
                    assert(ck[ci as int] == cv.field_definitions[ci as int].key);
                    assert(ck.to_set().contains(ck[ci as int]));
                }
            },
        }
        j = j + 1;
    }
    false
}

proof fn lemma_last_config_found(fs: Seq<FieldConfigView>, q: int)
    requires
        0 <= q < fs.len(),
    ensures
        last_config_field(fs, fs[q].key) is Some,
    decreases fs.len(),
{
    if fs.last().key != fs[q].key {
        assert(q < fs.len() - 1);
        assert(fs.drop_last()[q] == fs[q]);
        lemma_last_config_found(fs.drop_last(), q);
    }
}

proof fn lemma_last_config_key(fs: Seq<FieldConfigView>, k: Seq<char>)
    ensures
        last_config_field(fs, k) matches Some(f) ==> f.key == k,
    decreases fs.len(),
{
    if fs.len() > 0 && fs.last().key != k {
        lemma_last_config_key(fs.drop_last(), k);
    }
}


// -------------------------------------------------------------------------------------------------
// What to do with one definition
// -------------------------------------------------------------------------------------------------

/// The mutation an import makes for one configured definition.
#[derive(Debug, Clone, PartialEq, Eq)]
pub enum MetaobjectImportStep {
    Create(MetaobjectDefinitionCreateInput),
    Update { id: String, input: MetaobjectDefinitionUpdateInput },
    NoChange,
}

pub open spec fn msg_missing_id(t: Seq<char>) -> Seq<char> {
    "existing metaobject definition missing id for type `"@ + t + "`"@
}

/// The error whose message is `m`, from the gateway.
pub open spec fn gateway_error(e: AppError, m: Seq<char>) -> bool {
    e matches AppError::Gateway(s) && s@ == m
}

/// What to do with `cfg` given the existing definition of its type, if any: create it when
/// there is none, leave it when nothing changed, otherwise update it by its id (an existing
/// definition without an id is an error).
pub fn decide_metaobject_import(cfg: &MetaobjectDefinitionConfig, existing: Option<&ShopifyMetaobjectDefinition>, type_to_id: &StringMap, logger: &dyn Logger) -> (r: Result<MetaobjectImportStep, AppError>)
    ensures
        match existing {
            None => match create_input(cfg@, type_to_id@) {
                Ok(x) => r matches Ok(MetaobjectImportStep::Create(c)) && c@ == x,
                Err(m) => r matches Err(e) && json_error(e, m),
            },
            Some(ex) => if !definition_changed(ex@, cfg@, type_to_id@) {
                r matches Ok(MetaobjectImportStep::NoChange)
            } else if ex.id is None {
                r matches Err(e) && gateway_error(e, msg_missing_id(cfg.typ@))
            } else {
                match update_input(cfg@, ex@, type_to_id@) {
                    Ok(x) => r matches Ok(MetaobjectImportStep::Update { id, input }) && id@ == ex.id->0@ && input@ == x,
                    Err(m) => r matches Err(e) && json_error(e, m),
                }
            },
        },
{
    match existing {
        Some(ex) => {
            if has_changes(ex, cfg, type_to_id, logger) {
                let id = match &ex.id {
                    Some(id) => id.clone(),
                    None => {
                        return Err(AppError::Gateway(concat3("existing metaobject definition missing id for type `", cfg.typ.as_str(), "`")));
                    },
                };
                let input = build_update_input(cfg, ex, type_to_id, logger)?;
                Ok(MetaobjectImportStep::Update { id, input })
            } else {
                Ok(MetaobjectImportStep::NoChange)
            }
        },
        None => {
            let input = build_create_input(cfg, type_to_id, logger)?;
            Ok(MetaobjectImportStep::Create(input))
        },
    }
}

// -------------------------------------------------------------------------------------------------
// Planning
// -------------------------------------------------------------------------------------------------

/// The last definition of type `t`.
pub open spec fn last_definition(ds: Seq<DefinitionConfigView>, t: Seq<char>) -> Option<DefinitionConfigView>
    decreases ds.len(),
{
    if ds.len() == 0 {
        None
    } else if ds.last().typ == t {
        Some(ds.last())
    } else {
        last_definition(ds.drop_last(), t)
    }
}

/// The definitions of the types `ts`, in order (the last definition of a type counts).
pub open spec fn definitions_of(ts: Seq<Seq<char>>, ds: Seq<DefinitionConfigView>) -> Seq<DefinitionConfigView>
    decreases ts.len(),
{
    if ts.len() == 0 {
        Seq::empty()
    } else {
        match last_definition(ds, ts.last()) {
            Some(d) => definitions_of(ts.drop_last(), ds).push(d),
            None => definitions_of(ts.drop_last(), ds),
        }
    }
}

pub open spec fn plan_levels_view(l: Seq<Vec<MetaobjectDefinitionConfig>>) -> Seq<Seq<DefinitionConfigView>> {
    l.map_values(|v: Vec<MetaobjectDefinitionConfig>| definition_configs_view(v@))
}

/// What the plan states: the tree text, the definitions by level, the number of distinct
/// types and the missing external types.
pub open spec fn assembled_plan(
    p: MetaobjectImportPlan,
    ds: Seq<DefinitionConfigView>,
    g: DepsMap,
    level_types: Seq<Seq<Seq<char>>>,
    external: Seq<Seq<char>>,
    m: Map<Seq<char>, Seq<char>>,
) -> bool {
    let in_shopify = sort_seq(keep_in(external, m.dom()));
    let missing = sort_seq(keep_out(external, m.dom()));
    &&& p.tree_markdown@ == forest_text(g@, key_list(g), in_shopify, missing)
    &&& plan_levels_view(p.levels@) == level_types.map_values(|lt: Seq<Seq<char>>| definitions_of(lt, ds))
    &&& p.total == def_types(ds).len()
    &&& views(p.missing_external_types@) == missing
}

fn last_definition_index(defs: &Vec<MetaobjectDefinitionConfig>, t: &str) -> (r: Option<usize>)
    ensures
        match r {
            Some(i) => i < defs.len() && last_definition(definition_configs_view(defs@), t@) == Some(defs@[i as int]@),
            None => last_definition(definition_configs_view(defs@), t@) is None,
        },
{
    let ghost v = definition_configs_view(defs@);
    let mut i = defs.len();
    assert(v.take(i as int) =~= v);
    while i > 0
        invariant
            i <= defs.len(),
            v == definition_configs_view(defs@),
            last_definition(v, t@) == last_definition(v.take(i as int), t@),
        decreases i,
    {
        assert(v.take(i as int).last() == defs@[i - 1]@);
        assert(v.take(i as int).drop_last() =~= v.take(i - 1));
        if str_eq(defs[i - 1].typ.as_str(), t) {
            return Some(i - 1);
        }
        i = i - 1;
    }
    None
}

/// Every string of `s` that `m` has as a key (`in_map`) or not, in order.
fn split_by_keys(s: &Vec<String>, m: &StringMap) -> (r: (Vec<String>, Vec<String>))
    ensures
        views(r.0@) == keep_in(views(s@), m@.dom()),
        views(r.1@) == keep_out(views(s@), m@.dom()),
{
    let mut a: Vec<String> = Vec::new();
    let mut b: Vec<String> = Vec::new();
    let mut i: usize = 0;
    while i < s.len()
        invariant
            i <= s.len(),
            views(a@) == keep_in(views(s@.take(i as int)), m@.dom()),
            views(b@) == keep_out(views(s@.take(i as int)), m@.dom()),
        decreases s.len() - i,
    {
        let ghost t = views(s@.take(i + 1));
        proof {
            lemma_take_push(s@, i as int);
            lemma_map_values_push(s@.take(i as int), s@[i as int], |x: String| x@);
            assert(t.drop_last() =~= views(s@.take(i as int)));
        }
        let c = s[i].clone();
        if m.contains_key(s[i].as_str()) {
            let ghost before = a@;
            a.push(c);
            proof {
                lemma_map_values_push(before, c, |x: String| x@);
            }
        } else {
            let ghost before = b@;
            b.push(c);
            proof {
                lemma_map_values_push(before, c, |x: String| x@);
            }
        }
        i = i + 1;
    }
    assert(s@.take(s.len() as int) =~= s@);
    (a, b)
}

/// The parts of a plan for the definitions `ds`: `g` is their map of dependencies between their
/// own types, the level types `lt` are their types sorted and grouped by height in `g`
/// (dependencies first), and `ext` are the types outside `ds` that they depend on, sorted, each
/// once.
pub open spec fn plan_parts(ds: Seq<DefinitionConfigView>, g: DepsMap, lt: Seq<Seq<Seq<char>>>, ext: Seq<Seq<char>>) -> bool {
    &&& g@ == map_of(internal_dep_entries(ds))
    &&& exists|h: Map<Seq<char>, nat>| #![trigger valid_heights(g@, h)]
        valid_heights(g@, h) && g@.dom().subset_of(h.dom()) && lt == levels_of(sort_seq(key_list(g)), h)
    &&& ext == dedup_adjacent(sort_seq(external_deps(ds, def_types(ds))))
}

/// The error for a metaobject definitions file that holds no definition.
pub open spec fn is_empty_plan_file_error(e: AppError) -> bool {
    e matches AppError::Json(m) && m@ == "metaobject config file must be a non-empty array: "@ + metaobject_definitions_path()
}

/// Everything a plan needs that depends on the parsed definitions alone: their dependency map,
/// their level types and the external types they refer to. An empty list is an error, and so is
/// a dependency cycle (naming the type on the cycle that `compute_levels` reports).
pub fn prepare_plan(parsed: &Vec<MetaobjectDefinitionConfig>) -> (r: Result<(DepsMap, Vec<Vec<String>>, Vec<String>), AppError>)
    ensures
        parsed@.len() == 0 ==> (r matches Err(e) && is_empty_plan_file_error(e)),
        parsed@.len() > 0 ==> (r is Ok <==> acyclic(map_of(internal_dep_entries(definition_configs_view(parsed@))))),
        parsed@.len() > 0 ==> (r matches Err(e) ==> (e matches AppError::Json(m) && exists|n: Seq<char>|
            on_cycle(map_of(internal_dep_entries(definition_configs_view(parsed@))), n) && m@ == cycle_message(n))),
        parsed@.len() > 0 ==> (r matches Err(e) ==> exists|n: Seq<char>|
            dependency_search(map_of(internal_dep_entries(definition_configs_view(parsed@))))
                == Err::<Set<Seq<char>>, Seq<char>>(n)
                && (e matches AppError::Json(m) && m@ == cycle_message(n))),
        r matches Ok(p) ==> parsed@.len() > 0 && plan_parts(definition_configs_view(parsed@), p.0,
            p.1@.map_values(|v: Vec<String>| views(v@)), views(p.2@)),
{
    if parsed.len() == 0 {
        let path = metaobject_definitions_file();
        return Err(AppError::Json(concat("metaobject config file must be a non-empty array: ", path.as_str())));
    }
    let ghost ds = definition_configs_view(parsed@);
    let (internal_deps, internal_types) = build_internal_deps_map(parsed);
    let level_types = compute_levels(&internal_deps)?;
    let external_refs = collect_external_dependency_types(parsed, &internal_types);
    let ghost lt = level_types@.map_values(|v: Vec<String>| views(v@));
    assert(plan_parts(ds, internal_deps, lt, views(external_refs@)));
    Ok((internal_deps, level_types, external_refs))
}

/// Puts a plan together from the parsed definitions, their dependency map, the level types
/// and external references, and Shopify's `type -> id` map.
pub fn assemble_plan(
    defs: &Vec<MetaobjectDefinitionConfig>,
    internal_deps: &DepsMap,
    level_types: &Vec<Vec<String>>,
    external_refs: &Vec<String>,
    type_to_id: &StringMap,
) -> (r: MetaobjectImportPlan)
    ensures
        assembled_plan(r, definition_configs_view(defs@), *internal_deps,
            level_types@.map_values(|v: Vec<String>| views(v@)), views(external_refs@), type_to_id@),
{
    let ghost ds = definition_configs_view(defs@);
    let ghost lts = level_types@.map_values(|v: Vec<String>| views(v@));
    let mut levels: Vec<Vec<MetaobjectDefinitionConfig>> = Vec::new();
    let mut i: usize = 0;
    while i < level_types.len()
        invariant
            i <= level_types.len(),
            ds == definition_configs_view(defs@),
            lts == level_types@.map_values(|v: Vec<String>| views(v@)),
            plan_levels_view(levels@) == lts.take(i as int).map_values(|lt: Seq<Seq<char>>| definitions_of(lt, ds)),
        decreases level_types.len() - i,
    {
        let lt = &level_types[i];
        let ghost tv = views(lt@);
        let mut lvl: Vec<MetaobjectDefinitionConfig> = Vec::new();
        let mut j: usize = 0;
        while j < lt.len()
            invariant
                j <= lt.len(),
                ds == definition_configs_view(defs@),
                tv == views(lt@),
                definition_configs_view(lvl@) == definitions_of(tv.take(j as int), ds),
            decreases lt.len() - j,
        {
            proof {
                lemma_take_push(tv, j as int);
                assert(tv.take(j + 1).drop_last() =~= tv.take(j as int));
                assert(tv[j as int] == lt@[j as int]@);
            }
            if let Some(k) = last_definition_index(defs, lt[j].as_str()) {
                let d = defs[k].duplicate();
                let ghost before = lvl@;
                lvl.push(d);
                proof {
                    lemma_map_values_push(before, d, |x: MetaobjectDefinitionConfig| x@);
                }
            }
            j = j + 1;
        }
        assert(tv.take(lt.len() as int) =~= tv);
        let ghost before = levels@;
        levels.push(lvl);
        proof {
            lemma_map_values_push(before, lvl, |v: Vec<MetaobjectDefinitionConfig>| definition_configs_view(v@));
            lemma_take_push(lts, i as int);
            lemma_map_values_push(lts.take(i as int), lts[i as int], |lt: Seq<Seq<char>>| definitions_of(lt, ds));
        }
        i = i + 1;
    }
    assert(lts.take(level_types.len() as int) =~= lts);
    let (in_shopify, missing) = split_by_keys(external_refs, type_to_id);
    let in_shopify = sort_strings(&in_shopify);
    let missing = sort_strings(&missing);
    let tree = render_dependency_forest_text(internal_deps, in_shopify.as_slice(), missing.as_slice());
    let total = definition_types(defs).len();
    MetaobjectImportPlan { tree_markdown: tree, levels, total, missing_external_types: missing }
}

/// `p` plans the import of the definitions `ds` given Shopify's `type -> id` map `m`: `ds` is
/// not empty, `g` is its map of dependencies between its own types and has no cycle, the
/// level types `lt` are its types sorted and grouped by height in `g` (dependencies first),
/// and `p` is assembled from them and the external types that `ds` refers to.
pub open spec fn plan_of(
    p: MetaobjectImportPlan,
    ds: Seq<DefinitionConfigView>,
    g: DepsMap,
    lt: Seq<Seq<Seq<char>>>,
    m: Map<Seq<char>, Seq<char>>,
) -> bool {
    &&& ds.len() > 0
    &&& g@ == map_of(internal_dep_entries(ds))
    &&& acyclic(g@)
    &&& exists|h: Map<Seq<char>, nat>| #![trigger valid_heights(g@, h)]
        valid_heights(g@, h) && g@.dom().subset_of(h.dom()) && lt == levels_of(sort_seq(key_list(g)), h)
    &&& assembled_plan(p, ds, g, lt, dedup_adjacent(sort_seq(external_deps(ds, def_types(ds)))), m)
}

/// `p` is the plan of some non-empty definitions file under some `type -> id` map (see
/// `plan_of`).
pub open spec fn is_plan(p: MetaobjectImportPlan) -> bool {
    exists|ds: Seq<DefinitionConfigView>, g: DepsMap, lt: Seq<Seq<Seq<char>>>, m: Map<Seq<char>, Seq<char>>|
        #[trigger] plan_of(p, ds, g, lt, m)
}

/// One read of the metaobject definitions file (`metaobject_definitions_file`) through `repo`.
/// Nothing is known of the result; the planning use case states, through `call_ensures` of
/// this function, what it does with whatever came back.
pub fn read_metaobject_definitions_text<R: FileRepo>(repo: &R) -> Result<String, AppError> {
    let path = metaobject_definitions_file();
    repo.read_text(path.as_str())
}

/// One parse of a metaobject definitions text through `codec` (see
/// `read_metaobject_definitions_text`).
pub fn parse_metaobject_definitions_text<C: JsonCodec>(codec: &C, json: &String) -> Result<Vec<MetaobjectDefinitionConfig>, Vec<ValidationError>> {
    codec.parse_metaobject_definitions(json.as_str())
}

/// One call of the gateway's `metaobject_type_to_id_map` (see
/// `read_metaobject_definitions_text`).
pub fn fetch_metaobject_type_to_id_map<G: MetaobjectImportGateway, L: Logger>(gateway: &G, logger: &L) -> Result<StringMap, AppError> {
    gateway.metaobject_type_to_id_map(logger)
}

/// `p` is the plan of what one parse of `json` through `codec` gave, under what one call of the
/// gateway's `type -> id` map gave.
pub open spec fn planned_from_text<C: JsonCodec, G: MetaobjectImportGateway, L: Logger>(
    p: MetaobjectImportPlan,
    codec: &C,
    gateway: &G,
    logger: &L,
    json: String,
) -> bool {
    exists|parsed: Vec<MetaobjectDefinitionConfig>|
        #[trigger] call_ensures(parse_metaobject_definitions_text::<C>, (codec, &json), Ok::<Vec<MetaobjectDefinitionConfig>, Vec<ValidationError>>(parsed))
        && exists|m: StringMap|
            #[trigger] call_ensures(fetch_metaobject_type_to_id_map::<G, L>, (gateway, logger), Ok::<StringMap, AppError>(m))
            && exists|g: DepsMap, lt: Seq<Seq<Seq<char>>>| #[trigger] plan_of(p, definition_configs_view(parsed@), g, lt, m@)
}

pub struct PlanMetaobjectsImportUseCase<G> {
    gateway: G,
}

/// The hint logged when a definitions file is missing, when `e` is such an error.
fn log_missing_file_hint(e: &AppError, command: &str, output: &str, logger: &dyn Logger) {
    if let AppError::Repo(msg) = e {
        if contains_str(msg.as_str(), "file not found:") {
            logger.log(LogLevel::Info, "Hint: run command to generate missing definitions file", &[
                LogField::new("suggested_command", command.to_string()),
                LogField::new("output", output.to_string()),
            ]);
        }
    }
}

impl<G: MetaobjectImportGateway> PlanMetaobjectsImportUseCase<G> {
    /// The gateway the use case works through.
    pub closed spec fn gateway_of(self) -> G {
        self.gateway
    }

    pub fn new(gateway: G) -> (r: Self)
        ensures
            r.gateway_of() == gateway,
    {
        PlanMetaobjectsImportUseCase { gateway }
    }

    /// Reads the file `metaobject_definitions_file` names (`definitions/metaobjects.json`) and
    /// plans its import: the definitions by level
    /// (dependencies first), the dependency tree and the external types that Shopify lacks.
    /// An empty file or a dependency cycle is an error.
    #[verifier::spinoff_prover]
    pub fn execute<R: FileRepo, C: JsonCodec, L: Logger>(&self, repo: &mut R, codec: &C, logger: &L) -> (r: Result<MetaobjectImportPlan, AppError>)
        ensures
            r matches Ok(p) ==> is_plan(p),
            r matches Ok(p) ==> exists|json: String|
                #[trigger] call_ensures(read_metaobject_definitions_text::<R>, (&*old(repo),), Ok::<String, AppError>(json))
                && planned_from_text(p, codec, &self.gateway_of(), logger, json),
    {
        let input_path = metaobject_definitions_file();
        let read = read_metaobject_definitions_text::<R>;
        let ghost repo0 = *repo;
        let read_result = read(&*repo);
        let ghost read_ok = read_result;
        let json = match read_result {
            Ok(v) => v,
            Err(e) => {
                log_missing_file_hint(&e, "mdsr-cli metaobject export", input_path.as_str(), logger);
                return Err(e);
            },
        };
        let parse = parse_metaobject_definitions_text::<C>;
        let parse_result = parse(codec, &json);
        let ghost parse_ok = parse_result;
        let parsed = match parse_result {
            Ok(v) => v,
            Err(errs) => {
                return Err(AppError::Json(format_validation_errors(errs.as_slice())));
            },
        };
        let ghost ds = definition_configs_view(parsed@);
        let (internal_deps, level_types, external_refs) = prepare_plan(&parsed)?;
        let fetch = fetch_metaobject_type_to_id_map::<G, L>;
        let fetch_result = fetch(&self.gateway, logger);
        let ghost fetch_ok = fetch_result;
        let type_to_id = fetch_result?;
        let plan = assemble_plan(&parsed, &internal_deps, &level_types, &external_refs, &type_to_id);
        if plan.missing_external_types.len() > 0 {
            logger.log(LogLevel::Warn, "Some external metaobject dependencies are not present in Shopify", &[
                LogField::new("missing_external_types", join_strings(&plan.missing_external_types, ", ")),
            ]);
        }
        let ghost lt = level_types@.map_values(|v: Vec<String>| views(v@));
        assert(plan_of(plan, ds, internal_deps, lt, type_to_id@));
        proof {
            assert(repo0 == *old(repo));
            assert(read_ok == Ok::<String, AppError>(json));
            assert(parse_ok == Ok::<Vec<MetaobjectDefinitionConfig>, Vec<ValidationError>>(parsed));
            assert(fetch_ok == Ok::<StringMap, AppError>(type_to_id));
            assert(call_ensures(read_metaobject_definitions_text::<R>, (&*old(repo),), Ok::<String, AppError>(json)));
            assert(call_ensures(parse_metaobject_definitions_text::<C>, (codec, &json), Ok::<Vec<MetaobjectDefinitionConfig>, Vec<ValidationError>>(parsed)));
            assert(call_ensures(fetch_metaobject_type_to_id_map::<G, L>, (&self.gateway_of(), logger), Ok::<StringMap, AppError>(type_to_id)));
            assert(plan_of(plan, definition_configs_view(parsed@), internal_deps, lt, type_to_id@));
            assert(planned_from_text(plan, codec, &self.gateway_of(), logger, json));
        }
        Ok(plan)
    }
}


// -------------------------------------------------------------------------------------------------
// Execution
// -------------------------------------------------------------------------------------------------

/// The types of the definitions of all levels, level after level.
pub open spec fn flat_types(lv: Seq<Seq<DefinitionConfigView>>) -> Seq<Seq<char>>
    decreases lv.len(),
{
    if lv.len() == 0 {
        Seq::empty()
    } else {
        flat_types(lv.drop_last()) + lv.last().map_values(|d: DefinitionConfigView| d.typ)
    }
}

pub open spec fn item_types(items: Seq<MetaobjectImportItemReport>) -> Seq<Seq<char>> {
    items.map_values(|x: MetaobjectImportItemReport| x.typ@)
}

/// How many items have action `a`.
pub open spec fn count_action(items: Seq<MetaobjectImportItemReport>, a: MetaobjectImportAction) -> nat
    decreases items.len(),
{
    if items.len() == 0 {
        0
    } else {
        count_action(items.drop_last(), a) + if items.last().action == a { 1nat } else { 0nat }
    }
}

proof fn lemma_count_push(items: Seq<MetaobjectImportItemReport>, x: MetaobjectImportItemReport, a: MetaobjectImportAction)
    ensures
        count_action(items.push(x), a) == count_action(items, a) + if x.action == a { 1nat } else { 0nat },
{
    assert(items.push(x).drop_last() =~= items);
}

proof fn lemma_count_le(items: Seq<MetaobjectImportItemReport>, a: MetaobjectImportAction)
    ensures
        count_action(items, a) <= items.len(),
    decreases items.len(),
{
    if items.len() > 0 {
        lemma_count_le(items.drop_last(), a);
    }
}

/// The report agrees with its items: one item per processed definition, in order, and the
/// summary counts the items by action; nothing failed (a failure ends the import).
pub open spec fn report_consistent(rep: MetaobjectImportReport) -> bool {
    &&& rep.summary.created == count_action(rep.items@, MetaobjectImportAction::Create)
    &&& rep.summary.updated == count_action(rep.items@, MetaobjectImportAction::Update)
    &&& rep.summary.no_change == count_action(rep.items@, MetaobjectImportAction::NoChange)
    &&& rep.summary.failed == 0
    &&& forall|k: int| 0 <= k < rep.items@.len() ==> (#[trigger] rep.items@[k]).action != MetaobjectImportAction::Failed
        && rep.items@[k].message is None
}

/// Where a metaobject import report is written for the timestamp `ts` (milliseconds).
pub open spec fn metaobject_report_path(ts: nat) -> Seq<char> {
    "reports/metaobject-definitions:import/metaobject-import-report-"@ + decimal(ts) + ".json"@
}

/// The report file for the timestamp `ts`.
pub fn metaobject_report_file(ts: u128) -> (r: String)
    ensures
        r@ == metaobject_report_path(ts as nat),
{
    let n = u128_to_decimal(ts);
    concat3("reports/metaobject-definitions:import/metaobject-import-report-", n.as_str(), ".json")
}

/// The name of an action as logged.
pub fn action_label(a: MetaobjectImportAction) -> (r: &'static str)
    ensures
        r@ == (match a {
            MetaobjectImportAction::Create => "Create"@,
            MetaobjectImportAction::Update => "Update"@,
            MetaobjectImportAction::NoChange => "NoChange"@,
            MetaobjectImportAction::Failed => "Failed"@,
        }),
{
    match a {
        MetaobjectImportAction::Create => "Create",
        MetaobjectImportAction::Update => "Update",
        MetaobjectImportAction::NoChange => "NoChange",
        MetaobjectImportAction::Failed => "Failed",
    }
}

/// The last listed definition of type `t`, if any.
pub open spec fn last_of_type(exs: Seq<ShopifyDefinitionView>, t: Seq<char>) -> Option<ShopifyDefinitionView>
    decreases exs.len(),
{
    if exs.len() == 0 {
        None
    } else if exs.last().typ == t {
        Some(exs.last())
    } else {
        last_of_type(exs.drop_last(), t)
    }
}

proof fn lemma_last_of_type(exs: Seq<ShopifyDefinitionView>, t: Seq<char>, i: int)
    requires
        -1 <= i < exs.len(),
        i >= 0 ==> exs[i].typ == t,
        forall|j: int| i < j < exs.len() ==> (#[trigger] exs[j]).typ != t,
    ensures
        last_of_type(exs, t) == (if i >= 0 { Some(exs[i]) } else { None::<ShopifyDefinitionView> }),
    decreases exs.len(),
{
    if exs.len() > 0 && i < exs.len() - 1 {
        assert(exs[exs.len() - 1].typ != t);
        let d = exs.drop_last();
        assert forall|j: int| i < j < d.len() implies (#[trigger] d[j]).typ != t by {
            assert(d[j] == exs[j]);
        }
        lemma_last_of_type(d, t, i);
    }
}

/// The action reported for `cfg` when the definition listed with its type is `ex`, unless the
/// import ends with an error there (see `decide_metaobject_import`).
pub open spec fn planned_metaobject_action(
    cfg: DefinitionConfigView,
    ex: Option<ShopifyDefinitionView>,
    m: Map<Seq<char>, Seq<char>>,
) -> MetaobjectImportAction {
    match ex {
        None => MetaobjectImportAction::Create,
        Some(e) => if definition_changed(e, cfg, m) {
            MetaobjectImportAction::Update
        } else {
            MetaobjectImportAction::NoChange
        },
    }
}

/// The items of one level follow the decision rules for the definitions `defs`, given the
/// existing definitions `exs` and the `type -> id` map `m` fetched for that level.
pub open spec fn level_follows_rules(
    items: Seq<MetaobjectImportItemReport>,
    defs: Seq<DefinitionConfigView>,
    exs: Seq<ShopifyDefinitionView>,
    m: Map<Seq<char>, Seq<char>>,
) -> bool {
    &&& items.len() == defs.len()
    &&& forall|k: int| 0 <= k < defs.len() ==> (#[trigger] items[k]).typ@ == defs[k].typ
        && items[k].action == planned_metaobject_action(defs[k], last_of_type(exs, defs[k].typ), m)
}

/// The items are the levels' items, level after level, each level following the decision
/// rules for what was fetched at its start.
pub open spec fn levels_follow_rules(items: Seq<MetaobjectImportItemReport>, lv: Seq<Seq<DefinitionConfigView>>) -> bool
    decreases lv.len(),
{
    if lv.len() == 0 {
        items.len() == 0
    } else {
        let n = items.len() - lv.last().len();
        &&& n >= 0
        &&& levels_follow_rules(items.take(n), lv.drop_last())
        &&& exists|exs: Seq<ShopifyDefinitionView>, m: Map<Seq<char>, Seq<char>>|
            #[trigger] level_follows_rules(items.skip(n), lv.last(), exs, m)
    }
}

/// The existing definition of type `t` (the last one listed).
fn find_existing(defs: &Vec<ShopifyMetaobjectDefinition>, t: &str) -> (r: Option<usize>)
    ensures
        match r {
            Some(i) => i < defs.len() && defs@[i as int].typ@ == t@
                && forall|j: int| i < j < defs.len() ==> (#[trigger] defs@[j]).typ@ != t@,
            None => forall|j: int| 0 <= j < defs.len() ==> (#[trigger] defs@[j]).typ@ != t@,
        },
{
    let mut i = defs.len();
    while i > 0
        invariant
            i <= defs.len(),
            forall|j: int| i <= j < defs.len() ==> (#[trigger] defs@[j]).typ@ != t@,
        decreases i,
    {
        if str_eq(defs[i - 1].typ.as_str(), t) {
            return Some(i - 1);
        }
        i = i - 1;
    }
    None
}

/// The number of batches of ten for `n` items.
pub fn batch_count(n: usize) -> (r: usize)
    ensures
        r == (n + 9) / 10,
{
    n / 10 + if n % 10 != 0 { 1 } else { 0 }
}

pub struct ImportMetaobjectsFromFileUseCase<G, C> {
    gateway: G,
    clock: C,
}

impl<G: MetaobjectImportGateway, C: Clock> ImportMetaobjectsFromFileUseCase<G, C> {
    /// The gateway the use case works through.
    pub closed spec fn gateway_of(self) -> G {
        self.gateway
    }

    /// The clock the use case waits and stamps reports with.
    pub closed spec fn clock_of(self) -> C {
        self.clock
    }

    pub fn new(gateway: G, clock: C) -> (r: Self)
        ensures
            r.gateway_of() == gateway,
            r.clock_of() == clock,
    {
        ImportMetaobjectsFromFileUseCase { gateway, clock }
    }

    /// Imports the plan level by level: at the start of a level the existing definitions and
    /// the `type -> id` map are fetched again; each definition is created, updated or left
    /// (see `decide_metaobject_import`); batches of ten are a second apart, and between levels
    /// the gateway's cache is reset. Any error ends the import. The report is written to
    /// `reports/metaobject-definitions:import/metaobject-import-report-<millis>.json`.
    pub fn execute<L: Logger>(&self, plan: &MetaobjectImportPlan, repo: &mut impl FileRepo, codec: &impl JsonCodec, logger: &L) -> (r: Result<MetaobjectImportReport, AppError>)
        ensures
            r matches Ok(rep) ==> levels_follow_fetches(rep.items@, plan_levels_view(plan.levels@), &self.gateway_of(), logger),
            r matches Ok(rep) ==> {
                &&& item_types(rep.items@) == flat_types(plan_levels_view(plan.levels@))
                &&& rep.summary.total == plan.total
                &&& report_consistent(rep)
            },
            r matches Ok(rep) ==> levels_follow_rules(rep.items@, plan_levels_view(plan.levels@)),
            r matches Ok(rep) ==> rep.items@.len() == flat_types(plan_levels_view(plan.levels@)).len()
                && rep.summary.created + rep.summary.updated + rep.summary.no_change == rep.items@.len(),
    {
        let ghost lv = plan_levels_view(plan.levels@);
        let mut report = MetaobjectImportReport {
            summary: MetaobjectImportSummary { created: 0, updated: 0, no_change: 0, failed: 0, total: plan.total },
            items: Vec::new(),
        };
        let batch_size: usize = 10;
        let delay_ms: u64 = 1000;
        assert(item_types(report.items@) =~= flat_types(lv.take(0)));
        let mut level_idx: usize = 0;
        while level_idx < plan.levels.len()
            invariant
                level_idx <= plan.levels.len(),
                lv == plan_levels_view(plan.levels@),
                batch_size == 10,
                item_types(report.items@) == flat_types(lv.take(level_idx as int)),
                report.summary.total == plan.total,
                report_consistent(report),
                levels_follow_rules(report.items@, lv.take(level_idx as int)),
                levels_follow_fetches(report.items@, lv.take(level_idx as int), &self.gateway_of(), logger),
            decreases plan.levels.len() - level_idx,
        {
            let level_defs = &plan.levels[level_idx];
            let list = fetch_existing_metaobject_definitions::<G, L>;
            let list_result = list(&self.gateway, logger);
            let ghost list_ok = list_result;
            let existing = list_result?;
            let fetch = fetch_metaobject_type_to_id_map::<G, L>;
            let fetch_result = fetch(&self.gateway, logger);
            let ghost fetch_ok = fetch_result;
            let type_to_id = fetch_result?;
            logger.log(LogLevel::Info, "Processing import level", &[
                LogField::new("level", usize_to_decimal(level_idx)),
                LogField::new("items", usize_to_decimal(level_defs.len())),
            ]);
            let total = level_defs.len();
            let total_batches = batch_count(total);
            let ghost base = item_types(report.items@);
            let ghost base_items = report.items@;
            let ghost exs = shopify_definitions_view(existing@);
            let ghost m = type_to_id@;
            let ghost dv = definition_configs_view(level_defs@);
            proof {
                assert(dv == lv[level_idx as int]);
                assert(dv.take(0).map_values(|d: DefinitionConfigView| d.typ) =~= Seq::<Seq<char>>::empty());
                assert(base + dv.take(0).map_values(|d: DefinitionConfigView| d.typ) =~= base);
            }
            let mut j: usize = 0;
            while j < total
                invariant
                    j <= total,
                    total == level_defs.len(),
                    batch_size == 10,
                    dv == definition_configs_view(level_defs@),
                    item_types(report.items@) == base + dv.take(j as int).map_values(|d: DefinitionConfigView| d.typ),
                    report.summary.total == plan.total,
                    report_consistent(report),
                    report.items@.len() == base_items.len() + j,
                    report.items@.take(base_items.len() as int) == base_items,
                    exs == shopify_definitions_view(existing@),
                    m == type_to_id@,
                    level_follows_rules(report.items@.skip(base_items.len() as int), dv.take(j as int), exs, m),
                decreases total - j,
            {
                let batch_number = j / batch_size + 1;
                if j % batch_size == 0 {
                    let label = concat3(usize_to_decimal(batch_number).as_str(), "/", usize_to_decimal(total_batches).as_str());
                    let in_batch = if total - j < batch_size { total - j } else { batch_size };
                    logger.log(LogLevel::Info, "Processing batch", &[
                        LogField::new("level", usize_to_decimal(level_idx)),
                        LogField::new("batch", label),
                        LogField::new("batch_size", usize_to_decimal(in_batch)),
                    ]);
                }
                let cfg = &level_defs[j];
                let found = find_existing(&existing, cfg.typ.as_str());
                proof {
                    match found {
                        Some(k) => {
                            assert forall|q: int| k < q < exs.len() implies (#[trigger] exs[q]).typ != cfg.typ@ by {
                                assert(exs[q] == existing@[q]@);
                            }
                            assert(exs[k as int] == existing@[k as int]@);
                            lemma_last_of_type(exs, cfg.typ@, k as int);
                        },
                        None => {
                            assert forall|q: int| -1 < q < exs.len() implies (#[trigger] exs[q]).typ != cfg.typ@ by {
                                assert(exs[q] == existing@[q]@);
                            }
                            lemma_last_of_type(exs, cfg.typ@, -1);
                        },
                    }
                }
                let ex = match found {
                    Some(k) => Some(&existing[k]),
                    None => None,
                };
                assert(last_of_type(exs, cfg.typ@) == match ex {
                    Some(e) => Some(e@),
                    None => None::<ShopifyDefinitionView>,
                });
                let step = decide_metaobject_import(cfg, ex, &type_to_id, logger)?;
                let action = match step {
                    MetaobjectImportStep::Create(input) => {
                        self.gateway.metaobject_definition_create(&input, logger)?;
                        MetaobjectImportAction::Create
                    },
                    MetaobjectImportStep::Update { id, input } => {
                        self.gateway.metaobject_definition_update(id.as_str(), &input, logger)?;
                        MetaobjectImportAction::Update
                    },
                    MetaobjectImportStep::NoChange => MetaobjectImportAction::NoChange,
                };
                let item = MetaobjectImportItemReport { typ: cfg.typ.clone(), action, message: None };
                let ghost before = report.items@;
                report.items.push(item);
                let n_items = report.items.len();
                proof {
                    assert(n_items == report.items@.len());
                    lemma_count_push(before, item, MetaobjectImportAction::Create);
                    lemma_count_push(before, item, MetaobjectImportAction::Update);
                    lemma_count_push(before, item, MetaobjectImportAction::NoChange);
                    lemma_count_le(report.items@, MetaobjectImportAction::Create);
                    lemma_count_le(report.items@, MetaobjectImportAction::Update);
                    lemma_count_le(report.items@, MetaobjectImportAction::NoChange);
                    lemma_map_values_push(before, item, |x: MetaobjectImportItemReport| x.typ@);
                    lemma_take_push(dv, j as int);
                    lemma_map_values_push(dv.take(j as int), dv[j as int], |d: DefinitionConfigView| d.typ);
                    assert(dv[j as int].typ == cfg.typ@);
                    assert(report.items@.last() == item);
                }
                match action {
                    MetaobjectImportAction::Create => {
                        report.summary.created = report.summary.created + 1;
                    },
                    MetaobjectImportAction::Update => {
                        report.summary.updated = report.summary.updated + 1;
                    },
                    MetaobjectImportAction::NoChange => {
                        report.summary.no_change = report.summary.no_change + 1;
                    },
                    MetaobjectImportAction::Failed => {},
                }
                logger.log(LogLevel::Info, "Metaobject processed", &[
                    LogField::new("type", cfg.typ.clone()),
                    LogField::new("action", action_label(action).to_string()),
                ]);
                proof {
                    assert forall|k: int| 0 <= k < report.items@.len() implies (#[trigger] report.items@[k]).action != MetaobjectImportAction::Failed
                        && report.items@[k].message is None by {
                        if k < before.len() {
                            assert(report.items@[k] == before[k]);
                        }
                    }
                    assert(item_types(report.items@) =~= base + dv.take(j + 1).map_values(|d: DefinitionConfigView| d.typ));
                    let b = base_items.len() as int;
                    assert(report.items@.take(b) =~= base_items);
                    let tail = report.items@.skip(b);
                    let prev = before.skip(b);
                    assert(tail =~= prev.push(item));
                    assert(dv.take(j + 1) =~= dv.take(j as int).push(dv[j as int]));
                    assert(dv[j as int] == cfg@);
                    assert(item.action == planned_metaobject_action(cfg@, last_of_type(exs, cfg.typ@), m));
                    assert forall|k: int| 0 <= k < j + 1 implies (#[trigger] tail[k]).typ@ == dv.take(j + 1)[k].typ
                        && tail[k].action == planned_metaobject_action(dv.take(j + 1)[k], last_of_type(exs, dv.take(j + 1)[k].typ), m) by {
                        if k < j {
                            assert(tail[k] == prev[k]);
                            assert(dv.take(j + 1)[k] == dv.take(j as int)[k]);
                        }
                    }
                }
                let end_of_batch = (j + 1) % batch_size == 0 || j + 1 == total;
                if end_of_batch && batch_number < total_batches {
                    logger.log(LogLevel::Info, "Waiting before next batch", &[
                        LogField::new("level", usize_to_decimal(level_idx)),
                        LogField::new("sleep_ms", "1000".to_string()),
                    ]);
                    self.clock.sleep_millis(delay_ms);
                }
                j = j + 1;
            }
            proof {
                assert(dv.take(total as int) =~= dv);
                lemma_take_push(lv, level_idx as int);
                assert(lv.take(level_idx + 1).drop_last() =~= lv.take(level_idx as int));
                let lv2 = lv.take(level_idx + 1);
                assert(lv2.last() == dv);
                let n = report.items@.len() - dv.len();
                assert(n == base_items.len());
                assert(report.items@.take(n) == base_items);
                assert(level_follows_rules(report.items@.skip(n), lv2.last(), exs, m));
                assert(levels_follow_rules(report.items@, lv2));
                assert(list_ok == Ok::<Vec<ShopifyMetaobjectDefinition>, AppError>(existing));
                assert(fetch_ok == Ok::<StringMap, AppError>(type_to_id));
                assert(call_ensures(fetch_existing_metaobject_definitions::<G, L>, (&self.gateway_of(), logger),
                    Ok::<Vec<ShopifyMetaobjectDefinition>, AppError>(existing)));
                assert(call_ensures(fetch_metaobject_type_to_id_map::<G, L>, (&self.gateway_of(), logger),
                    Ok::<StringMap, AppError>(type_to_id)));
                assert(levels_follow_fetches(report.items@, lv2, &self.gateway_of(), logger));
            }
            if level_idx + 1 < plan.levels.len() {
                logger.log(LogLevel::Info, "Waiting before next level", &[
                    LogField::new("next_level", usize_to_decimal(level_idx + 1)),
                    LogField::new("sleep_ms", "1000".to_string()),
                ]);
                self.gateway.reset_metaobject_cache();
                self.clock.sleep_millis(delay_ms);
            }
            level_idx = level_idx + 1;
        }
        assert(lv.take(plan.levels.len() as int) =~= lv);
        proof {
            lemma_import_report_totals(report);
            assert(item_types(report.items@).len() == report.items@.len());
        }
        let ts = self.clock.now_timestamp_millis();
        let report_path = metaobject_report_file(ts);
        let out = match codec.metaobject_report_text(&report) {
            Ok(t) => t,
            Err(m) => {
                return Err(AppError::Json(m));
            },
        };
        repo.write_text(report_path.as_str(), out.as_str())?;
        Ok(report)
    }
}


/// One call of the gateway's `list_existing_metaobject_definitions`. Nothing is known of the
/// result; the import states, through `call_ensures` of this function, what it does with
/// whatever came back.
pub fn fetch_existing_metaobject_definitions<G: MetaobjectImportGateway, L: Logger>(gateway: &G, logger: &L) -> Result<Vec<ShopifyMetaobjectDefinition>, AppError> {
    gateway.list_existing_metaobject_definitions(logger)
}

/// The items are the levels' items, level after level, each level following the decision
/// rules for what one listing of the existing definitions and one call of the `type -> id` map
/// of `gateway` gave at its start.
pub open spec fn levels_follow_fetches<G: MetaobjectImportGateway, L: Logger>(
    items: Seq<MetaobjectImportItemReport>,
    lv: Seq<Seq<DefinitionConfigView>>,
    gateway: &G,
    logger: &L,
) -> bool
    decreases lv.len(),
{
    if lv.len() == 0 {
        items.len() == 0
    } else {
        let n = items.len() - lv.last().len();
        &&& n >= 0
        &&& levels_follow_fetches(items.take(n), lv.drop_last(), gateway, logger)
        &&& exists|exs: Vec<ShopifyMetaobjectDefinition>|
            #[trigger] call_ensures(fetch_existing_metaobject_definitions::<G, L>, (gateway, logger), Ok::<Vec<ShopifyMetaobjectDefinition>, AppError>(exs))
            && exists|m: StringMap|
                #[trigger] call_ensures(fetch_metaobject_type_to_id_map::<G, L>, (gateway, logger), Ok::<StringMap, AppError>(m))
                && level_follows_rules(items.skip(n), lv.last(), shopify_definitions_view(exs@), m@)
    }
}

/// Export then import gives back a definition-id rule: a `metaobject_definition_id` rule that
/// export turned into a type is resolved to the same id again when the target store maps that
/// type back to the id.
pub proof fn lemma_definition_id_round_trip(r: RuleView, id_to_type: Map<Seq<char>, Seq<char>>, type_to_id: Map<Seq<char>, Seq<char>>)
    requires
        r.name == id_rule_name(),
        r.value matches Some(id) && id_to_type.contains_key(id) && type_to_id.contains_key(id_to_type[id])
            && type_to_id[id_to_type[id]] == id,
    ensures
        resolved_rule(super::export::exported_metaobject_rule(r, id_to_type), type_to_id) == Ok::<RuleView, Seq<char>>(r),
{
    reveal_strlit("metaobject_definition_id");
    reveal_strlit("metaobject_definition_ids");
    assert(id_rule_name().len() != ids_rule_name().len());
}

proof fn lemma_keep_in_member(s: Seq<Seq<char>>, set: Set<Seq<char>>, x: Seq<char>)
    requires
        keep_in(s, set).contains(x),
    ensures
        set.contains(x),
    decreases s.len(),
{
    if s.len() > 0 {
        if set.contains(s.last()) {
            let k = keep_in(s.drop_last(), set);
            if x != s.last() {
                let j = choose|j: int| 0 <= j < k.push(s.last()).len() && k.push(s.last())[j] == x;
                assert(k[j] == x);
                lemma_keep_in_member(s.drop_last(), set, x);
            }
        } else {
            lemma_keep_in_member(s.drop_last(), set, x);
        }
    }
}

/// The keys of a dependency map are exactly its listed keys.
proof fn lemma_key_list_member(g: DepsMap, k: Seq<char>)
    ensures
        key_list(g).contains(k) <==> g@.contains_key(k),
{
    crate::maps::lemma_lookup_some_iff_key(g.entries_view(), k);
}

/// In a plan, a definition's dependency on another type of the same file is imported in an
/// earlier level.
pub proof fn lemma_plan_dependencies_first(
    p: MetaobjectImportPlan,
    ds: Seq<DefinitionConfigView>,
    g: DepsMap,
    lt: Seq<Seq<Seq<char>>>,
    m: Map<Seq<char>, Seq<char>>,
    i: int,
    t: Seq<char>,
    c: Seq<char>,
)
    requires
        plan_of(p, ds, g, lt, m),
        0 <= i < lt.len(),
        lt[i].contains(t),
        children(g@, t).contains(c),
    ensures
        exists|j: int| 0 <= j < i && #[trigger] lt[j].contains(c),
{
    broadcast use vstd::seq_lib::group_to_multiset_ensures;
    let h = choose|h: Map<Seq<char>, nat>| #![trigger valid_heights(g@, h)]
        valid_heights(g@, h) && g@.dom().subset_of(h.dom()) && lt == levels_of(sort_seq(key_list(g)), h);
    let ks = sort_seq(key_list(g));
    crate::sorting::lemma_sort_seq_props(key_list(g));
    let es = internal_dep_entries(ds);
    // `c` is a type of the file, so a key of `g`.
    assert(g@.contains_key(t));
    crate::maps::lemma_lookup_some_entry(es, t);
    let e = choose|e: int| 0 <= e < es.len() && es[e] == (t, lookup(es, t)->0);
    assert(es[e].1 == keep_in(metaobject_deps(ds[e]), def_types(ds)));
    lemma_keep_in_member(metaobject_deps(ds[e]), def_types(ds), c);
    let tys = ds.map_values(|d: DefinitionConfigView| d.typ);
    assert(tys.to_set().contains(c));
    let q = choose|q: int| 0 <= q < tys.len() && tys[q] == c;
    assert(keys_of(es)[q] == c);
    crate::maps::lemma_lookup_some_iff_key(es, c);
    lemma_key_list_member(g, c);
    assert(key_list(g).to_multiset().count(c) > 0);
    assert(ks.contains(c));
    assert forall|k: Seq<char>| ks.contains(k) implies h.contains_key(k) by {
        assert(ks.to_multiset().count(k) > 0);
        lemma_key_list_member(g, k);
    }
    lemma_levels_respect_dependencies(g@, h, ks, i, t, c);
}


/// The configuration that an exported field reads back as from a definitions file.
pub open spec fn field_config_of_export(f: ExportedFieldView) -> FieldConfigView {
    FieldConfigView {
        key: f.key,
        name: f.name,
        typ: f.typ,
        required: f.required,
        description: f.description,
        validations: f.validations,
    }
}

/// The configuration that an exported definition reads back as from a definitions file.
pub open spec fn config_of_export(e: ExportedDefinitionView) -> DefinitionConfigView {
    DefinitionConfigView {
        typ: e.typ,
        name: e.name,
        field_definitions: e.field_definitions.map_values(|f: ExportedFieldView| field_config_of_export(f)),
        description: e.description,
        display_name_key: e.display_name_key,
        access: e.access,
        capabilities: e.capabilities,
    }
}

/// A listed rule comes back unchanged from export (ids to types through `id_to_type`) and
/// import (types to ids through `type_to_id`): an id that export turns into a type is mapped
/// back to the same id; an id list that export turns into a type list is resolved back to a list
/// whose JSON text is the original value; other rules must already hold ids of the store and no
/// types.
pub open spec fn rule_round_trips(r: RuleView, id_to_type: Map<Seq<char>, Seq<char>>, type_to_id: Map<Seq<char>, Seq<char>>) -> bool {
    if r.name == ids_rule_name() && r.value is Some && json_string_array(r.value->0) is Some
        && super::export::all_known(json_string_array(r.value->0)->0, id_to_type) {
        let t = json_string_array_text(json_string_array(r.value->0)->0.map_values(|id: Seq<char>| id_to_type[id]));
        match resolved_type_list(json_string_array(t), t, type_to_id) {
            Ok(ids) => json_string_array_text(ids) == r.value->0,
            Err(_) => false,
        }
    } else if r.name == id_rule_name() && r.value is Some && id_to_type.contains_key(r.value->0) {
        type_to_id.contains_key(id_to_type[r.value->0]) && type_to_id[id_to_type[r.value->0]] == r.value->0
    } else {
        &&& (r.name == type_rule_name() ==> r.value is None)
        &&& r.name != types_rule_name()
        &&& (r.name == id_rule_name() && r.value is Some ==> has_value(type_to_id, r.value->0))
        &&& (r.name == ids_rule_name() && r.value is Some
            ==> id_list_problem(json_string_array(r.value->0), r.value->0, type_to_id) is None)
    }
}

/// A rule comes back unchanged from export and import exactly when it round-trips.
pub proof fn lemma_rule_round_trip(r: RuleView, id_to_type: Map<Seq<char>, Seq<char>>, type_to_id: Map<Seq<char>, Seq<char>>)
    ensures
        resolved_rule(super::export::exported_metaobject_rule(r, id_to_type), type_to_id) == Ok::<RuleView, Seq<char>>(r)
            <==> rule_round_trips(r, id_to_type, type_to_id),
{
    reveal_strlit("metaobject_definition_type");
    reveal_strlit("metaobject_definition_types");
    reveal_strlit("metaobject_definition_id");
    reveal_strlit("metaobject_definition_ids");
    assert(type_rule_name().len() != id_rule_name().len());
    assert(types_rule_name().len() != ids_rule_name().len());
    let e = super::export::exported_metaobject_rule(r, id_to_type);
    if r.name == ids_rule_name() && r.value is Some && json_string_array(r.value->0) is Some
        && super::export::all_known(json_string_array(r.value->0)->0, id_to_type) {
        let t = json_string_array_text(json_string_array(r.value->0)->0.map_values(|id: Seq<char>| id_to_type[id]));
        assert(e == RuleView { name: types_rule_name(), value: Some(t) });
    } else if r.name == id_rule_name() && r.value is Some && id_to_type.contains_key(r.value->0) {
        let t = id_to_type[r.value->0];
        assert(e == RuleView { name: type_rule_name(), value: Some(t) });
        if type_to_id.contains_key(t) {
            assert(resolved_rule(e, type_to_id) == Ok::<RuleView, Seq<char>>(RuleView { name: id_rule_name(), value: Some(type_to_id[t]) }));
        }
    } else {
        assert(e == r);
        if r.name == type_rule_name() && r.value is Some {
            assert(resolved_rule(e, type_to_id) != Ok::<RuleView, Seq<char>>(r));
        } else if r.name == types_rule_name() {
            assert(resolved_rule(e, type_to_id) != Ok::<RuleView, Seq<char>>(r));
        }
    }
}

proof fn lemma_rules_round_trip(rs: Seq<RuleView>, id_to_type: Map<Seq<char>, Seq<char>>, type_to_id: Map<Seq<char>, Seq<char>>)
    requires
        forall|j: int| 0 <= j < rs.len() ==> #[trigger] rule_round_trips(rs[j], id_to_type, type_to_id),
    ensures
        resolved_rules(rs.map_values(|x: RuleView| super::export::exported_metaobject_rule(x, id_to_type)), type_to_id)
            == Ok::<Seq<RuleView>, Seq<char>>(rs),
    decreases rs.len(),
{
    if rs.len() > 0 {
        let es = rs.map_values(|x: RuleView| super::export::exported_metaobject_rule(x, id_to_type));
        let d = rs.drop_last();
        assert forall|j: int| 0 <= j < d.len() implies #[trigger] rule_round_trips(d[j], id_to_type, type_to_id) by {
            assert(d[j] == rs[j]);
        }
        lemma_rules_round_trip(d, id_to_type, type_to_id);
        assert(es.drop_last() =~= d.map_values(|x: RuleView| super::export::exported_metaobject_rule(x, id_to_type)));
        assert(rule_round_trips(rs[rs.len() - 1], id_to_type, type_to_id));
        lemma_rule_round_trip(rs.last(), id_to_type, type_to_id);
        assert(es.last() == super::export::exported_metaobject_rule(rs.last(), id_to_type));
        assert(resolved_rules(es.drop_last(), type_to_id) == Ok::<Seq<RuleView>, Seq<char>>(d));
        assert(rs =~= d.push(rs.last()));
    } else {
        assert(rs =~= Seq::<RuleView>::empty());
    }
}

proof fn lemma_last_field_of_export(
    fs: Seq<ShopifyFieldView>,
    id_to_type: Map<Seq<char>, Seq<char>>,
    k: Seq<char>,
)
    ensures
        last_config_field(
            fs.map_values(|f: ShopifyFieldView| field_config_of_export(super::export::exported_field(f, id_to_type))),
            k,
        ) == match last_shopify_field(fs, k) {
            Some(f) => Some(field_config_of_export(super::export::exported_field(f, id_to_type))),
            None => None::<FieldConfigView>,
        },
    decreases fs.len(),
{
    if fs.len() > 0 {
        let g = fs.map_values(|f: ShopifyFieldView| field_config_of_export(super::export::exported_field(f, id_to_type)));
        assert(g.drop_last() =~= fs.drop_last().map_values(
            |f: ShopifyFieldView| field_config_of_export(super::export::exported_field(f, id_to_type)),
        ));
        lemma_last_field_of_export(fs.drop_last(), id_to_type, k);
    }
}

/// Importing a definition just exported from the same store changes nothing, when each of its
/// rules round-trips (see `rule_round_trips`).
pub proof fn lemma_reimport_definition_unchanged(
    d: ShopifyDefinitionView,
    id_to_type: Map<Seq<char>, Seq<char>>,
    type_to_id: Map<Seq<char>, Seq<char>>,
)
    requires
        forall|i: int, j: int| 0 <= i < d.field_definitions.len() && 0 <= j < d.field_definitions[i].validations.len()
            ==> #[trigger] rule_round_trips(d.field_definitions[i].validations[j], id_to_type, type_to_id),
    ensures
        !definition_changed(d, config_of_export(super::export::exported_definition(d, id_to_type)), type_to_id),
{
    let cfg = config_of_export(super::export::exported_definition(d, id_to_type));
    let fs = d.field_definitions;
    let cf = cfg.field_definitions;
    assert(cf =~= fs.map_values(|f: ShopifyFieldView| field_config_of_export(super::export::exported_field(f, id_to_type))));
    assert forall|i: int| 0 <= i < cf.len() implies !#[trigger] key_changed(fs, cf, cf[i].key, type_to_id) by {
        let k = cf[i].key;
        assert(k == fs[i].key);
        lemma_last_field_of_export(fs, id_to_type, k);
        lemma_last_shopify_field_found(fs, k, i);
        let ef = last_shopify_field(fs, k)->0;
        let q = choose|q: int| 0 <= q < fs.len() && fs[q] == ef;
        assert forall|j: int| 0 <= j < ef.validations.len() implies #[trigger] rule_round_trips(ef.validations[j], id_to_type, type_to_id) by {
            assert(rule_round_trips(fs[q].validations[j], id_to_type, type_to_id));
        }
        lemma_rules_round_trip(ef.validations, id_to_type, type_to_id);
    }
    assert forall|i: int| 0 <= i < fs.len() implies config_field_keys(cf).contains(#[trigger] fs[i].key) by {
        assert(cf[i].key == fs[i].key);
        assert(cf.map_values(|f: FieldConfigView| f.key)[i] == fs[i].key);
    }
}

proof fn lemma_last_shopify_field_found(fs: Seq<ShopifyFieldView>, k: Seq<char>, i: int)
    requires
        0 <= i < fs.len(),
        fs[i].key == k,
    ensures
        last_shopify_field(fs, k) matches Some(f) && exists|q: int| 0 <= q < fs.len() && fs[q] == f,
    decreases fs.len(),
{
    if fs.last().key == k {
        assert(fs[fs.len() - 1] == fs.last());
    } else {
        assert(i < fs.len() - 1);
        assert(fs.drop_last()[i] == fs[i]);
        lemma_last_shopify_field_found(fs.drop_last(), k, i);
        let f = last_shopify_field(fs.drop_last(), k)->0;
        let q = choose|q: int| 0 <= q < fs.drop_last().len() && fs.drop_last()[q] == f;
        assert(fs[q] == f);
    }
}


/// Access and capabilities never count as a change of a metaobject definition.
pub proof fn lemma_changes_ignore_access_and_capabilities(
    ex: ShopifyDefinitionView,
    cfg: DefinitionConfigView,
    m: Map<Seq<char>, Seq<char>>,
    ex_access: Option<AccessView>,
    ex_capabilities: Option<MetaobjectCapabilitiesConfig>,
    cfg_access: Option<AccessView>,
    cfg_capabilities: Option<MetaobjectCapabilitiesConfig>,
)
    ensures
        definition_changed(ex, cfg, m) == definition_changed(
            ShopifyDefinitionView { access: ex_access, capabilities: ex_capabilities, ..ex },
            DefinitionConfigView { access: cfg_access, capabilities: cfg_capabilities, ..cfg },
            m,
        ),
{
}


proof fn lemma_last_shopify_unique(fs: Seq<ShopifyFieldView>, i: int)
    requires
        fs.map_values(|f: ShopifyFieldView| f.key).no_duplicates(),
        0 <= i < fs.len(),
    ensures
        last_shopify_field(fs, fs[i].key) == Some(fs[i]),
    decreases fs.len(),
{
    let ks = fs.map_values(|f: ShopifyFieldView| f.key);
    if i < fs.len() - 1 {
        assert(ks[i] == fs[i].key && ks[fs.len() - 1] == fs.last().key);
        let d = fs.drop_last();
        assert(d.map_values(|f: ShopifyFieldView| f.key) =~= ks.drop_last());
        assert(d[i] == fs[i]);
        lemma_last_shopify_unique(d, i);
    }
}

proof fn lemma_last_config_unique(fs: Seq<FieldConfigView>, i: int)
    requires
        fs.map_values(|f: FieldConfigView| f.key).no_duplicates(),
        0 <= i < fs.len(),
    ensures
        last_config_field(fs, fs[i].key) == Some(fs[i]),
    decreases fs.len(),
{
    let ks = fs.map_values(|f: FieldConfigView| f.key);
    if i < fs.len() - 1 {
        assert(ks[i] == fs[i].key && ks[fs.len() - 1] == fs.last().key);
        let d = fs.drop_last();
        assert(d.map_values(|f: FieldConfigView| f.key) =~= ks.drop_last());
        assert(d[i] == fs[i]);
        lemma_last_config_unique(d, i);
    }
}

proof fn lemma_last_shopify_some(fs: Seq<ShopifyFieldView>, k: Seq<char>)
    ensures
        last_shopify_field(fs, k) matches Some(f) ==> f.key == k && exists|q: int| 0 <= q < fs.len() && fs[q] == f,
        last_shopify_field(fs, k) is None ==> forall|q: int| 0 <= q < fs.len() ==> (#[trigger] fs[q]).key != k,
    decreases fs.len(),
{
    if fs.len() > 0 {
        let d = fs.drop_last();
        lemma_last_shopify_some(d, k);
        if fs.last().key == k {
            assert(fs[fs.len() - 1] == fs.last());
        } else {
            if let Some(f) = last_shopify_field(d, k) {
                let q = choose|q: int| 0 <= q < d.len() && d[q] == f;
                assert(fs[q] == f);
            } else {
                assert forall|q: int| 0 <= q < fs.len() implies (#[trigger] fs[q]).key != k by {
                    if q < fs.len() - 1 {
                        assert(d[q] == fs[q]);
                    }
                }
            }
        }
    }
}

/// With field keys unique on both sides, an existing metaobject definition needs an update
/// exactly when its name, normalised description or normalised display-name key differs, its
/// field keys differ from the configured ones, or a field with the same key on both sides
/// differs (see `field_differs`).
pub proof fn lemma_change_by_keys(ex: ShopifyDefinitionView, cfg: DefinitionConfigView, m: Map<Seq<char>, Seq<char>>)
    requires
        ex.field_definitions.map_values(|f: ShopifyFieldView| f.key).no_duplicates(),
        cfg.field_definitions.map_values(|f: FieldConfigView| f.key).no_duplicates(),
    ensures
        definition_changed(ex, cfg, m) == (
            ex.name != cfg.name
            || normalized_text(ex.description) != normalized_text(cfg.description)
            || normalized_text(ex.display_name_key) != normalized_text(cfg.display_name_key)
            || shopify_field_keys(ex.field_definitions) != config_field_keys(cfg.field_definitions)
            || exists|i: int, j: int| 0 <= i < ex.field_definitions.len() && 0 <= j < cfg.field_definitions.len()
                && ex.field_definitions[i].key == cfg.field_definitions[j].key
                && #[trigger] field_differs(ex.field_definitions[i], cfg.field_definitions[j], m)
        ),
{
    let e = ex.field_definitions;
    let c = cfg.field_definitions;
    let ek = e.map_values(|f: ShopifyFieldView| f.key);
    let ck = c.map_values(|f: FieldConfigView| f.key);
    let x = exists|i: int| 0 <= i < c.len() && #[trigger] key_changed(e, c, c[i].key, m);
    let y = exists|i: int| 0 <= i < e.len() && !config_field_keys(c).contains(#[trigger] e[i].key);
    let kd = shopify_field_keys(e) != config_field_keys(c);
    let p = exists|i: int, j: int| 0 <= i < e.len() && 0 <= j < c.len() && e[i].key == c[j].key
        && #[trigger] field_differs(e[i], c[j], m);
    ek.unique_seq_to_set();
    ck.unique_seq_to_set();
    // Left to right.
    if e.len() != c.len() {
        assert(kd);
    }
    if x {
        let i = choose|i: int| 0 <= i < c.len() && #[trigger] key_changed(e, c, c[i].key, m);
        let k = c[i].key;
        lemma_last_config_unique(c, i);
        lemma_last_shopify_some(e, k);
        assert(ck[i] == k);
        assert(config_field_keys(c).contains(k));
        match last_shopify_field(e, k) {
            None => {
                if shopify_field_keys(e).contains(k) {
                    let q = choose|q: int| 0 <= q < ek.len() && ek[q] == k;
                    assert(e[q].key == k);
                }
                assert(kd);
            },
            Some(f) => {
                let q = choose|q: int| 0 <= q < e.len() && e[q] == f;
                assert(field_differs(e[q], c[i], m));
                assert(p);
            },
        }
    }
    if y {
        let i = choose|i: int| 0 <= i < e.len() && !config_field_keys(c).contains(#[trigger] e[i].key);
        assert(ek[i] == e[i].key);
        assert(shopify_field_keys(e).contains(e[i].key));
        assert(kd);
    }
    // Right to left.
    if kd {
        if exists|k: Seq<char>| config_field_keys(c).contains(k) && !shopify_field_keys(e).contains(k) {
            let k = choose|k: Seq<char>| config_field_keys(c).contains(k) && !shopify_field_keys(e).contains(k);
            let i = choose|i: int| 0 <= i < ck.len() && ck[i] == k;
            assert(c[i].key == k);
            lemma_last_shopify_some(e, k);
            if let Some(f) = last_shopify_field(e, k) {
                let q = choose|q: int| 0 <= q < e.len() && e[q] == f;
                assert(ek[q] == k);
            }
            assert(key_changed(e, c, c[i].key, m));
            assert(x);
        } else {
            assert(!(shopify_field_keys(e) =~= config_field_keys(c)));
            let k = choose|k: Seq<char>| shopify_field_keys(e).contains(k) != config_field_keys(c).contains(k);
            let i = choose|i: int| 0 <= i < ek.len() && ek[i] == k;
            assert(e[i].key == k);
            assert(y);
        }
    }
    if p {
        let (i, j) = choose|i: int, j: int| 0 <= i < e.len() && 0 <= j < c.len() && e[i].key == c[j].key
            && #[trigger] field_differs(e[i], c[j], m);
        lemma_last_shopify_unique(e, i);
        lemma_last_config_unique(c, j);
        assert(key_changed(e, c, c[j].key, m));
        assert(x);
    }
}


/// The field operations of a successful update input: one per configured field, in order; an
/// update of the field's key where the existing definition has a field with that key, a
/// creation of the field (its key and type) otherwise. Fields only the existing definition has
/// get no operation.
pub proof fn lemma_field_operations_by_key(fs: Seq<FieldConfigView>, existing: Set<Seq<char>>, m: Map<Seq<char>, Seq<char>>)
    requires
        field_operations(fs, existing, m) is Ok,
    ensures
        field_operations(fs, existing, m)->Ok_0.len() == fs.len(),
        forall|i: int| 0 <= i < fs.len() ==> match #[trigger] field_operations(fs, existing, m)->Ok_0[i] {
            FieldOperationView::Update(u) => existing.contains(fs[i].key) && u.key == fs[i].key,
            FieldOperationView::Create(c) => !existing.contains(fs[i].key) && c.key == fs[i].key && c.typ == fs[i].typ,
        },
    decreases fs.len(),
{
    if fs.len() > 0 {
        let d = fs.drop_last();
        lemma_field_operations_by_key(d, existing, m);
        let ops = field_operations(fs, existing, m)->Ok_0;
        let prev = field_operations(d, existing, m)->Ok_0;
        assert forall|i: int| 0 <= i < fs.len() implies match #[trigger] field_operations(fs, existing, m)->Ok_0[i] {
            FieldOperationView::Update(u) => existing.contains(fs[i].key) && u.key == fs[i].key,
            FieldOperationView::Create(c) => !existing.contains(fs[i].key) && c.key == fs[i].key && c.typ == fs[i].typ,
        } by {
            if i < d.len() {
                assert(ops[i] == prev[i]);
                assert(fs[i] == d[i]);
            }
        }
    }
}

/// The update input of a definition keeps its name and capabilities, normalizes its
/// description and display-name key, and holds one field operation per configured field (see
/// `lemma_field_operations_by_key`).
pub proof fn lemma_update_input_fields(d: DefinitionConfigView, ex: ShopifyDefinitionView, m: Map<Seq<char>, Seq<char>>)
    requires
        update_input(d, ex, m) is Ok,
    ensures
        update_input(d, ex, m)->Ok_0.name == d.name,
        update_input(d, ex, m)->Ok_0.description == normalized_text(d.description),
        update_input(d, ex, m)->Ok_0.display_name_key == normalized_text(d.display_name_key),
        update_input(d, ex, m)->Ok_0.capabilities == d.capabilities,
        update_input(d, ex, m)->Ok_0.field_definitions
            == field_operations(d.field_definitions, shopify_field_keys(ex.field_definitions), m)->Ok_0,
        update_input(d, ex, m)->Ok_0.field_definitions.len() == d.field_definitions.len(),
{
    lemma_field_operations_by_key(d.field_definitions, shopify_field_keys(ex.field_definitions), m);
}

/// Every item has one of the four actions, so their counts add up to the number of items.
proof fn lemma_counts_sum(items: Seq<MetaobjectImportItemReport>)
    ensures
        count_action(items, MetaobjectImportAction::Create) + count_action(items, MetaobjectImportAction::Update)
            + count_action(items, MetaobjectImportAction::NoChange) + count_action(items, MetaobjectImportAction::Failed)
            == items.len(),
    decreases items.len(),
{
    if items.len() > 0 {
        lemma_counts_sum(items.drop_last());
    }
}

/// A consistent metaobject import report fails nothing: every item was created, updated or
/// left unchanged, and those three counts add up to the number of items.
pub proof fn lemma_import_report_totals(rep: MetaobjectImportReport)
    requires
        report_consistent(rep),
    ensures
        rep.summary.failed == 0,
        rep.summary.created + rep.summary.updated + rep.summary.no_change == rep.items@.len(),
        forall|k: int| 0 <= k < rep.items@.len() ==> {
            let a = (#[trigger] rep.items@[k]).action;
            (a == MetaobjectImportAction::Create || a == MetaobjectImportAction::Update || a == MetaobjectImportAction::NoChange)
                && rep.items@[k].message is None
        },
{
    lemma_counts_sum(rep.items@);
    let items = rep.items@;
    assert forall|k: int| 0 <= k < items.len() implies (#[trigger] items[k]).action != MetaobjectImportAction::Failed by {}
    lemma_count_absent(items, MetaobjectImportAction::Failed);
}

/// A list in which no item has action `a` counts none of them.
proof fn lemma_count_absent(items: Seq<MetaobjectImportItemReport>, a: MetaobjectImportAction)
    requires
        forall|k: int| 0 <= k < items.len() ==> (#[trigger] items[k]).action != a,
    ensures
        count_action(items, a) == 0,
    decreases items.len(),
{
    if items.len() > 0 {
        assert(items[items.len() - 1].action != a);
        lemma_count_absent(items.drop_last(), a);
    }
}

/// A type that some definition has has a last definition, of that type.
proof fn lemma_last_definition_some(ds: Seq<DefinitionConfigView>, t: Seq<char>, i: int)
    requires
        0 <= i < ds.len(),
        ds[i].typ == t,
    ensures
        last_definition(ds, t) is Some,
        last_definition(ds, t)->0.typ == t,
    decreases ds.len(),
{
    if ds.last().typ != t {
        assert(ds.drop_last()[i] == ds[i]);
        lemma_last_definition_some(ds.drop_last(), t, i);
    }
}

/// When every type of `ts` has a definition, `definitions_of` gives the last definition of each,
/// in order.
proof fn lemma_definitions_of_all(ts: Seq<Seq<char>>, ds: Seq<DefinitionConfigView>)
    requires
        forall|j: int| 0 <= j < ts.len() ==> last_definition(ds, #[trigger] ts[j]) is Some,
    ensures
        definitions_of(ts, ds).len() == ts.len(),
        forall|j: int| 0 <= j < ts.len() ==> #[trigger] definitions_of(ts, ds)[j] == last_definition(ds, ts[j])->0,
    decreases ts.len(),
{
    if ts.len() > 0 {
        let d = ts.drop_last();
        assert forall|j: int| 0 <= j < d.len() implies last_definition(ds, #[trigger] d[j]) is Some by {
            assert(d[j] == ts[j]);
        }
        assert(last_definition(ds, ts[ts.len() - 1]) is Some);
        lemma_definitions_of_all(d, ds);
        assert forall|j: int| 0 <= j < ts.len() implies #[trigger] definitions_of(ts, ds)[j] == last_definition(ds, ts[j])->0 by {
            if j < d.len() {
                assert(d[j] == ts[j]);
            }
        }
    }
}

/// The plan of a definitions file holds, at level `i` and place `j`, the last definition of the
/// file with the level type `lt[i][j]`; its levels have exactly the level types' shape, and its
/// total is the number of distinct types of the file.
pub proof fn lemma_plan_levels(
    p: MetaobjectImportPlan,
    ds: Seq<DefinitionConfigView>,
    g: DepsMap,
    lt: Seq<Seq<Seq<char>>>,
    m: Map<Seq<char>, Seq<char>>,
    i: int,
    j: int,
)
    requires
        plan_of(p, ds, g, lt, m),
        0 <= i < lt.len(),
        0 <= j < lt[i].len(),
    ensures
        p.total == def_types(ds).len(),
        plan_levels_view(p.levels@).len() == lt.len(),
        plan_levels_view(p.levels@)[i].len() == lt[i].len(),
        last_definition(ds, lt[i][j]) is Some,
        plan_levels_view(p.levels@)[i][j] == last_definition(ds, lt[i][j])->0,
        plan_levels_view(p.levels@)[i][j].typ == lt[i][j],
{
    broadcast use vstd::seq_lib::group_to_multiset_ensures;
    let h = choose|h: Map<Seq<char>, nat>| #![trigger valid_heights(g@, h)]
        valid_heights(g@, h) && g@.dom().subset_of(h.dom()) && lt == levels_of(sort_seq(key_list(g)), h);
    let ks = sort_seq(key_list(g));
    let es = internal_dep_entries(ds);
    crate::sorting::lemma_sort_seq_props(key_list(g));
    crate::maps::lemma_map_of_dom_finite(g.entries_view());
    crate::maps::lemma_map_of_dom_finite(es);
    assert(keys_of(es) =~= ds.map_values(|d: DefinitionConfigView| d.typ));
    let ts = lt[i];
    assert forall|k: int| 0 <= k < ts.len() implies last_definition(ds, #[trigger] ts[k]) is Some
        && last_definition(ds, ts[k])->0.typ == ts[k] by {
        let t = ts[k];
        assert(levels_of(ks, h)[i].contains(t));
        super::deps::lemma_levels_partition(ks, h, t, i, i);
        assert(ks.to_multiset().count(t) > 0);
        assert(key_list(g).contains(t));
        assert(key_list(g).to_set().contains(t));
        assert(g@.dom().contains(t));
        assert(keys_of(es).to_set().contains(t));
        let q = choose|q: int| 0 <= q < keys_of(es).len() && keys_of(es)[q] == t;
        lemma_last_definition_some(ds, t, q);
    }
    lemma_definitions_of_all(ts, ds);
    assert(plan_levels_view(p.levels@) == lt.map_values(|x: Seq<Seq<char>>| definitions_of(x, ds)));
    assert(plan_levels_view(p.levels@)[i] == definitions_of(ts, ds));
}

/// Within one store a definition-id rule survives export and import: when the store lists each
/// id once and each type once (`es`, its `id -> type` entries), a `metaobject_definition_id`
/// rule of a listed id is exported as a type rule and resolved, through the store's
/// `type -> id` map, back to the same rule.
pub proof fn lemma_id_rule_round_trip_same_store(r: RuleView, es: Seq<(Seq<char>, Seq<char>)>)
    requires
        keys_of(es).no_duplicates(),
        keys_of(crate::infra::shopify::swap_pairs(es)).no_duplicates(),
        r.name == id_rule_name(),
        r.value matches Some(id) && map_of(es).contains_key(id),
    ensures
        resolved_rule(super::export::exported_metaobject_rule(r, map_of(es)),
            map_of(crate::infra::shopify::swap_pairs(es))) == Ok::<RuleView, Seq<char>>(r),
{
    let id = r.value->0;
    let sw = crate::infra::shopify::swap_pairs(es);
    crate::maps::lemma_lookup_some_entry(es, id);
    let i = choose|i: int| 0 <= i < es.len() && es[i] == (id, lookup(es, id)->0);
    crate::maps::lemma_lookup_at(es, i);
    assert(sw[i] == (es[i].1, es[i].0));
    crate::maps::lemma_lookup_at(sw, i);
    lemma_definition_id_round_trip(r, map_of(es), map_of(sw));
}

/// With one field per key on each side, a configured field that differs from the existing field
/// with the same key in its required flag, name, type or normalised description makes the
/// definition changed, so the import decides to update it.
pub proof fn lemma_field_difference_means_update(
    ex: ShopifyDefinitionView,
    cfg: DefinitionConfigView,
    m: Map<Seq<char>, Seq<char>>,
    i: int,
    j: int,
)
    requires
        ex.field_definitions.map_values(|f: ShopifyFieldView| f.key).no_duplicates(),
        cfg.field_definitions.map_values(|f: FieldConfigView| f.key).no_duplicates(),
        0 <= i < ex.field_definitions.len(),
        0 <= j < cfg.field_definitions.len(),
        ex.field_definitions[i].key == cfg.field_definitions[j].key,
        ex.field_definitions[i].required != cfg.field_definitions[j].required
            || ex.field_definitions[i].name != cfg.field_definitions[j].name
            || ex.field_definitions[i].typ != cfg.field_definitions[j].typ
            || normalized_text(ex.field_definitions[i].description) != normalized_text(cfg.field_definitions[j].description),
    ensures
        definition_changed(ex, cfg, m),
        planned_metaobject_action(cfg, Some(ex), m) == MetaobjectImportAction::Update,
{
    assert(field_differs(ex.field_definitions[i], cfg.field_definitions[j], m));
    lemma_change_by_keys(ex, cfg, m);
}

/// A configured definition whose type Shopify lacks is created; one that Shopify has is
/// updated exactly when it changed, and otherwise left.
pub proof fn lemma_metaobject_decision(cfg: DefinitionConfigView, ex: ShopifyDefinitionView, m: Map<Seq<char>, Seq<char>>)
    ensures
        planned_metaobject_action(cfg, None, m) == MetaobjectImportAction::Create,
        (planned_metaobject_action(cfg, Some(ex), m) == MetaobjectImportAction::Update) == definition_changed(ex, cfg, m),
        (planned_metaobject_action(cfg, Some(ex), m) == MetaobjectImportAction::NoChange) == !definition_changed(ex, cfg, m),
{
}

/// A definition whose name, normalised description or normalised display-name key differs from
/// its configuration, or whose fields have other keys, has changed.
pub proof fn lemma_definition_level_changes(ex: ShopifyDefinitionView, cfg: DefinitionConfigView, m: Map<Seq<char>, Seq<char>>)
    requires
        ex.name != cfg.name
            || normalized_text(ex.description) != normalized_text(cfg.description)
            || normalized_text(ex.display_name_key) != normalized_text(cfg.display_name_key)
            || ex.field_definitions.len() != cfg.field_definitions.len(),
    ensures
        definition_changed(ex, cfg, m),
{
}
} // verus!

//! Metaobject export: Shopify's definitions (read model) and the definitions file (exported model).

use vstd::prelude::*;
use crate::error::AppError;
use crate::logging::Logger;
use crate::maps::{StringMap, pair_views, map_of, views};
use crate::model::{RuleView, opt_view, copy_opt_string, lemma_map_values_push, lemma_take_push};
use crate::ports::{FileRepo, JsonCodec, MetaobjectGateway};
use crate::text::{starts_with, str_eq};
use super::types::{MetaobjectAccessConfig, MetaobjectCapabilitiesConfig, MetaobjectFieldDefinitionConfig,
    MetaobjectValidationRule, AccessView, opt_access_view, rules_view, opt_rules_view, copy_rules,
    copy_opt_rules};
use super::import::{json_string_array, json_string_array_text, parse_json_string_array, to_json_string_array};

verus! {

/// A metaobject definition as Shopify returns it.
#[derive(Debug, Clone, PartialEq, Eq)]
pub struct ShopifyMetaobjectDefinition {
    /// Shopify GID.
    pub id: Option<String>,
    pub typ: String,
    pub name: String,
    pub description: Option<String>,
    pub display_name_key: Option<String>,
    pub access: Option<MetaobjectAccessConfig>,
    pub capabilities: Option<MetaobjectCapabilitiesConfig>,
    pub field_definitions: Vec<ShopifyMetaobjectFieldDefinition>,
}

/// A metaobject field definition as Shopify returns it.
#[derive(Debug, Clone, PartialEq, Eq)]
pub struct ShopifyMetaobjectFieldDefinition {
    pub key: String,
    pub name: String,
    pub typ: String,
    pub required: bool,
    pub description: Option<String>,
    pub validations: Vec<MetaobjectValidationRule>,
}

/// A metaobject definition as `definitions/metaobjects.json` holds it.
#[derive(Debug, Clone, PartialEq, Eq)]
pub struct ExportedMetaobjectDefinition {
    pub typ: String,
    pub name: String,
    pub field_definitions: Vec<ExportedMetaobjectFieldDefinition>,
    pub description: Option<String>,
    pub display_name_key: Option<String>,
    pub access: Option<MetaobjectAccessConfig>,
    pub capabilities: Option<MetaobjectCapabilitiesConfig>,
}

#[derive(Debug, Clone, PartialEq, Eq)]
pub struct ExportedMetaobjectFieldDefinition {
    pub key: String,
    pub name: String,
    pub typ: String,
    pub required: bool,
    pub description: Option<String>,
    pub validations: Option<Vec<MetaobjectValidationRule>>,
}

pub struct ShopifyFieldView {
    pub key: Seq<char>,
    pub name: Seq<char>,
    pub typ: Seq<char>,
    pub required: bool,
    pub description: Option<Seq<char>>,
    pub validations: Seq<RuleView>,
}

pub struct ShopifyDefinitionView {
    pub id: Option<Seq<char>>,
    pub typ: Seq<char>,
    pub name: Seq<char>,
    pub description: Option<Seq<char>>,
    pub display_name_key: Option<Seq<char>>,
    pub access: Option<AccessView>,
    pub capabilities: Option<MetaobjectCapabilitiesConfig>,
    pub field_definitions: Seq<ShopifyFieldView>,
}

pub struct ExportedFieldView {
    pub key: Seq<char>,
    pub name: Seq<char>,
    pub typ: Seq<char>,
    pub required: bool,
    pub description: Option<Seq<char>>,
    pub validations: Option<Seq<RuleView>>,
}

pub struct ExportedDefinitionView {
    pub typ: Seq<char>,
    pub name: Seq<char>,
    pub field_definitions: Seq<ExportedFieldView>,
    pub description: Option<Seq<char>>,
    pub display_name_key: Option<Seq<char>>,
    pub access: Option<AccessView>,
    pub capabilities: Option<MetaobjectCapabilitiesConfig>,
}

impl View for ShopifyMetaobjectFieldDefinition {
    type V = ShopifyFieldView;

    open spec fn view(&self) -> ShopifyFieldView {
        ShopifyFieldView {
            key: self.key@,
            name: self.name@,
            typ: self.typ@,
            required: self.required,
            description: opt_view(self.description),
            validations: rules_view(self.validations@),
        }
    }
}

pub open spec fn shopify_fields_view(v: Seq<ShopifyMetaobjectFieldDefinition>) -> Seq<ShopifyFieldView> {
    v.map_values(|f: ShopifyMetaobjectFieldDefinition| f@)
}

impl View for ShopifyMetaobjectDefinition {
    type V = ShopifyDefinitionView;

    open spec fn view(&self) -> ShopifyDefinitionView {
        ShopifyDefinitionView {
            id: opt_view(self.id),
            typ: self.typ@,
            name: self.name@,
            description: opt_view(self.description),
            display_name_key: opt_view(self.display_name_key),
            access: opt_access_view(self.access),
            capabilities: self.capabilities,
            field_definitions: shopify_fields_view(self.field_definitions@),
        }
    }
}

pub open spec fn shopify_definitions_view(v: Seq<ShopifyMetaobjectDefinition>) -> Seq<ShopifyDefinitionView> {
    v.map_values(|d: ShopifyMetaobjectDefinition| d@)
}

impl View for ExportedMetaobjectFieldDefinition {
    type V = ExportedFieldView;

    open spec fn view(&self) -> ExportedFieldView {
        ExportedFieldView {
            key: self.key@,
            name: self.name@,
            typ: self.typ@,
            required: self.required,
            description: opt_view(self.description),
            validations: opt_rules_view(self.validations),
        }
    }
}

pub open spec fn exported_fields_view(v: Seq<ExportedMetaobjectFieldDefinition>) -> Seq<ExportedFieldView> {
    v.map_values(|f: ExportedMetaobjectFieldDefinition| f@)
}

impl View for ExportedMetaobjectDefinition {
    type V = ExportedDefinitionView;

    open spec fn view(&self) -> ExportedDefinitionView {
        ExportedDefinitionView {
            typ: self.typ@,
            name: self.name@,
            field_definitions: exported_fields_view(self.field_definitions@),
            description: opt_view(self.description),
            display_name_key: opt_view(self.display_name_key),
            access: opt_access_view(self.access),
            capabilities: self.capabilities,
        }
    }
}

pub open spec fn exported_definitions_view(v: Seq<ExportedMetaobjectDefinition>) -> Seq<ExportedDefinitionView> {
    v.map_values(|d: ExportedMetaobjectDefinition| d@)
}

impl From<MetaobjectFieldDefinitionConfig> for ExportedMetaobjectFieldDefinition {
    fn from(v: MetaobjectFieldDefinitionConfig) -> (r: Self) {
        ExportedMetaobjectFieldDefinition {
            key: v.key,
            name: v.name,
            typ: v.typ,
            required: v.required,
            description: v.description,
            validations: v.validations,
        }
    }
}

impl vstd::std_specs::convert::FromSpecImpl<MetaobjectFieldDefinitionConfig> for ExportedMetaobjectFieldDefinition {
    open spec fn obeys_from_spec() -> bool {
        true
    }

    open spec fn from_spec(v: MetaobjectFieldDefinitionConfig) -> Self {
        ExportedMetaobjectFieldDefinition {
            key: v.key,
            name: v.name,
            typ: v.typ,
            required: v.required,
            description: v.description,
            validations: v.validations,
        }
    }
}

/// Types that Shopify owns (`shopify--…`) are not exported.
pub open spec fn is_shopify_type(t: Seq<char>) -> bool {
    "shopify--"@.is_prefix_of(t)
}

/// A `metaobject_definition_id` rule whose id `id_to_type` knows becomes a
/// `metaobject_definition_type` rule naming that type; other rules are kept.
pub open spec fn exported_rule(r: RuleView, id_to_type: Map<Seq<char>, Seq<char>>) -> RuleView {
    if r.name == "metaobject_definition_id"@ && r.value is Some && id_to_type.contains_key(r.value->0) {
        RuleView { name: "metaobject_definition_type"@, value: Some(id_to_type[r.value->0]) }
    } else {
        r
    }
}

/// Every id of `ids` is one that `id_to_type` knows.
pub open spec fn all_known(ids: Seq<Seq<char>>, id_to_type: Map<Seq<char>, Seq<char>>) -> bool {
    forall|i: int| 0 <= i < ids.len() ==> id_to_type.contains_key(#[trigger] ids[i])
}

/// A metaobject field rule as exported: a `metaobject_definition_id` rule is turned into a type
/// (see `exported_rule`), and a `metaobject_definition_ids` rule whose value is a JSON array of
/// ids that `id_to_type` all knows becomes a `metaobject_definition_types` rule holding the JSON
/// array of their types, in order; other rules are kept.
pub open spec fn exported_metaobject_rule(r: RuleView, id_to_type: Map<Seq<char>, Seq<char>>) -> RuleView {
    if r.name == "metaobject_definition_ids"@ && r.value is Some && json_string_array(r.value->0) is Some
        && all_known(json_string_array(r.value->0)->0, id_to_type) {
        RuleView {
            name: "metaobject_definition_types"@,
            value: Some(json_string_array_text(
                json_string_array(r.value->0)->0.map_values(|id: Seq<char>| id_to_type[id]),
            )),
        }
    } else {
        exported_rule(r, id_to_type)
    }
}

pub open spec fn exported_field(f: ShopifyFieldView, id_to_type: Map<Seq<char>, Seq<char>>) -> ExportedFieldView {
    ExportedFieldView {
        key: f.key,
        name: f.name,
        typ: f.typ,
        required: f.required,
        description: f.description,
        validations: if f.validations.len() == 0 {
            None
        } else {
            Some(f.validations.map_values(|r: RuleView| exported_metaobject_rule(r, id_to_type)))
        },
    }
}

pub open spec fn exported_definition(d: ShopifyDefinitionView, id_to_type: Map<Seq<char>, Seq<char>>) -> ExportedDefinitionView {
    ExportedDefinitionView {
        typ: d.typ,
        name: d.name,
        field_definitions: d.field_definitions.map_values(|f: ShopifyFieldView| exported_field(f, id_to_type)),
        description: d.description,
        display_name_key: d.display_name_key,
        access: d.access,
        capabilities: d.capabilities,
    }
}

/// The definitions of types that Shopify does not own, each as exported, in order.
pub open spec fn exported_definitions(ds: Seq<ShopifyDefinitionView>, id_to_type: Map<Seq<char>, Seq<char>>) -> Seq<ExportedDefinitionView>
    decreases ds.len(),
{
    if ds.len() == 0 {
        Seq::empty()
    } else if is_shopify_type(ds.last().typ) {
        exported_definitions(ds.drop_last(), id_to_type)
    } else {
        exported_definitions(ds.drop_last(), id_to_type).push(exported_definition(ds.last(), id_to_type))
    }
}

/// `(id, type)` of each definition that has an id, in order.
pub open spec fn id_type_pairs(ds: Seq<ShopifyDefinitionView>) -> Seq<(Seq<char>, Seq<char>)>
    decreases ds.len(),
{
    if ds.len() == 0 {
        Seq::empty()
    } else {
        match ds.last().id {
            Some(id) => id_type_pairs(ds.drop_last()).push((id, ds.last().typ)),
            None => id_type_pairs(ds.drop_last()),
        }
    }
}

/// The types of `ids` by `id_to_type`, in order, when it knows every id.
fn types_of_ids(ids: &Vec<String>, id_to_type: &StringMap) -> (r: Option<Vec<String>>)
    ensures
        match r {
            Some(ts) => all_known(views(ids@), id_to_type@)
                && views(ts@) == views(ids@).map_values(|id: Seq<char>| id_to_type@[id]),
            None => !all_known(views(ids@), id_to_type@),
        },
{
    let ghost iv = views(ids@);
    let mut out: Vec<String> = Vec::new();
    let mut i: usize = 0;
    while i < ids.len()
        invariant
            i <= ids.len(),
            iv == views(ids@),
            forall|j: int| 0 <= j < i ==> id_to_type@.contains_key(#[trigger] iv[j]),
            views(out@) == iv.take(i as int).map_values(|id: Seq<char>| id_to_type@[id]),
        decreases ids.len() - i,
    {
        match id_to_type.get(ids[i].as_str()) {
            Some(t) => {
                let c = t.clone();
                let ghost before = out@;
                out.push(c);
                proof {
                    lemma_map_values_push(before, c, |x: String| x@);
                    lemma_take_push(iv, i as int);
                    lemma_map_values_push(iv.take(i as int), iv[i as int], |id: Seq<char>| id_to_type@[id]);
                }
            },
            None => {
                assert(!id_to_type@.contains_key(iv[i as int]));
                return None;
            },
        }
        i = i + 1;
    }
    assert(iv.take(ids.len() as int) =~= iv);
    Some(out)
}

fn export_rule(r: &MetaobjectValidationRule, id_to_type: &StringMap) -> (out: MetaobjectValidationRule)
    ensures
        out@ == exported_metaobject_rule(r@, id_to_type@),
{
    if str_eq(r.name.as_str(), "metaobject_definition_ids") {
        if let Some(v) = &r.value {
            if let Some(ids) = parse_json_string_array(v.as_str()) {
                if let Some(ts) = types_of_ids(&ids, id_to_type) {
                    let text = to_json_string_array(ts.as_slice());
                    return MetaobjectValidationRule { name: "metaobject_definition_types".to_string(), value: Some(text) };
                }
            }
        }
    }
    if str_eq(r.name.as_str(), "metaobject_definition_id") {
        if let Some(id) = &r.value {
            if let Some(t) = id_to_type.get(id.as_str()) {
                return MetaobjectValidationRule { name: "metaobject_definition_type".to_string(), value: Some(t.clone()) };
            }
        }
    }
    r.clone()
}

fn export_field(f: &ShopifyMetaobjectFieldDefinition, id_to_type: &StringMap) -> (r: ExportedMetaobjectFieldDefinition)
    ensures
        r@ == exported_field(f@, id_to_type@),
{
    let validations = if f.validations.len() == 0 {
        None
    } else {
        let ghost rs = rules_view(f.validations@);
        let mut out: Vec<MetaobjectValidationRule> = Vec::new();
        let mut i: usize = 0;
        while i < f.validations.len()
            invariant
                i <= f.validations.len(),
                rs == rules_view(f.validations@),
                rules_view(out@) == rs.take(i as int).map_values(|r: RuleView| exported_metaobject_rule(r, id_to_type@)),
            decreases f.validations.len() - i,
        {
            let e = export_rule(&f.validations[i], id_to_type);
            let ghost before = out@;
            out.push(e);
            proof {
                lemma_map_values_push(before, e, |x: MetaobjectValidationRule| x@);
                lemma_take_push(rs, i as int);
                lemma_map_values_push(rs.take(i as int), rs[i as int], |r: RuleView| exported_metaobject_rule(r, id_to_type@));
            }
            i = i + 1;
        }
        assert(rs.take(f.validations.len() as int) =~= rs);
        Some(out)
    };
    ExportedMetaobjectFieldDefinition {
        key: f.key.clone(),
        name: f.name.clone(),
        typ: f.typ.clone(),
        required: f.required,
        description: copy_opt_string(&f.description),
        validations,
    }
}

fn export_definition(d: &ShopifyMetaobjectDefinition, id_to_type: &StringMap) -> (r: ExportedMetaobjectDefinition)
    ensures
        r@ == exported_definition(d@, id_to_type@),
{
    let ghost fs = shopify_fields_view(d.field_definitions@);
    let mut fields: Vec<ExportedMetaobjectFieldDefinition> = Vec::new();
    let mut i: usize = 0;
    while i < d.field_definitions.len()
        invariant
            i <= d.field_definitions.len(),
            fs == shopify_fields_view(d.field_definitions@),
            exported_fields_view(fields@) == fs.take(i as int).map_values(|f: ShopifyFieldView| exported_field(f, id_to_type@)),
        decreases d.field_definitions.len() - i,
    {
        let e = export_field(&d.field_definitions[i], id_to_type);
        let ghost before = fields@;
        fields.push(e);
        proof {
            lemma_map_values_push(before, e, |x: ExportedMetaobjectFieldDefinition| x@);
            lemma_take_push(fs, i as int);
            lemma_map_values_push(fs.take(i as int), fs[i as int], |f: ShopifyFieldView| exported_field(f, id_to_type@));
        }
        i = i + 1;
    }
    assert(fs.take(d.field_definitions.len() as int) =~= fs);
    ExportedMetaobjectDefinition {
        typ: d.typ.clone(),
        name: d.name.clone(),
        field_definitions: fields,
        description: copy_opt_string(&d.description),
        display_name_key: copy_opt_string(&d.display_name_key),
        access: match &d.access {
            Some(a) => Some(a.clone()),
            None => None,
        },
        capabilities: d.capabilities,
    }
}

/// The definitions of types that Shopify does not own (`shopify--…`), in order, with
/// `metaobject_definition_id` validations turned into `metaobject_definition_type` where
/// `metaobject_id_to_type` knows the id, `metaobject_definition_ids` JSON arrays turned into
/// `metaobject_definition_types` arrays where it knows every id, and empty validation lists
/// left out.
pub fn export_metaobject_definitions(input: Vec<ShopifyMetaobjectDefinition>, metaobject_id_to_type: &StringMap) -> (r: Vec<ExportedMetaobjectDefinition>)
    ensures
        exported_definitions_view(r@) == exported_definitions(shopify_definitions_view(input@), metaobject_id_to_type@),
{
    let ghost iv = shopify_definitions_view(input@);
    let mut out: Vec<ExportedMetaobjectDefinition> = Vec::new();
    let mut i: usize = 0;
    while i < input.len()
        invariant
            i <= input.len(),
            iv == shopify_definitions_view(input@),
            exported_definitions_view(out@) == exported_definitions(iv.take(i as int), metaobject_id_to_type@),
        decreases input.len() - i,
    {
        proof {
            lemma_take_push(iv, i as int);
            assert(iv.take(i + 1).drop_last() =~= iv.take(i as int));
            assert(iv[i as int] == input@[i as int]@);
        }
        if !starts_with(input[i].typ.as_str(), "shopify--") {
            let e = export_definition(&input[i], metaobject_id_to_type);
            let ghost before = out@;
            out.push(e);
            proof {
                lemma_map_values_push(before, e, |d: ExportedMetaobjectDefinition| d@);
            }
        }
        i = i + 1;
    }
    assert(iv.take(input.len() as int) =~= iv);
    out
}

/// The `id -> type` map of the definitions that have an id (a later id wins).
pub fn id_to_type_map(defs: &Vec<ShopifyMetaobjectDefinition>) -> (r: StringMap)
    ensures
        r@ == map_of(id_type_pairs(shopify_definitions_view(defs@))),
{
    let ghost dv = shopify_definitions_view(defs@);
    let mut m = StringMap::new();
    let mut i: usize = 0;
    assert(map_of(id_type_pairs(dv.take(0))) =~= Map::<Seq<char>, Seq<char>>::empty());
    while i < defs.len()
        invariant
            i <= defs.len(),
            dv == shopify_definitions_view(defs@),
            m@ == map_of(id_type_pairs(dv.take(i as int))),
        decreases defs.len() - i,
    {
        proof {
            lemma_take_push(dv, i as int);
            assert(dv.take(i + 1).drop_last() =~= dv.take(i as int));
            assert(dv[i as int] == defs@[i as int]@);
        }
        if let Some(id) = &defs[i].id {
            m.insert(id.clone(), defs[i].typ.clone());
            proof {
                crate::maps::lemma_map_of_push(id_type_pairs(dv.take(i as int)), id@, defs@[i as int].typ@);
            }
        }
        i = i + 1;
    }
    assert(dv.take(defs.len() as int) =~= dv);
    m
}

/// Exports the definitions Shopify listed, resolving definition ids through those same
/// definitions: what both export use cases do with the fetched list.
pub fn export_with_own_ids(defs: Vec<ShopifyMetaobjectDefinition>) -> (r: Vec<ExportedMetaobjectDefinition>)
    ensures
        exported_definitions_view(r@) == exported_definitions(shopify_definitions_view(defs@),
            map_of(id_type_pairs(shopify_definitions_view(defs@)))),
{
    let id_to_type = id_to_type_map(&defs);
    export_metaobject_definitions(defs, &id_to_type)
}

/// One call of the gateway's `list_metaobject_definitions`: what Shopify lists now. Nothing is
/// known of the result; the export use cases state, through `call_ensures` of this function,
/// what they do with whatever it returned.
pub fn fetch_metaobject_definitions<G: MetaobjectGateway, L: Logger>(gateway: &G, logger: &L) -> Result<Vec<ShopifyMetaobjectDefinition>, AppError> {
    gateway.list_metaobject_definitions(logger)
}

pub struct ExportMetaobjectsUseCase<G> {
    gateway: G,
}

impl<G: MetaobjectGateway> ExportMetaobjectsUseCase<G> {
    /// The gateway the use case works through.
    pub closed spec fn gateway_of(self) -> G {
        self.gateway
    }

    pub fn new(gateway: G) -> (r: Self)
        ensures
            r.gateway_of() == gateway,
    {
        ExportMetaobjectsUseCase { gateway }
    }

    /// Fetches all metaobject definitions and exports them with `export_with_own_ids`,
    /// resolving definition ids through the fetched definitions themselves.
    pub fn execute<L: Logger>(&self, logger: &L) -> (r: Result<Vec<ExportedMetaobjectDefinition>, AppError>)
        ensures
            r matches Ok(v) ==> exists|ds: Seq<ShopifyDefinitionView>| exported_definitions_view(v@) == exported_definitions(ds, map_of(id_type_pairs(ds))),
            r matches Ok(v) ==> exists|listed: Vec<ShopifyMetaobjectDefinition>|
                #[trigger] call_ensures(fetch_metaobject_definitions::<G, L>, (&self.gateway_of(), logger), Ok::<Vec<ShopifyMetaobjectDefinition>, AppError>(listed))
                && exported_definitions_view(v@) == exported_definitions(shopify_definitions_view(listed@),
                    map_of(id_type_pairs(shopify_definitions_view(listed@)))),
    {
        let list = fetch_metaobject_definitions::<G, L>;
        let defs = list(&self.gateway, logger)?;
        let ghost dv = shopify_definitions_view(defs@);
        let out = export_with_own_ids(defs);
        assert(exported_definitions_view(out@) == exported_definitions(dv, map_of(id_type_pairs(dv))));
        Ok(out)
    }
}

/// Where the metaobject definitions are kept.
pub open spec fn metaobject_definitions_path() -> Seq<char> {
    "definitions/metaobjects.json"@
}

/// The file of the metaobject definitions: `definitions/metaobjects.json`.
pub fn metaobject_definitions_file() -> (r: String)
    ensures
        r@ == metaobject_definitions_path(),
{
    "definitions/metaobjects.json".to_string()
}

pub struct ExportMetaobjectsToFileUseCase<G> {
    gateway: G,
}

impl<G: MetaobjectGateway> ExportMetaobjectsToFileUseCase<G> {
    /// The gateway the use case works through.
    pub closed spec fn gateway_of(self) -> G {
        self.gateway
    }

    pub fn new(gateway: G) -> (r: Self)
        ensures
            r.gateway_of() == gateway,
    {
        ExportMetaobjectsToFileUseCase { gateway }
    }

    /// Exports all metaobject definitions (`export_with_own_ids` on what the gateway lists) and
    /// writes the JSON text of the export to the file
    /// `metaobject_definitions_file` names (`definitions/metaobjects.json`).
    pub fn execute<L: Logger>(&self, repo: &mut impl FileRepo, codec: &impl JsonCodec, logger: &L) -> (r: Result<Vec<ExportedMetaobjectDefinition>, AppError>)
        ensures
            r matches Ok(v) ==> exists|ds: Seq<ShopifyDefinitionView>| exported_definitions_view(v@) == exported_definitions(ds, map_of(id_type_pairs(ds))),
            r matches Ok(v) ==> exists|listed: Vec<ShopifyMetaobjectDefinition>|
                #[trigger] call_ensures(fetch_metaobject_definitions::<G, L>, (&self.gateway_of(), logger), Ok::<Vec<ShopifyMetaobjectDefinition>, AppError>(listed))
                && exported_definitions_view(v@) == exported_definitions(shopify_definitions_view(listed@),
                    map_of(id_type_pairs(shopify_definitions_view(listed@)))),
    {
        let list = fetch_metaobject_definitions::<G, L>;
        let defs = list(&self.gateway, logger)?;
        let ghost dv = shopify_definitions_view(defs@);
        let exported = export_with_own_ids(defs);
        assert(exported_definitions_view(exported@) == exported_definitions(dv, map_of(id_type_pairs(dv))));
        let json = match codec.metaobject_definitions_text(exported.as_slice()) {
            Ok(t) => t,
            Err(m) => {
                return Err(AppError::Json(m));
            },
        };
        let path = metaobject_definitions_file();
        repo.write_text(path.as_str(), json.as_str())?;
        Ok(exported)
    }
}


/// Whatever Shopify lists, the export holds none of Shopify's own types.
pub proof fn lemma_export_drops_shopify_types(ds: Seq<ShopifyDefinitionView>, id_to_type: Map<Seq<char>, Seq<char>>)
    ensures
        forall|i: int| 0 <= i < exported_definitions(ds, id_to_type).len() ==> !is_shopify_type(#[trigger] exported_definitions(ds, id_to_type)[i].typ),
    decreases ds.len(),
{
    if ds.len() > 0 {
        lemma_export_drops_shopify_types(ds.drop_last(), id_to_type);
    }
}

/// Resolving through the listed definitions themselves: an id that a listed definition has, and
/// no later listed definition has, stands for that definition's type.
pub proof fn lemma_own_ids_name_listed_types(ds: Seq<ShopifyDefinitionView>, k: int)
    requires
        0 <= k < ds.len(),
        ds[k].id is Some,
        forall|j: int| k < j < ds.len() ==> #[trigger] ds[j].id != ds[k].id,
    ensures
        map_of(id_type_pairs(ds)).contains_key(ds[k].id->0),
        map_of(id_type_pairs(ds))[ds[k].id->0] == ds[k].typ,
    decreases ds.len(),
{
    let x = ds[k].id->0;
    let d = ds.drop_last();
    if k == ds.len() - 1 {
        crate::maps::lemma_map_of_push(id_type_pairs(d), x, ds[k].typ);
    } else {
        assert forall|j: int| k < j < d.len() implies #[trigger] d[j].id != d[k].id by {
            assert(d[j] == ds[j]);
        }
        lemma_own_ids_name_listed_types(d, k);
        assert(ds.last().id != ds[k].id);
        match ds.last().id {
            Some(y) => {
                crate::maps::lemma_map_of_push(id_type_pairs(d), y, ds.last().typ);
            },
            None => {},
        }
    }
}

/// Export turns a `metaobject_definition_id` rule whose id the map knows into a
/// `metaobject_definition_type` rule naming that id's type, and keeps one with an unknown id
/// as it is.
pub proof fn lemma_exported_id_rule(r: RuleView, id_to_type: Map<Seq<char>, Seq<char>>)
    requires
        r.name == "metaobject_definition_id"@,
        r.value is Some,
    ensures
        id_to_type.contains_key(r.value->0) ==> exported_metaobject_rule(r, id_to_type)
            == (RuleView { name: "metaobject_definition_type"@, value: Some(id_to_type[r.value->0]) }),
        !id_to_type.contains_key(r.value->0) ==> exported_metaobject_rule(r, id_to_type) == r,
{
    reveal_strlit("metaobject_definition_id");
    reveal_strlit("metaobject_definition_ids");
    assert("metaobject_definition_id"@.len() != "metaobject_definition_ids"@.len());
}

/// In an export of what Shopify lists, a field rule pointing at the id of a listed definition
/// (that no later listed definition repeats) is exported as a rule naming that definition's
/// type, so it no longer depends on the store.
pub proof fn lemma_export_names_listed_types(ds: Seq<ShopifyDefinitionView>, k: int, r: RuleView)
    requires
        0 <= k < ds.len(),
        ds[k].id is Some,
        forall|j: int| k < j < ds.len() ==> #[trigger] ds[j].id != ds[k].id,
        r.name == "metaobject_definition_id"@,
        r.value == ds[k].id,
    ensures
        exported_metaobject_rule(r, map_of(id_type_pairs(ds)))
            == (RuleView { name: "metaobject_definition_type"@, value: Some(ds[k].typ) }),
{
    lemma_own_ids_name_listed_types(ds, k);
    lemma_exported_id_rule(r, map_of(id_type_pairs(ds)));
}
} // verus!

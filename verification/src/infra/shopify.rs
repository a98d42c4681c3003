//! What the tool decides from Shopify's GraphQL responses: errors, pages and conversions.
//! Sending requests and reading their JSON is left to the caller.

use vstd::prelude::*;
use crate::domain::OwnerType;
use crate::error::AppError;
use crate::maps::{StringMap, views, pair_views, map_of};
use crate::model::{RuleView, opt_view, copy_opt_string, lemma_map_values_push, lemma_take_push};
use crate::metafields::types::{CapabilityFlag, MetafieldAccess, MetafieldAccessView, MetafieldCapabilities,
    MetafieldValidation, ShopifyMetafieldDefinition, ShopifyMetafieldView, validations_view,
    shopify_metafields_view};
use crate::metaobjects::export::{ShopifyMetaobjectDefinition, ShopifyMetaobjectFieldDefinition,
    ShopifyDefinitionView, ShopifyFieldView, exported_rule, shopify_definitions_view};
use crate::metaobjects::types::{MetaobjectAccessConfig, MetaobjectCapabilitiesConfig, MetaobjectValidationRule,
    AccessView, rules_view};
use crate::text::{join, concat, join_strings, str_eq};
use super::dto::{GraphQlResponse, PageInfo, UserErrorNode, MetafieldDefsData, MetafieldDefEdge, MetafieldDefNode,
    MetafieldValidationNode, CapabilityFlagNode, MetafieldDefinitionCreateData, MetafieldDefinitionUpdateData,
    MetafieldDefinitionDeleteData, MetaobjectDefsData, MetaobjectDefEdge, MetaobjectDefsDataForExport,
    MetaobjectDefEdgeForExport, MetaobjectDefNodeForExport, MetaobjectFieldDefForExport,
    MetaobjectValidationNodeForExport, MetaobjectCapabilityFlagNodeForExport, MetaobjectDefinitionCreateData,
    MetaobjectDefinitionUpdateData};

verus! {

/// Where a shop's Admin GraphQL API is.
pub open spec fn endpoint_of(shop_domain: Seq<char>) -> Seq<char> {
    "https://"@ + shop_domain + "/admin/api/2025-10/graphql.json"@
}

/// The shop and the credentials that requests are sent with.
#[derive(Debug, Clone)]
pub struct ShopifyClient {
    shop_domain: String,
    access_token: String,
}

impl ShopifyClient {
    pub closed spec fn domain(self) -> Seq<char> {
        self.shop_domain@
    }

    pub closed spec fn token(self) -> Seq<char> {
        self.access_token@
    }

    pub fn new(shop_domain: String, access_token: String) -> (r: Self)
        ensures
            r.domain() == shop_domain@,
            r.token() == access_token@,
    {
        ShopifyClient { shop_domain, access_token }
    }

    /// The GraphQL endpoint of the shop (API version 2025-10).
    pub fn endpoint(&self) -> (r: String)
        ensures
            r@ == endpoint_of(self.domain()),
    {
        let a = concat("https://", self.shop_domain.as_str());
        concat(a.as_str(), "/admin/api/2025-10/graphql.json")
    }

    /// The access token sent with every request.
    pub fn access_token(&self) -> (r: &str)
        ensures
            r@ == self.token(),
    {
        self.access_token.as_str()
    }
}

/// One user error: its field path joined with dots, a colon and its message; the message
/// alone without a path.
pub open spec fn user_error_text(e: UserErrorNode) -> Seq<char> {
    match e.field {
        Some(p) => join(views(p@), "."@) + ": "@ + e.message@,
        None => e.message@,
    }
}

pub open spec fn user_errors_text(es: Seq<UserErrorNode>) -> Seq<char> {
    join(es.map_values(|e: UserErrorNode| user_error_text(e)), "; "@)
}

/// The user errors of a mutation, separated by `; `.
pub fn format_user_errors(errors: &[UserErrorNode]) -> (r: String)
    ensures
        r@ == user_errors_text(errors@),
{
    let ghost ts = errors@.map_values(|e: UserErrorNode| user_error_text(e));
    let mut out = String::new();
    let mut i: usize = 0;
    while i < errors.len()
        invariant
            i <= errors.len(),
            ts == errors@.map_values(|e: UserErrorNode| user_error_text(e)),
            out@ == join(ts.take(i as int), "; "@),
        decreases errors.len() - i,
    {
        proof {
            assert(ts.take(i + 1).drop_last() =~= ts.take(i as int));
            assert(ts.take(i + 1).last() == ts[i as int]);
        }
        if i > 0 {
            out.append("; ");
        } else {
            assert(ts.take(1)[0] == ts[0]);
        }
        let e = &errors[i];
        match &e.field {
            Some(p) => {
                let path = join_strings(p, ".");
                out.append(path.as_str());
                out.append(": ");
                out.append(e.message.as_str());
            },
            None => {
                out.append(e.message.as_str());
            },
        }
        i = i + 1;
        assert(out@ =~= join(ts.take(i as int), "; "@));
    }
    assert(ts.take(errors.len() as int) =~= ts);
    out
}

/// The outcome of a mutation `op` that returns `result` on success: the message of the first
/// problem (GraphQL errors, no data, user errors, nothing returned), or success.
pub open spec fn mutation_outcome(errors: Option<Seq<char>>, data: Option<(Seq<UserErrorNode>, bool)>, op: Seq<char>, result: Seq<char>) -> Result<(), Seq<char>> {
    match errors {
        Some(e) => Err("GraphQL errors in "@ + op + ": "@ + e),
        None => match data {
            None => Err("missing data in "@ + op),
            Some(d) => if d.0.len() > 0 {
                Err(op + " userErrors: "@ + user_errors_text(d.0))
            } else if !d.1 {
                Err(op + " did not return "@ + result)
            } else {
                Ok(())
            },
        },
    }
}

/// The gateway error whose message is `m`.
pub open spec fn gateway_error(e: AppError, m: Seq<char>) -> bool {
    e matches AppError::Gateway(s) && s@ == m
}

pub open spec fn outcome_matches(r: Result<(), AppError>, o: Result<(), Seq<char>>) -> bool {
    match o {
        Ok(()) => r is Ok,
        Err(m) => r matches Err(e) && gateway_error(e, m),
    }
}

fn mutation_result(errors: &Option<String>, data: Option<(&Vec<UserErrorNode>, bool)>, op: &str, result: &str) -> (r: Result<(), AppError>)
    ensures
        outcome_matches(r, mutation_outcome(opt_view(*errors), match data {
            Some(d) => Some((d.0@, d.1)),
            None => None,
        }, op@, result@)),
{
    if let Some(e) = errors {
        let a = concat("GraphQL errors in ", op);
        let b = concat(a.as_str(), ": ");
        return Err(AppError::Gateway(concat(b.as_str(), e.as_str())));
    }
    match data {
        None => Err(AppError::Gateway(concat("missing data in ", op))),
        Some((user_errors, returned)) => {
            if user_errors.len() > 0 {
                let a = concat(op, " userErrors: ");
                let t = format_user_errors(user_errors.as_slice());
                Err(AppError::Gateway(concat(a.as_str(), t.as_str())))
            } else if !returned {
                let a = concat(op, " did not return ");
                Err(AppError::Gateway(concat(a.as_str(), result)))
            } else {
                Ok(())
            }
        },
    }
}

/// The outcome of `metafieldDefinitionCreate`.
pub fn check_metafield_definition_create(body: &GraphQlResponse<MetafieldDefinitionCreateData>) -> (r: Result<(), AppError>)
    ensures
        outcome_matches(r, mutation_outcome(opt_view(body.errors), match body.data {
            Some(d) => Some((d.metafield_definition_create.user_errors@, d.metafield_definition_create.created_definition is Some)),
            None => None,
        }, "metafieldDefinitionCreate"@, "createdDefinition"@)),
{
    let data = match &body.data {
        Some(d) => Some((&d.metafield_definition_create.user_errors, d.metafield_definition_create.created_definition.is_some())),
        None => None,
    };
    mutation_result(&body.errors, data, "metafieldDefinitionCreate", "createdDefinition")
}

/// The outcome of `metafieldDefinitionUpdate`.
pub fn check_metafield_definition_update(body: &GraphQlResponse<MetafieldDefinitionUpdateData>) -> (r: Result<(), AppError>)
    ensures
        outcome_matches(r, mutation_outcome(opt_view(body.errors), match body.data {
            Some(d) => Some((d.metafield_definition_update.user_errors@, d.metafield_definition_update.updated_definition is Some)),
            None => None,
        }, "metafieldDefinitionUpdate"@, "updatedDefinition"@)),
{
    let data = match &body.data {
        Some(d) => Some((&d.metafield_definition_update.user_errors, d.metafield_definition_update.updated_definition.is_some())),
        None => None,
    };
    mutation_result(&body.errors, data, "metafieldDefinitionUpdate", "updatedDefinition")
}

/// The outcome of `metafieldDefinitionDelete`.
pub fn check_metafield_definition_delete(body: &GraphQlResponse<MetafieldDefinitionDeleteData>) -> (r: Result<(), AppError>)
    ensures
        outcome_matches(r, mutation_outcome(opt_view(body.errors), match body.data {
            Some(d) => Some((d.metafield_definition_delete.user_errors@, d.metafield_definition_delete.deleted_definition_id is Some)),
            None => None,
        }, "metafieldDefinitionDelete"@, "deletedDefinitionId"@)),
{
    let data = match &body.data {
        Some(d) => Some((&d.metafield_definition_delete.user_errors, d.metafield_definition_delete.deleted_definition_id.is_some())),
        None => None,
    };
    mutation_result(&body.errors, data, "metafieldDefinitionDelete", "deletedDefinitionId")
}

/// The outcome of `metaobjectDefinitionCreate`.
pub fn check_metaobject_definition_create(body: &GraphQlResponse<MetaobjectDefinitionCreateData>) -> (r: Result<(), AppError>)
    ensures
        outcome_matches(r, mutation_outcome(opt_view(body.errors), match body.data {
            Some(d) => Some((d.metaobject_definition_create.user_errors@, d.metaobject_definition_create.metaobject_definition is Some)),
            None => None,
        }, "metaobjectDefinitionCreate"@, "metaobjectDefinition"@)),
{
    let data = match &body.data {
        Some(d) => Some((&d.metaobject_definition_create.user_errors, d.metaobject_definition_create.metaobject_definition.is_some())),
        None => None,
    };
    mutation_result(&body.errors, data, "metaobjectDefinitionCreate", "metaobjectDefinition")
}

/// The outcome of `metaobjectDefinitionUpdate`.
pub fn check_metaobject_definition_update(body: &GraphQlResponse<MetaobjectDefinitionUpdateData>) -> (r: Result<(), AppError>)
    ensures
        outcome_matches(r, mutation_outcome(opt_view(body.errors), match body.data {
            Some(d) => Some((d.metaobject_definition_update.user_errors@, d.metaobject_definition_update.metaobject_definition is Some)),
            None => None,
        }, "metaobjectDefinitionUpdate"@, "metaobjectDefinition"@)),
{
    let data = match &body.data {
        Some(d) => Some((&d.metaobject_definition_update.user_errors, d.metaobject_definition_update.metaobject_definition.is_some())),
        None => None,
    };
    mutation_result(&body.errors, data, "metaobjectDefinitionUpdate", "metaobjectDefinition")
}

/// The cursor of the next page, or none after the last page (or when Shopify reports a next
/// page without a cursor).
pub open spec fn next_cursor(p: PageInfo) -> Option<Seq<char>> {
    if p.has_next_page {
        opt_view(p.end_cursor)
    } else {
        None
    }
}

fn next_page(p: &PageInfo) -> (r: Option<String>)
    ensures
        opt_view(r) == next_cursor(*p),
{
    if p.has_next_page {
        copy_opt_string(&p.end_cursor)
    } else {
        None
    }
}

impl View for MetafieldValidationNode {
    type V = RuleView;

    open spec fn view(&self) -> RuleView {
        RuleView { name: self.name@, value: opt_view(self.value) }
    }
}

pub open spec fn node_rules_view(v: Seq<MetafieldValidationNode>) -> Seq<RuleView> {
    v.map_values(|r: MetafieldValidationNode| r@)
}

/// Validations as read from Shopify, with `metaobject_definition_id` rules turned into
/// `metaobject_definition_type` where the map knows the id.
pub fn convert_validations_id_to_type(validations: Vec<MetafieldValidationNode>, metaobject_id_to_type: &StringMap) -> (r: Vec<MetafieldValidation>)
    ensures
        validations_view(r@) == node_rules_view(validations@).map_values(|x: RuleView| exported_rule(x, metaobject_id_to_type@)),
{
    let ghost rs = node_rules_view(validations@);
    let mut out: Vec<MetafieldValidation> = Vec::new();
    let mut i: usize = 0;
    while i < validations.len()
        invariant
            i <= validations.len(),
            rs == node_rules_view(validations@),
            validations_view(out@) == rs.take(i as int).map_values(|x: RuleView| exported_rule(x, metaobject_id_to_type@)),
        decreases validations.len() - i,
    {
        let v = &validations[i];
        let mut converted = MetafieldValidation { name: v.name.clone(), value: copy_opt_string(&v.value) };
        if str_eq(v.name.as_str(), "metaobject_definition_id") {
            if let Some(id) = &v.value {
                if let Some(t) = metaobject_id_to_type.get(id.as_str()) {
                    converted = MetafieldValidation { name: "metaobject_definition_type".to_string(), value: Some(t.clone()) };
                }
            }
        }
        let ghost before = out@;
        out.push(converted);
        proof {
            lemma_map_values_push(before, converted, |x: MetafieldValidation| x@);
            lemma_take_push(rs, i as int);
            lemma_map_values_push(rs.take(i as int), rs[i as int], |x: RuleView| exported_rule(x, metaobject_id_to_type@));
        }
        i = i + 1;
    }
    assert(rs.take(validations.len() as int) =~= rs);
    out
}

pub open spec fn flag_of(f: Option<CapabilityFlagNode>) -> Option<CapabilityFlag> {
    match f {
        Some(x) => Some(CapabilityFlag { enabled: x.enabled }),
        None => None,
    }
}

/// A metafield definition as read from a response node.
pub open spec fn metafield_of_node(n: MetafieldDefNode, m: Map<Seq<char>, Seq<char>>) -> ShopifyMetafieldView {
    ShopifyMetafieldView {
        id: Some(n.id@),
        namespace: n.namespace@,
        key: n.key@,
        name: n.name@,
        description: opt_view(n.description),
        typ: n.type_obj.name@,
        validations: node_rules_view(n.validations@).map_values(|x: RuleView| exported_rule(x, m)),
        pinned_position: n.pinned_position,
        access: match n.access {
            Some(a) => Some(MetafieldAccessView {
                admin: opt_view(a.admin),
                storefront: opt_view(a.storefront),
                customer_account: opt_view(a.customer_account),
            }),
            None => None,
        },
        capabilities: match n.capabilities {
            Some(c) => Some(MetafieldCapabilities {
                admin_filterable: flag_of(c.admin_filterable),
                smart_collection_condition: flag_of(c.smart_collection_condition),
                unique_values: flag_of(c.unique_values),
            }),
            None => None,
        },
    }
}

pub open spec fn metafield_edges_view(es: Seq<MetafieldDefEdge>, m: Map<Seq<char>, Seq<char>>) -> Seq<ShopifyMetafieldView> {
    es.map_values(|e: MetafieldDefEdge| metafield_of_node(e.node, m))
}

impl Clone for MetafieldValidationNode {
    fn clone(&self) -> (r: Self)
        ensures
            r == *self,
    {
        MetafieldValidationNode { name: self.name.clone(), value: copy_opt_string(&self.value) }
    }
}

fn copy_validation_nodes(v: &Vec<MetafieldValidationNode>) -> (r: Vec<MetafieldValidationNode>)
    ensures
        r@ == v@,
{
    let mut out: Vec<MetafieldValidationNode> = Vec::new();
    let mut i: usize = 0;
    while i < v.len()
        invariant
            i <= v.len(),
            out@ == v@.take(i as int),
        decreases v.len() - i,
    {
        out.push(v[i].clone());
        assert(out@ =~= v@.take(i + 1));
        i = i + 1;
    }
    assert(v@.take(v.len() as int) =~= v@);
    out
}

fn flag_from_node(f: Option<CapabilityFlagNode>) -> (r: Option<CapabilityFlag>)
    ensures
        r == flag_of(f),
{
    match f {
        Some(x) => Some(CapabilityFlag { enabled: x.enabled }),
        None => None,
    }
}

fn metafield_from_node(n: &MetafieldDefNode, m: &StringMap) -> (r: ShopifyMetafieldDefinition)
    ensures
        r@ == metafield_of_node(*n, m@),
{
    let validations = convert_validations_id_to_type(copy_validation_nodes(&n.validations), m);
    ShopifyMetafieldDefinition {
        id: Some(n.id.clone()),
        namespace: n.namespace.clone(),
        key: n.key.clone(),
        name: n.name.clone(),
        description: copy_opt_string(&n.description),
        typ: n.type_obj.name.clone(),
        validations,
        pinned_position: n.pinned_position,
        access: match &n.access {
            Some(a) => Some(MetafieldAccess {
                admin: copy_opt_string(&a.admin),
                storefront: copy_opt_string(&a.storefront),
                customer_account: copy_opt_string(&a.customer_account),
            }),
            None => None,
        },
        capabilities: match n.capabilities {
            Some(c) => Some(MetafieldCapabilities {
                admin_filterable: flag_from_node(c.admin_filterable),
                smart_collection_condition: flag_from_node(c.smart_collection_condition),
                unique_values: flag_from_node(c.unique_values),
            }),
            None => None,
        },
    }
}


/// One page of `metafieldDefinitions`: the definitions it holds, read from its nodes, and the
/// cursor of the next page; or the error of a response with GraphQL errors or no data.
pub fn metafield_definitions_page(body: GraphQlResponse<MetafieldDefsData>, owner_type: OwnerType, metaobject_id_to_type: &StringMap) -> (r: Result<(Vec<ShopifyMetafieldDefinition>, Option<String>), AppError>)
    ensures
        match body.errors {
            Some(e) => r matches Err(x) && gateway_error(x, "GraphQL errors when querying metafieldDefinitions("@ + owner_type.name() + "): "@ + e@),
            None => match body.data {
                None => r matches Err(x) && gateway_error(x, "missing data in metafieldDefinitions response"@),
                Some(d) => r matches Ok(p) && shopify_metafields_view(p.0@) == metafield_edges_view(d.metafield_definitions.edges@, metaobject_id_to_type@)
                    && opt_view(p.1) == next_cursor(d.metafield_definitions.page_info),
            },
        },
{
    if let Some(e) = &body.errors {
        let a = concat("GraphQL errors when querying metafieldDefinitions(", owner_type.as_str());
        let b = concat(a.as_str(), "): ");
        return Err(AppError::Gateway(concat(b.as_str(), e.as_str())));
    }
    let data = match &body.data {
        Some(d) => d,
        None => {
            return Err(AppError::Gateway("missing data in metafieldDefinitions response".to_string()));
        },
    };
    let edges = &data.metafield_definitions.edges;
    let ghost m = metaobject_id_to_type@;
    let mut out: Vec<ShopifyMetafieldDefinition> = Vec::new();
    let mut i: usize = 0;
    while i < edges.len()
        invariant
            i <= edges.len(),
            m == metaobject_id_to_type@,
            shopify_metafields_view(out@) == metafield_edges_view(edges@.take(i as int), m),
        decreases edges.len() - i,
    {
        let d = metafield_from_node(&edges[i].node, metaobject_id_to_type);
        let ghost before = out@;
        out.push(d);
        proof {
            lemma_map_values_push(before, d, |x: ShopifyMetafieldDefinition| x@);
            lemma_take_push(edges@, i as int);
            lemma_map_values_push(edges@.take(i as int), edges@[i as int], |e: MetafieldDefEdge| metafield_of_node(e.node, m));
        }
        i = i + 1;
    }
    assert(edges@.take(edges.len() as int) =~= edges@);
    Ok((out, next_page(&data.metafield_definitions.page_info)))
}

/// The variables of a page request of a paged listing: the owner type (for metafield
/// definitions), how many items a page holds, and the cursor to continue after.
pub struct PageRequest {
    pub owner_type: Option<String>,
    pub first: i32,
    pub after: Option<String>,
}

/// The request of a page of metafield definitions of `owner_type`: ten a page, after `after`.
pub fn metafield_definitions_request(owner_type: OwnerType, after: &Option<String>) -> (r: PageRequest)
    ensures
        r.owner_type matches Some(o) && o@ == owner_type.name(),
        r.first == 10,
        opt_view(r.after) == opt_view(*after),
{
    PageRequest { owner_type: Some(owner_type.as_str().to_string()), first: 10, after: copy_opt_string(after) }
}

/// The request of a page of metaobject definitions: fifty a page, after `after`.
pub fn metaobject_definitions_request(after: &Option<String>) -> (r: PageRequest)
    ensures
        r.owner_type is None,
        r.first == 50,
        opt_view(r.after) == opt_view(*after),
{
    PageRequest { owner_type: None, first: 50, after: copy_opt_string(after) }
}

/// The metafield definitions of the pages `ps`, page after page, each in its order.
pub open spec fn listed_metafields(ps: Seq<MetafieldDefsData>, m: Map<Seq<char>, Seq<char>>) -> Seq<ShopifyMetafieldView>
    decreases ps.len(),
{
    if ps.len() == 0 {
        Seq::empty()
    } else {
        listed_metafields(ps.drop_last(), m) + metafield_edges_view(ps.last().metafield_definitions.edges@, m)
    }
}

/// Listing the metafield definitions of an owner type page by page: the definitions of the
/// pages received so far (`pages`), the cursor to continue after, and whether the last page
/// has been received.
pub struct MetafieldListing {
    pub defs: Vec<ShopifyMetafieldDefinition>,
    pub after: Option<String>,
    pub done: bool,
    pub pages: Ghost<Seq<MetafieldDefsData>>,
}

/// `l` holds the definitions of all its pages in order, continues after the cursor of the last
/// page, and is done exactly when that page has no next one.
pub open spec fn listing_ok(l: MetafieldListing, m: Map<Seq<char>, Seq<char>>) -> bool {
    &&& shopify_metafields_view(l.defs@) == listed_metafields(l.pages@, m)
    &&& l.pages@.len() == 0 ==> l.after is None && !l.done
    &&& l.pages@.len() > 0 ==> opt_view(l.after) == next_cursor(l.pages@.last().metafield_definitions.page_info)
        && l.done == (l.after is None)
}

/// A listing before its first page.
pub fn start_metafield_listing() -> (r: MetafieldListing)
    ensures
        r.pages@.len() == 0,
        forall|m: Map<Seq<char>, Seq<char>>| #[trigger] listing_ok(r, m),
{
    let r = MetafieldListing { defs: Vec::new(), after: None, done: false, pages: Ghost(Seq::empty()) };
    assert(shopify_metafields_view(r.defs@) =~= Seq::<ShopifyMetafieldView>::empty());
    r
}

/// The request of the listing's next page (`metafield_definitions_request` after its cursor).
pub fn metafield_listing_request(l: &MetafieldListing, owner_type: OwnerType) -> (r: PageRequest)
    ensures
        r.owner_type matches Some(o) && o@ == owner_type.name(),
        r.first == 10,
        opt_view(r.after) == opt_view(l.after),
{
    metafield_definitions_request(owner_type, &l.after)
}

/// Takes in the answer to the listing's next page request (see `metafield_definitions_page`):
/// an answer with GraphQL errors or without data ends the listing with that error; otherwise
/// the page's definitions are added after those already listed and the listing goes on after
/// the page's cursor, or is done.
pub fn continue_metafield_listing(
    l: MetafieldListing,
    body: GraphQlResponse<MetafieldDefsData>,
    owner_type: OwnerType,
    metaobject_id_to_type: &StringMap,
) -> (r: Result<MetafieldListing, AppError>)
    ensures
        match body.errors {
            Some(e) => r matches Err(x) && gateway_error(x, "GraphQL errors when querying metafieldDefinitions("@ + owner_type.name() + "): "@ + e@),
            None => match body.data {
                None => r matches Err(x) && gateway_error(x, "missing data in metafieldDefinitions response"@),
                Some(d) => r matches Ok(t) && t.pages@ == l.pages@.push(d)
                    && shopify_metafields_view(t.defs@) == shopify_metafields_view(l.defs@)
                        + metafield_edges_view(d.metafield_definitions.edges@, metaobject_id_to_type@)
                    && opt_view(t.after) == next_cursor(d.metafield_definitions.page_info)
                    && t.done == (t.after is None)
                    && (listing_ok(l, metaobject_id_to_type@) ==> listing_ok(t, metaobject_id_to_type@)),
            },
        },
{
    let ghost d = body.data->0;
    let ghost has_data = body.errors is None && body.data is Some;
    let (page, next) = metafield_definitions_page(body, owner_type, metaobject_id_to_type)?;
    let MetafieldListing { defs, after: _, done: _, pages } = l;
    let mut defs = defs;
    let mut page = page;
    let ghost before = defs@;
    let ghost added = page@;
    defs.append(&mut page);
    proof {
        assert(shopify_metafields_view(before + added) =~= shopify_metafields_view(before) + shopify_metafields_view(added));
    }
    let done = next.is_none();
    let t = MetafieldListing { defs, after: next, done, pages: Ghost(pages@.push(d)) };
    proof {
        let ps = t.pages@;
        assert(ps.drop_last() =~= l.pages@);
    }
    Ok(t)
}

pub open spec fn id_type_of_edges(es: Seq<MetaobjectDefEdge>) -> Seq<(Seq<char>, Seq<char>)> {
    es.map_values(|e: MetaobjectDefEdge| (e.node.id@, e.node.typ@))
}

/// One page of `metaobjectDefinitions` ids and types: the `(id, type)` pairs and the cursor of
/// the next page; or the error of a response with GraphQL errors or no data.
pub fn metaobject_id_type_page(body: GraphQlResponse<MetaobjectDefsData>) -> (r: Result<(Vec<(String, String)>, Option<String>), AppError>)
    ensures
        match body.errors {
            Some(e) => r matches Err(x) && gateway_error(x, "GraphQL errors when querying metaobjectDefinitions: "@ + e@),
            None => match body.data {
                None => r matches Err(x) && gateway_error(x, "missing data in metaobjectDefinitions response"@),
                Some(d) => r matches Ok(p) && pair_views(p.0@) == id_type_of_edges(d.metaobject_definitions.edges@)
                    && opt_view(p.1) == next_cursor(d.metaobject_definitions.page_info),
            },
        },
{
    if let Some(e) = &body.errors {
        return Err(AppError::Gateway(concat("GraphQL errors when querying metaobjectDefinitions: ", e.as_str())));
    }
    let data = match &body.data {
        Some(d) => d,
        None => {
            return Err(AppError::Gateway("missing data in metaobjectDefinitions response".to_string()));
        },
    };
    let edges = &data.metaobject_definitions.edges;
    let mut out: Vec<(String, String)> = Vec::new();
    let mut i: usize = 0;
    while i < edges.len()
        invariant
            i <= edges.len(),
            pair_views(out@) == id_type_of_edges(edges@.take(i as int)),
        decreases edges.len() - i,
    {
        let p = (edges[i].node.id.clone(), edges[i].node.typ.clone());
        let ghost before = out@;
        out.push(p);
        proof {
            lemma_map_values_push(before, p, |q: (String, String)| (q.0@, q.1@));
            lemma_take_push(edges@, i as int);
            lemma_map_values_push(edges@.take(i as int), edges@[i as int], |e: MetaobjectDefEdge| (e.node.id@, e.node.typ@));
        }
        i = i + 1;
    }
    assert(edges@.take(edges.len() as int) =~= edges@);
    Ok((out, next_page(&data.metaobject_definitions.page_info)))
}

pub open spec fn swap_pairs(es: Seq<(Seq<char>, Seq<char>)>) -> Seq<(Seq<char>, Seq<char>)> {
    es.map_values(|p: (Seq<char>, Seq<char>)| (p.1, p.0))
}

/// The `type -> id` map of an `id -> type` map (for a type with several ids, the last listed id).
pub fn type_to_id_map(id_to_type: &StringMap) -> (r: StringMap)
    ensures
        r@ == map_of(swap_pairs(id_to_type.entries_view())),
{
    let es = id_to_type.entries();
    let ghost sw = swap_pairs(id_to_type.entries_view());
    let mut out = StringMap::new();
    let mut i: usize = 0;
    assert(map_of(sw.take(0)) =~= Map::<Seq<char>, Seq<char>>::empty());
    while i < es.len()
        invariant
            i <= es.len(),
            pair_views(es@) == id_to_type.entries_view(),
            sw == swap_pairs(id_to_type.entries_view()),
            out@ == map_of(sw.take(i as int)),
        decreases es.len() - i,
    {
        out.insert(es[i].1.clone(), es[i].0.clone());
        proof {
            lemma_take_push(sw, i as int);
            assert(sw[i as int] == (es@[i as int].1@, es@[i as int].0@));
            crate::maps::lemma_map_of_push(sw.take(i as int), es@[i as int].1@, es@[i as int].0@);
        }
        i = i + 1;
    }
    assert(sw.take(es.len() as int) =~= sw);
    out
}

impl View for MetaobjectValidationNodeForExport {
    type V = RuleView;

    open spec fn view(&self) -> RuleView {
        RuleView { name: self.name@, value: opt_view(self.value) }
    }
}

pub open spec fn mo_flag_of(f: Option<MetaobjectCapabilityFlagNodeForExport>) -> Option<CapabilityFlag> {
    match f {
        Some(x) => Some(CapabilityFlag { enabled: x.enabled }),
        None => None,
    }
}

pub open spec fn field_of_node(f: MetaobjectFieldDefForExport) -> ShopifyFieldView {
    ShopifyFieldView {
        key: f.key@,
        name: f.name@,
        typ: f.type_obj.name@,
        required: f.required,
        description: opt_view(f.description),
        validations: f.validations@.map_values(|v: MetaobjectValidationNodeForExport| v@),
    }
}

/// A metaobject definition as read from a response node.
pub open spec fn metaobject_of_node(n: MetaobjectDefNodeForExport) -> ShopifyDefinitionView {
    ShopifyDefinitionView {
        id: Some(n.id@),
        typ: n.typ@,
        name: n.name@,
        description: opt_view(n.description),
        display_name_key: opt_view(n.display_name_key),
        access: match n.access {
            Some(a) => Some(AccessView { admin: opt_view(a.admin), storefront: opt_view(a.storefront) }),
            None => None,
        },
        capabilities: match n.capabilities {
            Some(c) => Some(MetaobjectCapabilitiesConfig {
                publishable: mo_flag_of(c.publishable),
                translatable: mo_flag_of(c.translatable),
                renderable: mo_flag_of(c.renderable),
                online_store: mo_flag_of(c.online_store),
            }),
            None => None,
        },
        field_definitions: n.field_definitions@.map_values(|f: MetaobjectFieldDefForExport| field_of_node(f)),
    }
}

pub open spec fn metaobject_edges_view(es: Seq<MetaobjectDefEdgeForExport>) -> Seq<ShopifyDefinitionView> {
    es.map_values(|e: MetaobjectDefEdgeForExport| metaobject_of_node(e.node))
}

fn mo_flag_from_node(f: Option<MetaobjectCapabilityFlagNodeForExport>) -> (r: Option<CapabilityFlag>)
    ensures
        r == mo_flag_of(f),
{
    match f {
        Some(x) => Some(CapabilityFlag { enabled: x.enabled }),
        None => None,
    }
}

fn field_from_node(f: &MetaobjectFieldDefForExport) -> (r: ShopifyMetaobjectFieldDefinition)
    ensures
        r@ == field_of_node(*f),
{
    let mut rules: Vec<MetaobjectValidationRule> = Vec::new();
    let mut i: usize = 0;
    while i < f.validations.len()
        invariant
            i <= f.validations.len(),
            rules_view(rules@) == f.validations@.take(i as int).map_values(|v: MetaobjectValidationNodeForExport| v@),
        decreases f.validations.len() - i,
    {
        let v = &f.validations[i];
        let rule = MetaobjectValidationRule { name: v.name.clone(), value: copy_opt_string(&v.value) };
        let ghost before = rules@;
        rules.push(rule);
        proof {
            lemma_map_values_push(before, rule, |x: MetaobjectValidationRule| x@);
            lemma_take_push(f.validations@, i as int);
            lemma_map_values_push(f.validations@.take(i as int), f.validations@[i as int], |v: MetaobjectValidationNodeForExport| v@);
        }
        i = i + 1;
    }
    assert(f.validations@.take(f.validations.len() as int) =~= f.validations@);
    ShopifyMetaobjectFieldDefinition {
        key: f.key.clone(),
        name: f.name.clone(),
        typ: f.type_obj.name.clone(),
        required: f.required,
        description: copy_opt_string(&f.description),
        validations: rules,
    }
}

fn metaobject_from_node(n: &MetaobjectDefNodeForExport) -> (r: ShopifyMetaobjectDefinition)
    ensures
        r@ == metaobject_of_node(*n),
{
    let mut fields: Vec<ShopifyMetaobjectFieldDefinition> = Vec::new();
    let mut i: usize = 0;
    while i < n.field_definitions.len()
        invariant
            i <= n.field_definitions.len(),
            crate::metaobjects::export::shopify_fields_view(fields@) == n.field_definitions@.take(i as int).map_values(|f: MetaobjectFieldDefForExport| field_of_node(f)),
        decreases n.field_definitions.len() - i,
    {
        let f = field_from_node(&n.field_definitions[i]);
        let ghost before = fields@;
        fields.push(f);
        proof {
            lemma_map_values_push(before, f, |x: ShopifyMetaobjectFieldDefinition| x@);
            lemma_take_push(n.field_definitions@, i as int);
            lemma_map_values_push(n.field_definitions@.take(i as int), n.field_definitions@[i as int], |f: MetaobjectFieldDefForExport| field_of_node(f));
        }
        i = i + 1;
    }
    assert(n.field_definitions@.take(n.field_definitions.len() as int) =~= n.field_definitions@);
    ShopifyMetaobjectDefinition {
        id: Some(n.id.clone()),
        typ: n.typ.clone(),
        name: n.name.clone(),
        description: copy_opt_string(&n.description),
        display_name_key: copy_opt_string(&n.display_name_key),
        access: match &n.access {
            Some(a) => Some(MetaobjectAccessConfig { admin: copy_opt_string(&a.admin), storefront: copy_opt_string(&a.storefront) }),
            None => None,
        },
        capabilities: match n.capabilities {
            Some(c) => Some(MetaobjectCapabilitiesConfig {
                publishable: mo_flag_from_node(c.publishable),
                translatable: mo_flag_from_node(c.translatable),
                renderable: mo_flag_from_node(c.renderable),
                online_store: mo_flag_from_node(c.online_store),
            }),
            None => None,
        },
        field_definitions: fields,
    }
}

/// One page of full `metaobjectDefinitions`: the definitions read from its nodes and the
/// cursor of the next page; or the error of a response with GraphQL errors or no data.
pub fn metaobject_definitions_page(body: GraphQlResponse<MetaobjectDefsDataForExport>) -> (r: Result<(Vec<ShopifyMetaobjectDefinition>, Option<String>), AppError>)
    ensures
        match body.errors {
            Some(e) => r matches Err(x) && gateway_error(x, "GraphQL errors when querying metaobjectDefinitions: "@ + e@),
            None => match body.data {
                None => r matches Err(x) && gateway_error(x, "missing data in metaobjectDefinitions response"@),
                Some(d) => r matches Ok(p) && shopify_definitions_view(p.0@) == metaobject_edges_view(d.metaobject_definitions.edges@)
                    && opt_view(p.1) == next_cursor(d.metaobject_definitions.page_info),
            },
        },
{
    if let Some(e) = &body.errors {
        return Err(AppError::Gateway(concat("GraphQL errors when querying metaobjectDefinitions: ", e.as_str())));
    }
    let data = match &body.data {
        Some(d) => d,
        None => {
            return Err(AppError::Gateway("missing data in metaobjectDefinitions response".to_string()));
        },
    };
    let edges = &data.metaobject_definitions.edges;
    let mut out: Vec<ShopifyMetaobjectDefinition> = Vec::new();
    let mut i: usize = 0;
    while i < edges.len()
        invariant
            i <= edges.len(),
            shopify_definitions_view(out@) == metaobject_edges_view(edges@.take(i as int)),
        decreases edges.len() - i,
    {
        let d = metaobject_from_node(&edges[i].node);
        let ghost before = out@;
        out.push(d);
        proof {
            lemma_map_values_push(before, d, |x: ShopifyMetaobjectDefinition| x@);
            lemma_take_push(edges@, i as int);
            lemma_map_values_push(edges@.take(i as int), edges@[i as int], |e: MetaobjectDefEdgeForExport| metaobject_of_node(e.node));
        }
        i = i + 1;
    }
    assert(edges@.take(edges.len() as int) =~= edges@);
    Ok((out, next_page(&data.metaobject_definitions.page_info)))
}


/// The metaobject definitions of the pages `ps`, page after page, each in its order.
pub open spec fn listed_metaobjects(ps: Seq<MetaobjectDefsDataForExport>) -> Seq<ShopifyDefinitionView>
    decreases ps.len(),
{
    if ps.len() == 0 {
        Seq::empty()
    } else {
        listed_metaobjects(ps.drop_last()) + metaobject_edges_view(ps.last().metaobject_definitions.edges@)
    }
}

/// Listing all metaobject definitions page by page: the definitions of the pages received so
/// far (`pages`), the cursor to continue after, and whether the last page has been received.
pub struct MetaobjectListing {
    pub defs: Vec<ShopifyMetaobjectDefinition>,
    pub after: Option<String>,
    pub done: bool,
    pub pages: Ghost<Seq<MetaobjectDefsDataForExport>>,
}

/// `l` holds the definitions of all its pages in order, continues after the cursor of the last
/// page, and is done exactly when that page has no next one.
pub open spec fn metaobject_listing_ok(l: MetaobjectListing) -> bool {
    &&& shopify_definitions_view(l.defs@) == listed_metaobjects(l.pages@)
    &&& l.pages@.len() == 0 ==> l.after is None && !l.done
    &&& l.pages@.len() > 0 ==> opt_view(l.after) == next_cursor(l.pages@.last().metaobject_definitions.page_info)
        && l.done == (l.after is None)
}

/// A listing of metaobject definitions before its first page.
pub fn start_metaobject_listing() -> (r: MetaobjectListing)
    ensures
        r.pages@.len() == 0,
        metaobject_listing_ok(r),
{
    let r = MetaobjectListing { defs: Vec::new(), after: None, done: false, pages: Ghost(Seq::empty()) };
    assert(shopify_definitions_view(r.defs@) =~= Seq::<ShopifyDefinitionView>::empty());
    r
}

/// Takes in the answer to the listing's next page request (`metaobject_definitions_request`
/// after its cursor; see `metaobject_definitions_page`): an answer with GraphQL errors or
/// without data ends the listing with that error; otherwise the page's definitions are added
/// after those already listed and the listing goes on after the page's cursor, or is done.
pub fn continue_metaobject_listing(l: MetaobjectListing, body: GraphQlResponse<MetaobjectDefsDataForExport>) -> (r: Result<MetaobjectListing, AppError>)
    ensures
        match body.errors {
            Some(e) => r matches Err(x) && gateway_error(x, "GraphQL errors when querying metaobjectDefinitions: "@ + e@),
            None => match body.data {
                None => r matches Err(x) && gateway_error(x, "missing data in metaobjectDefinitions response"@),
                Some(d) => r matches Ok(t) && t.pages@ == l.pages@.push(d)
                    && shopify_definitions_view(t.defs@) == shopify_definitions_view(l.defs@)
                        + metaobject_edges_view(d.metaobject_definitions.edges@)
                    && opt_view(t.after) == next_cursor(d.metaobject_definitions.page_info)
                    && t.done == (t.after is None)
                    && (metaobject_listing_ok(l) ==> metaobject_listing_ok(t)),
            },
        },
{
    let ghost d = body.data->0;
    let (page, next) = metaobject_definitions_page(body)?;
    let MetaobjectListing { defs, after: _, done: _, pages } = l;
    let mut defs = defs;
    let mut page = page;
    let ghost before = defs@;
    let ghost added = page@;
    defs.append(&mut page);
    proof {
        assert(shopify_definitions_view(before + added) =~= shopify_definitions_view(before) + shopify_definitions_view(added));
    }
    let done = next.is_none();
    let t = MetaobjectListing { defs, after: next, done, pages: Ghost(pages@.push(d)) };
    proof {
        assert(t.pages@.drop_last() =~= l.pages@);
    }
    Ok(t)
}

/// The `id -> type` pairs of the pages `ps`, page after page.
pub open spec fn listed_id_types(ps: Seq<MetaobjectDefsData>) -> Seq<(Seq<char>, Seq<char>)>
    decreases ps.len(),
{
    if ps.len() == 0 {
        Seq::empty()
    } else {
        listed_id_types(ps.drop_last()) + id_type_of_edges(ps.last().metaobject_definitions.edges@)
    }
}

/// Collecting the `id -> type` map of all metaobject definitions page by page: the map of the
/// pages received so far (`pages`; a later id wins), the cursor to continue after, and whether
/// the last page has been received.
pub struct IdTypeListing {
    pub map: StringMap,
    pub after: Option<String>,
    pub done: bool,
    pub pages: Ghost<Seq<MetaobjectDefsData>>,
}

/// `l` maps the ids of all its pages to their types, continues after the cursor of the last
/// page, and is done exactly when that page has no next one.
pub open spec fn id_type_listing_ok(l: IdTypeListing) -> bool {
    &&& l.map@ == map_of(listed_id_types(l.pages@))
    &&& l.pages@.len() == 0 ==> l.after is None && !l.done
    &&& l.pages@.len() > 0 ==> opt_view(l.after) == next_cursor(l.pages@.last().metaobject_definitions.page_info)
        && l.done == (l.after is None)
}

/// A collection of the `id -> type` map before its first page.
pub fn start_id_type_listing() -> (r: IdTypeListing)
    ensures
        r.pages@.len() == 0,
        id_type_listing_ok(r),
{
    let r = IdTypeListing { map: StringMap::new(), after: None, done: false, pages: Ghost(Seq::empty()) };
    assert(map_of(listed_id_types(r.pages@)) =~= Map::<Seq<char>, Seq<char>>::empty());
    r
}

/// Takes in the answer to the collection's next page request (`metaobject_definitions_request`
/// after its cursor; see `metaobject_id_type_page`): an answer with GraphQL errors or without
/// data ends it with that error; otherwise the page's ids are mapped to their types, in order
/// (a later id wins), and the collection goes on after the page's cursor, or is done.
pub fn continue_id_type_listing(l: IdTypeListing, body: GraphQlResponse<MetaobjectDefsData>) -> (r: Result<IdTypeListing, AppError>)
    ensures
        match body.errors {
            Some(e) => r matches Err(x) && gateway_error(x, "GraphQL errors when querying metaobjectDefinitions: "@ + e@),
            None => match body.data {
                None => r matches Err(x) && gateway_error(x, "missing data in metaobjectDefinitions response"@),
                Some(d) => r matches Ok(t) && t.pages@ == l.pages@.push(d)
                    && opt_view(t.after) == next_cursor(d.metaobject_definitions.page_info)
                    && t.done == (t.after is None)
                    && (id_type_listing_ok(l) ==> id_type_listing_ok(t)),
            },
        },
{
    let ghost d = body.data->0;
    let (pairs, next) = metaobject_id_type_page(body)?;
    let IdTypeListing { map, after: _, done: _, pages } = l;
    let mut map = map;
    let ghost base = listed_id_types(pages@);
    let ghost added = pair_views(pairs@);
    let ghost m_in = map@;
    assert(base + added.take(0) =~= base);
    let mut i: usize = 0;
    while i < pairs.len()
        invariant
            i <= pairs.len(),
            added == pair_views(pairs@),
            m_in == map_of(base) ==> map@ == map_of(base + added.take(i as int)),
        decreases pairs.len() - i,
    {
        let ghost m0 = map@;
        map.insert(pairs[i].0.clone(), pairs[i].1.clone());
        proof {
            assert(added[i as int] == (pairs@[i as int].0@, pairs@[i as int].1@));
            assert((base + added.take(i + 1)) =~= (base + added.take(i as int)).push(added[i as int]));
            crate::maps::lemma_map_of_push(base + added.take(i as int), added[i as int].0, added[i as int].1);
        }
        i = i + 1;
    }
    assert(added.take(pairs.len() as int) =~= added);
    let done = next.is_none();
    let t = IdTypeListing { map, after: next, done, pages: Ghost(pages@.push(d)) };
    proof {
        assert(t.pages@.drop_last() =~= l.pages@);
        assert(listed_id_types(t.pages@) == base + id_type_of_edges(d.metaobject_definitions.edges@));
    }
    Ok(t)
}
} // verus!

//! Metafield export: the rules that turn Shopify definitions into the definitions file.

use vstd::prelude::*;
use crate::domain::OwnerType;
use crate::error::AppError;
use crate::logging::Logger;
use crate::model::{RuleView, opt_view, copy_opt_string, lemma_map_values_push, lemma_take_push};
use crate::ports::{FileRepo, JsonCodec, MetafieldGateway};
use crate::text::{lower, starts_with, str_eq, to_ascii_lowercase, concat};
use super::types::{MetafieldAccess, MetafieldAccessView, MetafieldCapabilities, MetafieldValidation,
    ShopifyMetafieldDefinition, ShopifyMetafieldView, validations_view, copy_validations,
    shopify_metafields_view};

verus! {

/// A metafield definition as the definitions file holds it.
#[derive(Debug, Clone, PartialEq, Eq)]
pub struct ExportedMetafieldDefinition {
    pub namespace: String,
    pub key: String,
    pub name: String,
    pub description: Option<String>,
    pub typ: String,
    pub validations: Option<Vec<MetafieldValidation>>,
    /// Always written: whether Shopify reports a pinned position.
    pub pin: bool,
    pub access: Option<MetafieldAccess>,
    pub capabilities: Option<MetafieldCapabilities>,
}

pub struct ExportedMetafieldView {
    pub namespace: Seq<char>,
    pub key: Seq<char>,
    pub name: Seq<char>,
    pub description: Option<Seq<char>>,
    pub typ: Seq<char>,
    pub validations: Option<Seq<RuleView>>,
    pub pin: bool,
    pub access: Option<MetafieldAccessView>,
    pub capabilities: Option<MetafieldCapabilities>,
}

pub open spec fn opt_validations_view(o: Option<Vec<MetafieldValidation>>) -> Option<Seq<RuleView>> {
    match o {
        Some(v) => Some(validations_view(v@)),
        None => None,
    }
}

impl View for ExportedMetafieldDefinition {
    type V = ExportedMetafieldView;

    open spec fn view(&self) -> ExportedMetafieldView {
        ExportedMetafieldView {
            namespace: self.namespace@,
            key: self.key@,
            name: self.name@,
            description: opt_view(self.description),
            typ: self.typ@,
            validations: opt_validations_view(self.validations),
            pin: self.pin,
            access: crate::metafields::types::opt_access_view(self.access),
            capabilities: self.capabilities,
        }
    }
}

pub open spec fn exported_metafields_view(v: Seq<ExportedMetafieldDefinition>) -> Seq<ExportedMetafieldView> {
    v.map_values(|d: ExportedMetafieldDefinition| d@)
}

/// Admin access as exported: public values become their merchant counterparts.
pub open spec fn exported_admin_access(a: Seq<char>) -> Seq<char> {
    if a == "PUBLIC_READ_WRITE"@ {
        "MERCHANT_READ_WRITE"@
    } else if a == "PUBLIC_READ"@ || a == "PRIVATE"@ {
        "MERCHANT_READ"@
    } else {
        a
    }
}

/// Storefront access as exported: `MERCHANT_READ` becomes `PUBLIC_READ`.
pub open spec fn exported_storefront_access(s: Seq<char>) -> Seq<char> {
    if s == "MERCHANT_READ"@ {
        "PUBLIC_READ"@
    } else {
        s
    }
}

pub open spec fn map_opt(o: Option<Seq<char>>, f: spec_fn(Seq<char>) -> Seq<char>) -> Option<Seq<char>> {
    match o {
        Some(s) => Some(f(s)),
        None => None,
    }
}

pub open spec fn exported_access(a: MetafieldAccessView) -> MetafieldAccessView {
    MetafieldAccessView {
        admin: map_opt(a.admin, |x: Seq<char>| exported_admin_access(x)),
        storefront: map_opt(a.storefront, |x: Seq<char>| exported_storefront_access(x)),
        customer_account: a.customer_account,
    }
}

/// Namespaces that Shopify owns (`shopify`, `shopify--…`, …) are not exported.
pub open spec fn is_shopify_namespace(ns: Seq<char>) -> bool {
    "shopify"@.is_prefix_of(ns)
}

/// One definition as exported.
pub open spec fn exported_metafield(d: ShopifyMetafieldView) -> ExportedMetafieldView {
    ExportedMetafieldView {
        namespace: d.namespace,
        key: d.key,
        name: d.name,
        description: d.description,
        typ: d.typ,
        validations: if d.validations.len() == 0 { None } else { Some(d.validations) },
        pin: d.pinned_position is Some,
        access: match d.access {
            Some(a) => Some(exported_access(a)),
            None => None,
        },
        capabilities: d.capabilities,
    }
}

/// The definitions outside Shopify's namespaces, each as exported, in order.
pub open spec fn exported_metafields(ds: Seq<ShopifyMetafieldView>) -> Seq<ExportedMetafieldView>
    decreases ds.len(),
{
    if ds.len() == 0 {
        Seq::empty()
    } else if is_shopify_namespace(ds.last().namespace) {
        exported_metafields(ds.drop_last())
    } else {
        exported_metafields(ds.drop_last()).push(exported_metafield(ds.last()))
    }
}

fn export_admin(a: &str) -> (r: String)
    ensures
        r@ == exported_admin_access(a@),
{
    if str_eq(a, "PUBLIC_READ_WRITE") {
        "MERCHANT_READ_WRITE".to_string()
    } else if str_eq(a, "PUBLIC_READ") || str_eq(a, "PRIVATE") {
        "MERCHANT_READ".to_string()
    } else {
        a.to_string()
    }
}

fn export_storefront(s: &str) -> (r: String)
    ensures
        r@ == exported_storefront_access(s@),
{
    if str_eq(s, "MERCHANT_READ") {
        "PUBLIC_READ".to_string()
    } else {
        s.to_string()
    }
}

fn export_one(d: &ShopifyMetafieldDefinition) -> (r: ExportedMetafieldDefinition)
    ensures
        r@ == exported_metafield(d@),
{
    let access = match &d.access {
        None => None,
        Some(a) => {
            let admin = match &a.admin {
                Some(x) => Some(export_admin(x.as_str())),
                None => None,
            };
            let storefront = match &a.storefront {
                Some(x) => Some(export_storefront(x.as_str())),
                None => None,
            };
            Some(MetafieldAccess { admin, storefront, customer_account: copy_opt_string(&a.customer_account) })
        },
    };
    let validations = if d.validations.len() == 0 {
        None
    } else {
        Some(copy_validations(&d.validations))
    };
    let r = ExportedMetafieldDefinition {
        namespace: d.namespace.clone(),
        key: d.key.clone(),
        name: d.name.clone(),
        description: copy_opt_string(&d.description),
        typ: d.typ.clone(),
        validations,
        pin: d.pinned_position.is_some(),
        access,
        capabilities: d.capabilities,
    };
    assert(r@.access == exported_metafield(d@).access);
    r
}

/// The definitions outside Shopify's own namespaces, in order, with access values normalised
/// (admin `PUBLIC_READ_WRITE` → `MERCHANT_READ_WRITE`, `PUBLIC_READ`/`PRIVATE` →
/// `MERCHANT_READ`; storefront `MERCHANT_READ` → `PUBLIC_READ`), empty validations left out and
/// `pin` set when Shopify reports a pinned position.
pub fn export_metafield_definitions(input: Vec<ShopifyMetafieldDefinition>) -> (r: Vec<ExportedMetafieldDefinition>)
    ensures
        exported_metafields_view(r@) == exported_metafields(shopify_metafields_view(input@)),
{
    let ghost iv = shopify_metafields_view(input@);
    let mut out: Vec<ExportedMetafieldDefinition> = Vec::new();
    let mut i: usize = 0;
    while i < input.len()
        invariant
            i <= input.len(),
            iv == shopify_metafields_view(input@),
            exported_metafields_view(out@) == exported_metafields(iv.take(i as int)),
        decreases input.len() - i,
    {
        proof {
            lemma_take_push(iv, i as int);
            assert(iv.take(i + 1).drop_last() =~= iv.take(i as int));
            assert(iv[i as int] == input@[i as int]@);
        }
        if !starts_with(input[i].namespace.as_str(), "shopify") {
            let e = export_one(&input[i]);
            let ghost before = out@;
            out.push(e);
            proof {
                lemma_map_values_push(before, e, |d: ExportedMetafieldDefinition| d@);
            }
        }
        i = i + 1;
    }
    assert(iv.take(input.len() as int) =~= iv);
    out
}

/// Where the definitions of an owner type are kept: `definitions/metafields/<owner>.json`
/// with the owner type's name in lower case.
pub open spec fn metafield_definitions_path(o: OwnerType) -> Seq<char> {
    "definitions/metafields/"@ + lower(o.name()) + ".json"@
}

/// The definitions file of an owner type.
pub fn metafield_definitions_file(owner_type: OwnerType) -> (r: String)
    ensures
        r@ == metafield_definitions_path(owner_type),
{
    let owner = to_ascii_lowercase(owner_type.as_str());
    let p = concat("definitions/metafields/", owner.as_str());
    concat(p.as_str(), ".json")
}

/// Whatever a list of definitions holds, its export holds none of Shopify's namespaces.
pub proof fn lemma_export_drops_shopify_namespaces(ds: Seq<ShopifyMetafieldView>)
    ensures
        forall|i: int| 0 <= i < exported_metafields(ds).len() ==> !is_shopify_namespace(#[trigger] exported_metafields(ds)[i].namespace),
    decreases ds.len(),
{
    if ds.len() > 0 {
        lemma_export_drops_shopify_namespaces(ds.drop_last());
    }
}

/// One call of the gateway's `list_metafield_definitions` for `owner_type`: what Shopify lists
/// now. Nothing is known of the result; the export use cases state, through `call_ensures` of
/// this function, what they do with whatever it returned.
pub fn fetch_metafield_definitions<G: MetafieldGateway, L: Logger>(gateway: &G, owner_type: OwnerType, logger: &L) -> Result<Vec<ShopifyMetafieldDefinition>, AppError> {
    gateway.list_metafield_definitions(owner_type, logger)
}

pub struct ExportMetafieldsUseCase<G> {
    gateway: G,
}

impl<G: MetafieldGateway> ExportMetafieldsUseCase<G> {
    /// The gateway the use case works through.
    pub closed spec fn gateway_of(self) -> G {
        self.gateway
    }

    pub fn new(gateway: G) -> (r: Self)
        ensures
            r.gateway_of() == gateway,
    {
        ExportMetafieldsUseCase { gateway }
    }

    /// Fetches the definitions of one owner type and exports them.
    pub fn execute<L: Logger>(&self, owner_type: OwnerType, logger: &L) -> (r: Result<Vec<ExportedMetafieldDefinition>, AppError>)
        ensures
            r matches Ok(v) ==> exists|ds: Seq<ShopifyMetafieldView>| exported_metafields_view(v@) == exported_metafields(ds),
            r matches Ok(v) ==> exists|listed: Vec<ShopifyMetafieldDefinition>|
                #[trigger] call_ensures(fetch_metafield_definitions::<G, L>, (&self.gateway_of(), owner_type, logger),
                    Ok::<Vec<ShopifyMetafieldDefinition>, AppError>(listed))
                && exported_metafields_view(v@) == exported_metafields(shopify_metafields_view(listed@)),
    {
        let list = fetch_metafield_definitions::<G, L>;
        let defs = list(&self.gateway, owner_type, logger)?;
        let ghost dv = shopify_metafields_view(defs@);
        let out = export_metafield_definitions(defs);
        assert(exported_metafields_view(out@) == exported_metafields(dv));
        Ok(out)
    }
}

pub struct ExportMetafieldsToFileUseCase<G> {
    gateway: G,
}

impl<G: MetafieldGateway> ExportMetafieldsToFileUseCase<G> {
    /// The gateway the use case works through.
    pub closed spec fn gateway_of(self) -> G {
        self.gateway
    }

    pub fn new(gateway: G) -> (r: Self)
        ensures
            r.gateway_of() == gateway,
    {
        ExportMetafieldsToFileUseCase { gateway }
    }

    /// Exports one owner type and writes the JSON text of the export to
    /// `definitions/metafields/<owner>.json`.
    pub fn execute<L: Logger>(&self, owner_type: OwnerType, repo: &mut impl FileRepo, codec: &impl JsonCodec, logger: &L) -> (r: Result<Vec<ExportedMetafieldDefinition>, AppError>)
        ensures
            r matches Ok(v) ==> exists|ds: Seq<ShopifyMetafieldView>| exported_metafields_view(v@) == exported_metafields(ds),
            r matches Ok(v) ==> exists|listed: Vec<ShopifyMetafieldDefinition>|
                #[trigger] call_ensures(fetch_metafield_definitions::<G, L>, (&self.gateway_of(), owner_type, logger),
                    Ok::<Vec<ShopifyMetafieldDefinition>, AppError>(listed))
                && exported_metafields_view(v@) == exported_metafields(shopify_metafields_view(listed@)),
    {
        let list = fetch_metafield_definitions::<G, L>;
        let defs = list(&self.gateway, owner_type, logger)?;
        let ghost dv = shopify_metafields_view(defs@);
        let exported = export_metafield_definitions(defs);
        assert(exported_metafields_view(exported@) == exported_metafields(dv));
        let path = metafield_definitions_file(owner_type);
        let json = match codec.metafield_definitions_text(exported.as_slice()) {
            Ok(t) => t,
            Err(m) => {
                return Err(AppError::Json(m));
            },
        };
        repo.write_text(path.as_str(), json.as_str())?;
        Ok(exported)
    }
}


/// `e` carries the listed definition `d` over: same namespace, key, name, type, description and
/// capabilities, pinned exactly when Shopify reports a pinned position, and validations only
/// when `d` has any.
pub open spec fn carries_over(e: ExportedMetafieldView, d: ShopifyMetafieldView) -> bool {
    &&& e.namespace == d.namespace
    &&& e.key == d.key
    &&& e.name == d.name
    &&& e.typ == d.typ
    &&& e.description == d.description
    &&& e.capabilities == d.capabilities
    &&& e.pin == (d.pinned_position is Some)
    &&& (e.validations is Some <==> d.validations.len() > 0)
}

/// `e` carries over some listed definition of `ds` outside Shopify's namespaces.
pub open spec fn has_source(e: ExportedMetafieldView, ds: Seq<ShopifyMetafieldView>) -> bool {
    exists|i: int| 0 <= i < ds.len() && !is_shopify_namespace(ds[i].namespace) && #[trigger] carries_over(e, ds[i])
}

/// Every exported definition carries over a listed definition outside Shopify's namespaces.
pub proof fn lemma_export_comes_from_listing(ds: Seq<ShopifyMetafieldView>)
    ensures
        forall|j: int| 0 <= j < exported_metafields(ds).len() ==> #[trigger] has_source(exported_metafields(ds)[j], ds),
    decreases ds.len(),
{
    if ds.len() > 0 {
        let d = ds.drop_last();
        lemma_export_comes_from_listing(d);
        let e0 = exported_metafields(d);
        let e = exported_metafields(ds);
        assert forall|j: int| 0 <= j < exported_metafields(ds).len() implies #[trigger] has_source(exported_metafields(ds)[j], ds) by {
            if j < e0.len() {
                assert(e[j] == e0[j]);
                assert(has_source(e0[j], d));
                let i = choose|i: int| 0 <= i < d.len() && !is_shopify_namespace(d[i].namespace) && #[trigger] carries_over(e0[j], d[i]);
                assert(ds[i] == d[i]);
                assert(carries_over(exported_metafields(ds)[j], ds[i]));
                assert(has_source(exported_metafields(ds)[j], ds));
            } else {
                assert(!is_shopify_namespace(ds.last().namespace));
                assert(e[j] == exported_metafield(ds.last()));
                assert(carries_over(exported_metafields(ds)[j], ds[ds.len() - 1]));
                assert(has_source(exported_metafields(ds)[j], ds));
            }
        }
        assert(e == exported_metafields(ds));
    } else {
        assert(exported_metafields(ds).len() == 0);
    }
}

/// Every listed definition outside Shopify's namespaces is carried over into the export.
pub proof fn lemma_export_keeps_listing(ds: Seq<ShopifyMetafieldView>)
    ensures
        forall|i: int| 0 <= i < ds.len() && !is_shopify_namespace(#[trigger] ds[i].namespace) ==> exists|j: int|
            0 <= j < exported_metafields(ds).len() && #[trigger] carries_over(exported_metafields(ds)[j], ds[i]),
    decreases ds.len(),
{
    if ds.len() > 0 {
        let d = ds.drop_last();
        lemma_export_keeps_listing(d);
        let e0 = exported_metafields(d);
        let e = exported_metafields(ds);
        assert forall|i: int| 0 <= i < ds.len() && !is_shopify_namespace(#[trigger] ds[i].namespace) implies exists|j: int|
            0 <= j < e.len() && #[trigger] carries_over(e[j], ds[i]) by {
            if i < d.len() {
                assert(ds[i] == d[i]);
                let j = choose|j: int| 0 <= j < e0.len() && #[trigger] carries_over(e0[j], d[i]);
                assert(e[j] == e0[j]);
            } else {
                assert(e[e0.len() as int] == exported_metafield(ds.last()));
                assert(carries_over(e[e0.len() as int], ds[i]));
            }
        }
    }
}

} // verus!

use mds::domain::OwnerType;
use mds::error::AppError;
use mds::logging::{LogField, LogLevel, Logger};
use mds::metafield_config::MetafieldDefinitionConfig;
use mds::metafields::export::{export_metafield_definitions, ExportMetafieldsToFileUseCase, ExportMetafieldsUseCase,
    ExportedMetafieldDefinition};
use mds::metafields::import::MetafieldImportReport;
use mds::metafields::types::{MetafieldAccess, MetafieldValidation, ShopifyMetafieldDefinition};
use mds::metaobjects::export::ExportedMetaobjectDefinition;
use mds::metaobjects::import::MetaobjectImportReport;
use mds::metaobjects::types::MetaobjectDefinitionConfig;
use mds::ports::{FileRepo, JsonCodec, MetafieldGateway};
use mds::validation::ValidationError;

struct FakeMetafieldGateway {
    items: Vec<ShopifyMetafieldDefinition>,
}

impl MetafieldGateway for FakeMetafieldGateway {
    fn list_metafield_definitions(&self, _owner_type: OwnerType, _logger: &dyn Logger) -> Result<Vec<ShopifyMetafieldDefinition>, AppError> {
        Ok(self.items.clone())
    }
}

struct NoopLogger;

impl Logger for NoopLogger {
    fn log(&self, _level: LogLevel, _message: &str, _fields: &[LogField]) {}
}

#[derive(Default)]
struct FakeFileRepo {
    writes: Vec<(String, String)>,
}

impl FileRepo for FakeFileRepo {
    fn read_text(&self, _path: &str) -> Result<String, AppError> {
        Err(AppError::Repo("not implemented in FakeFileRepo".into()))
    }

    fn write_text(&mut self, path: &str, contents: &str) -> Result<(), AppError> {
        self.writes.push((path.to_string(), contents.to_string()));
        Ok(())
    }
}

/// Writes definitions as JSON built value by value.
struct ValueCodec;

fn opt_text(v: &Option<String>) -> serde_json::Value {
    match v {
        Some(s) => serde_json::Value::String(s.clone()),
        None => serde_json::Value::Null,
    }
}

impl JsonCodec for ValueCodec {
    fn parse_metafield_definitions(&self, _json: &str) -> Result<Vec<MetafieldDefinitionConfig>, Vec<ValidationError>> {
        Ok(vec![])
    }

    fn parse_metaobject_definitions(&self, _json: &str) -> Result<Vec<MetaobjectDefinitionConfig>, Vec<ValidationError>> {
        Ok(vec![])
    }

    fn metafield_definitions_text(&self, defs: &[ExportedMetafieldDefinition]) -> Result<String, String> {
        let mut items = Vec::new();
        for d in defs {
            let mut m = serde_json::Map::new();
            m.insert("namespace".to_string(), serde_json::Value::String(d.namespace.clone()));
            m.insert("key".to_string(), serde_json::Value::String(d.key.clone()));
            m.insert("name".to_string(), serde_json::Value::String(d.name.clone()));
            if d.description.is_some() {
                m.insert("description".to_string(), opt_text(&d.description));
            }
            m.insert("type".to_string(), serde_json::Value::String(d.typ.clone()));
            m.insert("pin".to_string(), serde_json::Value::Bool(d.pin));
            items.push(serde_json::Value::Object(m));
        }
        serde_json::to_string_pretty(&serde_json::Value::Array(items)).map_err(|e| e.to_string())
    }

    fn metaobject_definitions_text(&self, _defs: &[ExportedMetaobjectDefinition]) -> Result<String, String> {
        Ok("[]".to_string())
    }

    fn metafield_report_text(&self, _report: &MetafieldImportReport) -> Result<String, String> {
        Ok("{}".to_string())
    }

    fn metaobject_report_text(&self, _report: &MetaobjectImportReport) -> Result<String, String> {
        Ok("{}".to_string())
    }
}

fn plain(namespace: &str, key: &str, name: &str) -> ShopifyMetafieldDefinition {
    ShopifyMetafieldDefinition {
        id: None,
        namespace: namespace.to_string(),
        key: key.to_string(),
        name: name.to_string(),
        description: None,
        typ: "single_line_text_field".to_string(),
        validations: vec![],
        pinned_position: None,
        access: None,
        capabilities: None,
    }
}

fn exported(namespace: &str, key: &str, name: &str) -> ExportedMetafieldDefinition {
    ExportedMetafieldDefinition {
        namespace: namespace.to_string(),
        key: key.to_string(),
        name: name.to_string(),
        description: None,
        typ: "single_line_text_field".to_string(),
        validations: None,
        pin: false,
        access: None,
        capabilities: None,
    }
}

#[test]
fn export_filters_out_shopify_namespaces() {
    let input = vec![plain("shopify.test", "a", "A"), plain("custom", "b", "B")];
    let out = export_metafield_definitions(input);
    assert_eq!(out, vec![exported("custom", "b", "B")]);
}

#[test]
fn usecase_export_metafields_filters_shopify_namespaces() {
    let gateway = FakeMetafieldGateway { items: vec![plain("shopify.system", "x", "X"), plain("custom", "y", "Y")] };
    let usecase = ExportMetafieldsUseCase::new(gateway);
    let out = usecase.execute(OwnerType::Product, &NoopLogger).unwrap();
    assert_eq!(out, vec![exported("custom", "y", "Y")]);
}

#[test]
fn usecase_export_product_writes_definitions_file() {
    let gateway = FakeMetafieldGateway { items: vec![plain("shopify.system", "skip", "Skip"), plain("custom", "keep", "Keep")] };
    let usecase = ExportMetafieldsToFileUseCase::new(gateway);
    let mut repo = FakeFileRepo::default();

    let exported_defs = usecase.execute(OwnerType::Product, &mut repo, &ValueCodec, &NoopLogger).unwrap();
    assert_eq!(exported_defs, vec![exported("custom", "keep", "Keep")]);

    assert_eq!(repo.writes.len(), 1);
    assert_eq!(repo.writes[0].0, "definitions/metafields/product.json");

    let parsed: serde_json::Value = serde_json::from_str(&repo.writes[0].1).unwrap();
    let items = parsed.as_array().unwrap();
    assert_eq!(items.len(), exported_defs.len());
    assert_eq!(items[0]["namespace"], "custom");
    assert_eq!(items[0]["key"], "keep");
    assert_eq!(items[0]["name"], "Keep");
    assert_eq!(items[0]["type"], "single_line_text_field");
    assert_eq!(items[0]["pin"], false);
}

#[test]
fn export_normalizes_access_and_pin_and_validations() {
    let mut d = plain("custom", "k", "K");
    d.pinned_position = Some(3);
    d.access = Some(MetafieldAccess {
        admin: Some("PUBLIC_READ_WRITE".to_string()),
        storefront: Some("MERCHANT_READ".to_string()),
        customer_account: Some("READ".to_string()),
    });
    d.validations = vec![MetafieldValidation { name: "max".to_string(), value: Some("5".to_string()) }];
    let mut p = plain("custom", "p", "P");
    p.access = Some(MetafieldAccess {
        admin: Some("PRIVATE".to_string()),
        storefront: Some("PUBLIC_READ".to_string()),
        customer_account: None,
    });
    let mut q = plain("custom", "q", "Q");
    q.access = Some(MetafieldAccess { admin: Some("PUBLIC_READ".to_string()), storefront: None, customer_account: None });
    let out = export_metafield_definitions(vec![d, p, q]);
    assert_eq!(out.len(), 3);
    assert!(out[0].pin);
    let a = out[0].access.clone().unwrap();
    assert_eq!(a.admin.as_deref(), Some("MERCHANT_READ_WRITE"));
    assert_eq!(a.storefront.as_deref(), Some("PUBLIC_READ"));
    assert_eq!(a.customer_account.as_deref(), Some("READ"));
    assert_eq!(out[0].validations.clone().unwrap().len(), 1);
    let b = out[1].access.clone().unwrap();
    assert_eq!(b.admin.as_deref(), Some("MERCHANT_READ"));
    assert_eq!(b.storefront.as_deref(), Some("PUBLIC_READ"));
    assert!(!out[1].pin);
    assert_eq!(out[2].access.clone().unwrap().admin.as_deref(), Some("MERCHANT_READ"));
}

#[test]
fn export_keeps_namespaces_that_only_contain_shopify() {
    let out = export_metafield_definitions(vec![plain("myshopify", "a", "A"), plain("shopify", "b", "B"), plain("Shopify", "c", "C")]);
    let names: Vec<String> = out.iter().map(|d| d.namespace.clone()).collect();
    assert_eq!(names, vec!["myshopify".to_string(), "Shopify".to_string()]);
}

#[test]
fn definitions_file_of_owner_type_is_lower_case() {
    assert_eq!(mds::metafields::export::metafield_definitions_file(OwnerType::ProductVariant), "definitions/metafields/productvariant.json");
}

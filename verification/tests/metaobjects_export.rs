use std::collections::HashMap;

use mds::error::AppError;
use mds::logging::{LogField, LogLevel, Logger};
use mds::maps::StringMap;
use mds::metafield_config::MetafieldDefinitionConfig;
use mds::metafields::export::ExportedMetafieldDefinition;
use mds::metafields::import::MetafieldImportReport;
use mds::metaobjects::export::{export_metaobject_definitions, export_with_own_ids, ExportMetaobjectsToFileUseCase, ExportMetaobjectsUseCase,
    ExportedMetaobjectDefinition, ExportedMetaobjectFieldDefinition, ShopifyMetaobjectDefinition,
    ShopifyMetaobjectFieldDefinition};
use mds::metaobjects::import::MetaobjectImportReport;
use mds::metaobjects::types::{MetaobjectDefinitionConfig, MetaobjectFieldDefinitionConfig, MetaobjectValidationRule};
use mds::ports::{FileRepo, JsonCodec, MetaobjectGateway};
use mds::validation::ValidationError;

struct FakeMetaobjectGateway {
    items: Vec<ShopifyMetaobjectDefinition>,
}

impl MetaobjectGateway for FakeMetaobjectGateway {
    fn list_metaobject_definitions(&self, _logger: &dyn Logger) -> Result<Vec<ShopifyMetaobjectDefinition>, AppError> {
        Ok(self.items.clone())
    }
}

struct NoopLogger;

impl Logger for NoopLogger {
    fn log(&self, _level: LogLevel, _message: &str, _fields: &[LogField]) {}
}

struct FakeFileRepo {
    writes: HashMap<String, String>,
}

impl FakeFileRepo {
    fn new() -> Self {
        Self { writes: HashMap::new() }
    }
}

impl FileRepo for FakeFileRepo {
    fn read_text(&self, _path: &str) -> Result<String, AppError> {
        Err(AppError::Repo("not implemented".to_string()))
    }

    fn write_text(&mut self, path: &str, contents: &str) -> Result<(), AppError> {
        self.writes.insert(path.to_string(), contents.to_string());
        Ok(())
    }
}

/// Writes the types of the exported definitions as a JSON array.
struct TypesCodec;

impl JsonCodec for TypesCodec {
    fn parse_metafield_definitions(&self, _json: &str) -> Result<Vec<MetafieldDefinitionConfig>, Vec<ValidationError>> {
        Ok(vec![])
    }

    fn parse_metaobject_definitions(&self, _json: &str) -> Result<Vec<MetaobjectDefinitionConfig>, Vec<ValidationError>> {
        Ok(vec![])
    }

    fn metafield_definitions_text(&self, _defs: &[ExportedMetafieldDefinition]) -> Result<String, String> {
        Ok("[]".to_string())
    }

    fn metaobject_definitions_text(&self, defs: &[ExportedMetaobjectDefinition]) -> Result<String, String> {
        let types: Vec<serde_json::Value> = defs.iter().map(|d| serde_json::Value::String(d.typ.clone())).collect();
        serde_json::to_string(&serde_json::Value::Array(types)).map_err(|e| e.to_string())
    }

    fn metafield_report_text(&self, _report: &MetafieldImportReport) -> Result<String, String> {
        Ok("{}".to_string())
    }

    fn metaobject_report_text(&self, _report: &MetaobjectImportReport) -> Result<String, String> {
        Ok("{}".to_string())
    }
}

fn definition(id: &str, typ: &str, name: &str, fields: Vec<ShopifyMetaobjectFieldDefinition>) -> ShopifyMetaobjectDefinition {
    ShopifyMetaobjectDefinition {
        id: Some(id.to_string()),
        typ: typ.to_string(),
        name: name.to_string(),
        description: None,
        display_name_key: None,
        access: None,
        capabilities: None,
        field_definitions: fields,
    }
}

fn map_of(pairs: &[(&str, &str)]) -> StringMap {
    StringMap::from_pairs(pairs.iter().map(|(k, v)| (k.to_string(), v.to_string())).collect())
}

#[test]
fn export_filters_out_shopify_types() {
    let input = vec![
        definition("gid://shopify/MetaobjectDefinition/1", "shopify--system", "System", vec![]),
        definition("gid://shopify/MetaobjectDefinition/2", "custom_type", "Custom", vec![ShopifyMetaobjectFieldDefinition {
            key: "title".to_string(),
            name: "Title".to_string(),
            typ: "single_line_text_field".to_string(),
            required: true,
            description: None,
            validations: vec![],
        }]),
    ];
    let id_to_type = map_of(&[
        ("gid://shopify/MetaobjectDefinition/1", "shopify--system"),
        ("gid://shopify/MetaobjectDefinition/2", "custom_type"),
    ]);

    let out = export_metaobject_definitions(input, &id_to_type);

    assert_eq!(
        out,
        vec![ExportedMetaobjectDefinition {
            typ: "custom_type".to_string(),
            name: "Custom".to_string(),
            field_definitions: vec![ExportedMetaobjectFieldDefinition {
                key: "title".to_string(),
                name: "Title".to_string(),
                typ: "single_line_text_field".to_string(),
                required: true,
                description: None,
                validations: None,
            }],
            description: None,
            display_name_key: None,
            access: None,
            capabilities: None,
        }]
    );
}

#[test]
fn export_converts_metaobject_definition_id_validation_to_type_when_mapping_exists() {
    let input = vec![definition("gid://shopify/MetaobjectDefinition/2", "custom_type", "Custom", vec![ShopifyMetaobjectFieldDefinition {
        key: "ref".to_string(),
        name: "Ref".to_string(),
        typ: "metaobject_reference".to_string(),
        required: false,
        description: None,
        validations: vec![
            MetaobjectValidationRule {
                name: "metaobject_definition_id".to_string(),
                value: Some("gid://shopify/MetaobjectDefinition/99".to_string()),
            },
            MetaobjectValidationRule { name: "other".to_string(), value: Some("x".to_string()) },
        ],
    }])];
    let id_to_type = map_of(&[("gid://shopify/MetaobjectDefinition/99", "target_type")]);

    let out = export_metaobject_definitions(input, &id_to_type);

    assert_eq!(
        out[0].field_definitions[0].validations.as_ref().unwrap(),
        &vec![
            MetaobjectValidationRule { name: "metaobject_definition_type".to_string(), value: Some("target_type".to_string()) },
            MetaobjectValidationRule { name: "other".to_string(), value: Some("x".to_string()) },
        ]
    );
}

#[test]
fn usecase_export_metaobjects_writes_definitions_file() {
    let gateway = FakeMetaobjectGateway { items: vec![definition("gid://shopify/MetaobjectDefinition/2", "custom_type", "Custom", vec![])] };
    let usecase = ExportMetaobjectsToFileUseCase::new(gateway);
    let mut repo = FakeFileRepo::new();
    let logger = NoopLogger;

    let out = usecase.execute(&mut repo, &TypesCodec, &logger).unwrap();
    assert_eq!(out.len(), 1);
    assert!(repo.writes.contains_key("definitions/metaobjects.json"));
    assert_eq!(repo.writes["definitions/metaobjects.json"], "[\"custom_type\"]");
}

#[test]
fn usecase_export_resolves_ids_through_the_fetched_definitions() {
    let field = ShopifyMetaobjectFieldDefinition {
        key: "ref".to_string(),
        name: "Ref".to_string(),
        typ: "metaobject_reference".to_string(),
        required: false,
        description: Some("d".to_string()),
        validations: vec![
            MetaobjectValidationRule { name: "metaobject_definition_id".to_string(), value: Some("gid://1".to_string()) },
            MetaobjectValidationRule { name: "metaobject_definition_id".to_string(), value: Some("gid://unknown".to_string()) },
        ],
    };
    let gateway = FakeMetaobjectGateway {
        items: vec![definition("gid://1", "author", "Author", vec![]), definition("gid://2", "book", "Book", vec![field])],
    };
    let out = ExportMetaobjectsUseCase::new(gateway).execute(&NoopLogger).unwrap();
    assert_eq!(out.len(), 2);
    let rules = out[1].field_definitions[0].validations.clone().unwrap();
    assert_eq!(rules[0], MetaobjectValidationRule { name: "metaobject_definition_type".to_string(), value: Some("author".to_string()) });
    assert_eq!(rules[1], MetaobjectValidationRule { name: "metaobject_definition_id".to_string(), value: Some("gid://unknown".to_string()) });
    assert_eq!(out[1].field_definitions[0].description.as_deref(), Some("d"));
}

#[test]
fn exported_field_from_config_keeps_every_field() {
    let cfg = MetaobjectFieldDefinitionConfig {
        key: "k".to_string(),
        name: "K".to_string(),
        typ: "t".to_string(),
        required: true,
        description: None,
        validations: Some(vec![]),
    };
    let e: ExportedMetaobjectFieldDefinition = cfg.into();
    assert_eq!(e.key, "k");
    assert_eq!(e.validations, Some(vec![]));
    assert!(e.required);
}

#[test]
fn export_converts_metaobject_definition_ids_validation_to_types_when_every_id_is_known() {
    let field = |rules: Vec<MetaobjectValidationRule>| ShopifyMetaobjectFieldDefinition {
        key: "refs".to_string(),
        name: "Refs".to_string(),
        typ: "list.metaobject_reference".to_string(),
        required: false,
        description: None,
        validations: rules,
    };
    let r = |n: &str, v: &str| MetaobjectValidationRule { name: n.to_string(), value: Some(v.to_string()) };
    let map = map_of(&[("gid://shopify/MetaobjectDefinition/99", "target_type"), ("gid://shopify/MetaobjectDefinition/98", "other_type")]);
    let input = vec![definition("gid://shopify/MetaobjectDefinition/2", "custom_type", "Custom", vec![field(vec![
        r("metaobject_definition_ids", "[\"gid://shopify/MetaobjectDefinition/99\"]"),
    ])])];
    let out = export_metaobject_definitions(input, &map);
    assert_eq!(out[0].field_definitions[0].validations, Some(vec![r("metaobject_definition_types", "[\"target_type\"]")]));

    let input = vec![definition("gid://shopify/MetaobjectDefinition/2", "custom_type", "Custom", vec![field(vec![
        r("metaobject_definition_ids", "[\"gid://shopify/MetaobjectDefinition/98\",\"gid://shopify/MetaobjectDefinition/99\"]"),
        r("metaobject_definition_ids", "[\"gid://shopify/MetaobjectDefinition/99\",\"gid://shopify/MetaobjectDefinition/7\"]"),
        r("metaobject_definition_ids", "not json"),
    ])])];
    let out = export_metaobject_definitions(input, &map);
    assert_eq!(out[0].field_definitions[0].validations, Some(vec![
        r("metaobject_definition_types", "[\"other_type\",\"target_type\"]"),
        r("metaobject_definition_ids", "[\"gid://shopify/MetaobjectDefinition/99\",\"gid://shopify/MetaobjectDefinition/7\"]"),
        r("metaobject_definition_ids", "not json"),
    ]));
}

#[test]
fn metaobject_definitions_live_in_one_file() {
    assert_eq!(mds::metaobjects::export::metaobject_definitions_file(), "definitions/metaobjects.json");
}

#[test]
fn export_with_own_ids_resolves_through_the_listed_definitions() {
    let field = ShopifyMetaobjectFieldDefinition {
        key: "ref".to_string(),
        name: "Ref".to_string(),
        typ: "metaobject_reference".to_string(),
        required: false,
        description: None,
        validations: vec![
            MetaobjectValidationRule { name: "metaobject_definition_id".to_string(), value: Some("gid://7".to_string()) },
            MetaobjectValidationRule { name: "metaobject_definition_ids".to_string(), value: Some("[\"gid://7\",\"gid://8\"]".to_string()) },
        ],
    };
    let out = export_with_own_ids(vec![
        definition("gid://7", "author", "Author", vec![]),
        definition("gid://8", "shopify--system", "System", vec![]),
        definition("gid://9", "book", "Book", vec![field]),
    ]);
    let types: Vec<&str> = out.iter().map(|d| d.typ.as_str()).collect();
    assert_eq!(types, vec!["author", "book"]);
    let rules = out[1].field_definitions[0].validations.clone().unwrap();
    assert_eq!(rules[0], MetaobjectValidationRule { name: "metaobject_definition_type".to_string(), value: Some("author".to_string()) });
    assert_eq!(rules[1], MetaobjectValidationRule { name: "metaobject_definition_types".to_string(), value: Some("[\"author\",\"shopify--system\"]".to_string()) });
    assert!(export_with_own_ids(vec![]).is_empty());
}

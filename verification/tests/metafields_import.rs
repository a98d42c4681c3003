use std::cell::RefCell;
use std::collections::HashMap;

use mds::domain::OwnerType;
use mds::infra::dto::MetafieldValidationNode;
use mds::infra::shopify::convert_validations_id_to_type;
use mds::error::AppError;
use mds::logging::{LogField, LogLevel, Logger};
use mds::maps::StringMap;
use mds::metafield_config::{CapabilityFlagConfig, MetafieldCapabilitiesConfig, MetafieldDefinitionConfig, ValidationRule};
use mds::metafields::export::{export_metafield_definitions, ExportedMetafieldDefinition};
use mds::metafields::import::{check_non_empty, skips_missing_file, decide_metafield_import, metafield_report_file, ImportMetafieldsFromFileUseCase,
    ImportMetafieldsOptions, MetafieldImportAction, MetafieldImportReport, MetafieldImportStep};
use mds::metafields::types::{CapabilityFlag, MetafieldCapabilities, MetafieldDefinitionInput, MetafieldDefinitionValidationInput, MetafieldValidation,
    ShopifyMetafieldDefinition};
use mds::metaobjects::export::ExportedMetaobjectDefinition;
use mds::metaobjects::import::MetaobjectImportReport;
use mds::metaobjects::types::MetaobjectDefinitionConfig;
use mds::ports::{Clock, FileRepo, JsonCodec, MetafieldImportGateway};
use mds::validation::ValidationError;

struct NoopLogger;

impl Logger for NoopLogger {
    fn log(&self, _level: LogLevel, _message: &str, _fields: &[LogField]) {}
}

fn cfg(key: &str, typ: &str) -> MetafieldDefinitionConfig {
    MetafieldDefinitionConfig {
        namespace: "custom".to_string(),
        key: key.to_string(),
        name: key.to_uppercase(),
        description: None,
        typ: typ.to_string(),
        validations: None,
        pin: false,
        access: None,
        capabilities: None,
    }
}

fn existing(id: Option<&str>, key: &str, typ: &str) -> ShopifyMetafieldDefinition {
    ShopifyMetafieldDefinition {
        id: id.map(|s| s.to_string()),
        namespace: "custom".to_string(),
        key: key.to_string(),
        name: key.to_uppercase(),
        description: None,
        typ: typ.to_string(),
        validations: vec![],
        pinned_position: None,
        access: None,
        capabilities: None,
    }
}

fn opts(allow_type_changes: bool, allow_deletion: bool) -> ImportMetafieldsOptions {
    ImportMetafieldsOptions { allow_type_changes, allow_associated_metafields_deletion: allow_deletion }
}

#[test]
fn decision_blocks_type_changes_unless_allowed() {
    let m = StringMap::new();
    let c = cfg("a", "reference");
    let ex = existing(Some("gid://1"), "a", "single_line_text_field");
    match decide_metafield_import(&c, Some(&ex), opts(false, false), OwnerType::Product, &m).unwrap() {
        MetafieldImportStep::Blocked { message, reason } => {
            assert_eq!(message, "Type differs; recreation blocked (pass --allow-type-changes)");
            assert_eq!(reason, "type_change_blocked");
        },
        other => panic!("unexpected {other:?}"),
    }
    match decide_metafield_import(&c, Some(&ex), opts(true, false), OwnerType::Product, &m).unwrap() {
        MetafieldImportStep::Blocked { message, reason } => {
            assert_eq!(message, "Type requires associated metafields deletion (pass --allow-associated-metafields-deletion)");
            assert_eq!(reason, "requires_associated_metafields_deletion_flag");
        },
        other => panic!("unexpected {other:?}"),
    }
    match decide_metafield_import(&c, Some(&ex), opts(true, true), OwnerType::Product, &m).unwrap() {
        MetafieldImportStep::Recreate { id, input } => {
            assert_eq!(id, "gid://1");
            assert_eq!(input.owner_type, "PRODUCT");
            assert_eq!(input.typ, "reference");
        },
        other => panic!("unexpected {other:?}"),
    }
    let no_id = existing(None, "a", "single_line_text_field");
    match decide_metafield_import(&c, Some(&no_id), opts(true, true), OwnerType::Product, &m) {
        Err(AppError::Gateway(msg)) => assert_eq!(msg, "missing metafield definition id for existing custom.a"),
        other => panic!("unexpected {other:?}"),
    }
}

#[test]
fn decision_updates_only_what_differs() {
    let m = StringMap::from_pairs(vec![("author".to_string(), "gid://mo/1".to_string())]);
    let mut c = cfg("a", "metaobject_reference");
    c.validations = Some(vec![ValidationRule { name: "metaobject_definition_type".to_string(), value: Some("author".to_string()) }]);
    c.description = Some("  text  ".to_string());
    let mut ex = existing(Some("gid://1"), "a", "metaobject_reference");
    ex.description = Some("text".to_string());
    ex.validations = vec![MetafieldValidation { name: "metaobject_definition_id".to_string(), value: Some("gid://mo/1".to_string()) }];
    assert_eq!(decide_metafield_import(&c, Some(&ex), opts(false, false), OwnerType::Product, &m).unwrap(), MetafieldImportStep::NoChange);

    let mut pinned = c.clone();
    pinned.pin = true;
    match decide_metafield_import(&pinned, Some(&ex), opts(false, false), OwnerType::Order, &m).unwrap() {
        MetafieldImportStep::Update { id, input } => {
            assert_eq!(id, "gid://1");
            assert!(input.pin);
            assert_eq!(input.description.as_deref(), Some("text"));
            assert_eq!(input.owner_type, "ORDER");
            let v = input.validations.unwrap();
            assert_eq!(v[0].name, "metaobject_definition_id");
            assert_eq!(v[0].value.as_deref(), Some("gid://mo/1"));
        },
        other => panic!("unexpected {other:?}"),
    }

    let mut with_caps = c.clone();
    with_caps.capabilities = Some(MetafieldCapabilitiesConfig {
        admin_filterable: Some(CapabilityFlagConfig { enabled: true }),
        smart_collection_condition: None,
        unique_values: None,
    });
    assert!(matches!(decide_metafield_import(&with_caps, Some(&ex), opts(false, false), OwnerType::Product, &m).unwrap(), MetafieldImportStep::Update { .. }));
    let mut ex_caps = ex.clone();
    ex_caps.capabilities = Some(MetafieldCapabilities { admin_filterable: Some(CapabilityFlag { enabled: true }), smart_collection_condition: None, unique_values: None });
    assert_eq!(decide_metafield_import(&with_caps, Some(&ex_caps), opts(false, false), OwnerType::Product, &m).unwrap(), MetafieldImportStep::NoChange);
}

#[test]
fn long_descriptions_are_cut_to_255_characters() {
    let m = StringMap::new();
    let mut c = cfg("a", "single_line_text_field");
    c.description = Some(format!(" {} ", "é".repeat(200)));
    match decide_metafield_import(&c, None, opts(false, false), OwnerType::Product, &m).unwrap() {
        MetafieldImportStep::Create(input) => assert_eq!(input.description, Some("é".repeat(200))),
        other => panic!("unexpected {other:?}"),
    }
    c.description = Some("x".repeat(300));
    match decide_metafield_import(&c, None, opts(false, false), OwnerType::Product, &m).unwrap() {
        MetafieldImportStep::Create(input) => assert_eq!(input.description, Some("x".repeat(255))),
        other => panic!("unexpected {other:?}"),
    }
    c.description = Some("   ".to_string());
    match decide_metafield_import(&c, None, opts(false, false), OwnerType::Product, &m).unwrap() {
        MetafieldImportStep::Create(input) => assert_eq!(input.description, None),
        other => panic!("unexpected {other:?}"),
    }
}

struct FakeGateway {
    existing: Vec<ShopifyMetafieldDefinition>,
    fail_create: Vec<String>,
    calls: RefCell<Vec<String>>,
}

impl MetafieldImportGateway for FakeGateway {
    fn list_existing_metafield_definitions(&self, _owner_type: OwnerType, _logger: &dyn Logger) -> Result<Vec<ShopifyMetafieldDefinition>, AppError> {
        Ok(self.existing.clone())
    }

    fn metaobject_type_to_id_map(&self, _logger: &dyn Logger) -> Result<StringMap, AppError> {
        Ok(StringMap::new())
    }

    fn metafield_definition_create(&self, input: &MetafieldDefinitionInput, _logger: &dyn Logger) -> Result<(), AppError> {
        self.calls.borrow_mut().push(format!("create {}", input.key));
        if self.fail_create.contains(&input.key) {
            return Err(AppError::Gateway("boom".to_string()));
        }
        Ok(())
    }

    fn metafield_definition_update(&self, id: &str, _input: &MetafieldDefinitionInput, _logger: &dyn Logger) -> Result<(), AppError> {
        self.calls.borrow_mut().push(format!("update {id}"));
        Ok(())
    }

    fn metafield_definition_delete(&self, id: &str, _logger: &dyn Logger) -> Result<(), AppError> {
        self.calls.borrow_mut().push(format!("delete {id}"));
        Ok(())
    }
}

struct FakeClock {
    sleeps: RefCell<usize>,
}

impl Clock for FakeClock {
    fn now_timestamp_millis(&self) -> u128 {
        7
    }

    fn sleep_millis(&self, _millis: u64) {
        *self.sleeps.borrow_mut() += 1;
    }
}

#[derive(Default)]
struct MemRepo {
    files: HashMap<String, String>,
}

impl FileRepo for MemRepo {
    fn read_text(&self, path: &str) -> Result<String, AppError> {
        self.files.get(path).cloned().ok_or_else(|| AppError::Repo(format!("file not found: {path}")))
    }

    fn write_text(&mut self, path: &str, contents: &str) -> Result<(), AppError> {
        self.files.insert(path.to_string(), contents.to_string());
        Ok(())
    }
}

struct FixedCodec {
    defs: Vec<MetafieldDefinitionConfig>,
}

impl JsonCodec for FixedCodec {
    fn parse_metafield_definitions(&self, _json: &str) -> Result<Vec<MetafieldDefinitionConfig>, Vec<ValidationError>> {
        Ok(self.defs.clone())
    }

    fn parse_metaobject_definitions(&self, _json: &str) -> Result<Vec<MetaobjectDefinitionConfig>, Vec<ValidationError>> {
        Ok(vec![])
    }

    fn metafield_definitions_text(&self, _defs: &[ExportedMetafieldDefinition]) -> Result<String, String> {
        Ok("[]".to_string())
    }

    fn metaobject_definitions_text(&self, _defs: &[ExportedMetaobjectDefinition]) -> Result<String, String> {
        Ok("[]".to_string())
    }

    fn metafield_report_text(&self, report: &MetafieldImportReport) -> Result<String, String> {
        Ok(format!("{} {}", report.owner_type, report.summary.total))
    }

    fn metaobject_report_text(&self, _report: &MetaobjectImportReport) -> Result<String, String> {
        Ok("{}".to_string())
    }
}

#[test]
fn import_runs_batches_and_reports_every_definition() {
    let mut defs: Vec<MetafieldDefinitionConfig> = (0..12).map(|i| cfg(&format!("k{i:02}"), "single_line_text_field")).collect();
    defs[1].name = "Renamed".to_string();
    defs[2].typ = "number_integer".to_string();
    let gateway = FakeGateway {
        existing: vec![
            existing(Some("gid://0"), "k00", "single_line_text_field"),
            existing(Some("gid://1"), "k01", "single_line_text_field"),
            existing(Some("gid://2"), "k02", "single_line_text_field"),
        ],
        fail_create: vec!["k03".to_string()],
        calls: RefCell::new(vec![]),
    };
    let clock = FakeClock { sleeps: RefCell::new(0) };
    let usecase = ImportMetafieldsFromFileUseCase::new(gateway, clock);
    let mut repo = MemRepo::default();
    repo.files.insert("definitions/metafields/product.json".to_string(), "[...]".to_string());
    let report = usecase.execute(OwnerType::Product, &mut repo, &FixedCodec { defs }, opts(false, false), &NoopLogger).unwrap();
    assert_eq!(report.owner_type, "PRODUCT");
    assert_eq!(report.summary.total, 12);
    assert_eq!(report.summary.no_change, 1);
    assert_eq!(report.summary.updated, 1);
    assert_eq!(report.summary.failed, 2);
    assert_eq!(report.summary.created, 8);
    assert_eq!(report.summary.recreated, 0);
    assert_eq!(report.items[0].action, MetafieldImportAction::NoChange);
    assert_eq!(report.items[1].action, MetafieldImportAction::Update);
    assert_eq!(report.items[2].action, MetafieldImportAction::Failed);
    assert_eq!(report.items[2].message.as_deref(), Some("Type differs; recreation blocked (pass --allow-type-changes)"));
    assert_eq!(report.items[3].action, MetafieldImportAction::Failed);
    assert_eq!(report.items[3].message.as_deref(), Some("gateway error: boom"));
    assert_eq!(repo.files["reports/metafield-definitions:import/metafield-import-report-7.json"], "PRODUCT 12");
}

#[test]
fn import_recreates_when_allowed() {
    let mut c = cfg("k", "number_integer");
    c.pin = true;
    let gateway = FakeGateway {
        existing: vec![existing(Some("gid://9"), "k", "single_line_text_field")],
        fail_create: vec![],
        calls: RefCell::new(vec![]),
    };
    let clock = FakeClock { sleeps: RefCell::new(0) };
    let usecase = ImportMetafieldsFromFileUseCase::new(gateway, clock);
    let mut repo = MemRepo::default();
    repo.files.insert("definitions/metafields/order.json".to_string(), "[...]".to_string());
    let report = usecase.execute(OwnerType::Order, &mut repo, &FixedCodec { defs: vec![c] }, opts(true, false), &NoopLogger).unwrap();
    assert_eq!(report.summary.recreated, 1);
    assert_eq!(report.items[0].action, MetafieldImportAction::Recreate);
}

#[test]
fn import_rejects_missing_and_empty_files() {
    let gateway = FakeGateway { existing: vec![], fail_create: vec![], calls: RefCell::new(vec![]) };
    let clock = FakeClock { sleeps: RefCell::new(0) };
    let usecase = ImportMetafieldsFromFileUseCase::new(gateway, clock);
    let mut repo = MemRepo::default();
    match usecase.execute(OwnerType::Blog, &mut repo, &FixedCodec { defs: vec![] }, opts(false, false), &NoopLogger) {
        Err(AppError::Repo(m)) => assert_eq!(m, "file not found: definitions/metafields/blog.json"),
        other => panic!("unexpected {other:?}"),
    }
    repo.files.insert("definitions/metafields/blog.json".to_string(), "[]".to_string());
    match usecase.execute(OwnerType::Blog, &mut repo, &FixedCodec { defs: vec![] }, opts(false, false), &NoopLogger) {
        Err(AppError::Json(m)) => assert_eq!(m, "metafield config file must be a non-empty array: definitions/metafields/blog.json"),
        other => panic!("unexpected {other:?}"),
    }
}

#[test]
fn report_file_name() {
    assert_eq!(metafield_report_file(123), "reports/metafield-definitions:import/metafield-import-report-123.json");
    assert!(!ImportMetafieldsOptions::default().allow_type_changes);
}

#[test]
fn export_then_import_gives_back_metaobject_definition_ids() {
    let id_to_type = StringMap::from_pairs(vec![("gid://mo/1".to_string(), "author".to_string())]);
    let exported = convert_validations_id_to_type(
        vec![
            MetafieldValidationNode { name: "metaobject_definition_id".to_string(), value: Some("gid://mo/1".to_string()) },
            MetafieldValidationNode { name: "max".to_string(), value: Some("3".to_string()) },
        ],
        &id_to_type,
    );
    let mut c = cfg("a", "metaobject_reference");
    c.validations = Some(exported.iter().map(|v| ValidationRule { name: v.name.clone(), value: v.value.clone() }).collect());
    assert_eq!(c.validations.as_ref().unwrap()[0].name, "metaobject_definition_type");
    let type_to_id = StringMap::from_pairs(vec![("author".to_string(), "gid://mo/1".to_string())]);
    match decide_metafield_import(&c, None, opts(false, false), OwnerType::Product, &type_to_id).unwrap() {
        MetafieldImportStep::Create(input) => assert_eq!(
            input.validations,
            Some(vec![
                MetafieldDefinitionValidationInput { name: "metaobject_definition_id".to_string(), value: Some("gid://mo/1".to_string()) },
                MetafieldDefinitionValidationInput { name: "max".to_string(), value: Some("3".to_string()) },
            ])
        ),
        other => panic!("unexpected {other:?}"),
    }
}

#[test]
fn reimporting_a_metafield_export_changes_nothing() {
    let mut ex = existing(Some("gid://1"), "a", "single_line_text_field");
    ex.description = Some(" About ".to_string());
    ex.validations = vec![MetafieldValidation { name: "max".to_string(), value: Some("3".to_string()) }];
    ex.pinned_position = Some(2);
    ex.capabilities = Some(MetafieldCapabilities {
        admin_filterable: Some(CapabilityFlag { enabled: true }),
        smart_collection_condition: None,
        unique_values: Some(CapabilityFlag { enabled: false }),
    });
    let exported = export_metafield_definitions(vec![ex.clone()]);
    let e = &exported[0];
    let c = MetafieldDefinitionConfig {
        namespace: e.namespace.clone(),
        key: e.key.clone(),
        name: e.name.clone(),
        description: e.description.clone(),
        typ: e.typ.clone(),
        validations: e.validations.as_ref().map(|v| v.iter().map(|r| ValidationRule { name: r.name.clone(), value: r.value.clone() }).collect()),
        pin: e.pin,
        access: None,
        capabilities: e.capabilities.map(|x| MetafieldCapabilitiesConfig {
            admin_filterable: x.admin_filterable.map(|f| CapabilityFlagConfig { enabled: f.enabled }),
            smart_collection_condition: x.smart_collection_condition.map(|f| CapabilityFlagConfig { enabled: f.enabled }),
            unique_values: x.unique_values.map(|f| CapabilityFlagConfig { enabled: f.enabled }),
        }),
    };
    let m = StringMap::new();
    assert_eq!(decide_metafield_import(&c, Some(&ex), opts(false, false), OwnerType::Product, &m).unwrap(), MetafieldImportStep::NoChange);
}

#[test]
fn import_definitions_follow_the_file_and_go_on_after_a_refused_create() {
    let gateway = FakeGateway { existing: vec![], fail_create: vec!["b".to_string()], calls: RefCell::new(vec![]) };
    let clock = FakeClock { sleeps: RefCell::new(0) };
    let usecase = ImportMetafieldsFromFileUseCase::new(gateway, clock);
    let existing_defs = vec![existing(Some("gid://1"), "a", "single_line_text_field")];
    let parsed = vec![cfg("a", "single_line_text_field"), cfg("b", "single_line_text_field"), cfg("c", "single_line_text_field")];
    let report = usecase
        .import_definitions(&parsed, &existing_defs, &StringMap::new(), opts(false, false), OwnerType::Page, &NoopLogger)
        .unwrap();
    assert_eq!(report.owner_type, "PAGE");
    let keys: Vec<&str> = report.items.iter().map(|i| i.key.as_str()).collect();
    assert_eq!(keys, vec!["a", "b", "c"]);
    assert_eq!(report.items[0].action, MetafieldImportAction::NoChange);
    assert_eq!(report.items[1].action, MetafieldImportAction::Failed);
    assert_eq!(report.items[1].message.as_deref(), Some("gateway error: boom"));
    assert_eq!(report.items[2].action, MetafieldImportAction::Create);
    match usecase.import_definitions(&vec![], &existing_defs, &StringMap::new(), opts(false, false), OwnerType::Page, &NoopLogger) {
        Err(AppError::Json(m)) => assert_eq!(m, "metafield config file must be a non-empty array: definitions/metafields/page.json"),
        other => panic!("unexpected {other:?}"),
    }
}

#[test]
fn empty_definitions_are_refused_before_any_gateway_call() {
    let gateway = FakeGateway { existing: vec![], fail_create: vec![], calls: RefCell::new(vec![]) };
    let clock = FakeClock { sleeps: RefCell::new(0) };
    assert!(check_non_empty(&vec![cfg("a", "json")], OwnerType::Shop).is_ok());
    match check_non_empty(&vec![], OwnerType::ProductVariant) {
        Err(AppError::Json(m)) => assert_eq!(m, "metafield config file must be a non-empty array: definitions/metafields/productvariant.json"),
        other => panic!("unexpected {other:?}"),
    }
    let usecase = ImportMetafieldsFromFileUseCase::new(gateway, clock);
    let mut repo = MemRepo::default();
    repo.files.insert("definitions/metafields/shop.json".to_string(), "[]".to_string());
    assert!(usecase.execute(OwnerType::Shop, &mut repo, &FixedCodec { defs: vec![] }, opts(false, false), &NoopLogger).is_err());
}

#[test]
fn missing_files_are_skipped_only_with_several_owner_types() {
    let missing = AppError::Repo("file not found: definitions/metafields/page.json".to_string());
    assert!(skips_missing_file(true, &missing));
    assert!(!skips_missing_file(false, &missing));
    assert!(!skips_missing_file(true, &AppError::Gateway("timeout".to_string())));
}

#[test]
fn updates_ignore_type_and_access() {
    let mut c = cfg("a", "number_integer");
    let ex = existing(Some("gid://1"), "a", "single_line_text_field");
    assert!(!mds::metafields::import::should_update(&c, &None, &ex));
    c.name = "Other".to_string();
    assert!(mds::metafields::import::should_update(&c, &None, &ex));
}

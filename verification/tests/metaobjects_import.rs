use std::cell::RefCell;
use std::collections::HashMap;

use mds::error::AppError;
use mds::logging::{LogField, LogLevel, Logger};
use mds::maps::StringMap;
use mds::metafield_config::MetafieldDefinitionConfig;
use mds::metafields::export::ExportedMetafieldDefinition;
use mds::metafields::import::MetafieldImportReport;
use mds::metaobjects::export::{export_metaobject_definitions, ExportedMetaobjectDefinition, ShopifyMetaobjectDefinition, ShopifyMetaobjectFieldDefinition};
use mds::metaobjects::import::{build_create_input, build_update_input, decide_metaobject_import, has_changes,
    resolve_validations_for_shopify, ImportMetaobjectsFromFileUseCase, MetaobjectDefinitionCreateInput,
    MetaobjectDefinitionUpdateInput, MetaobjectFieldDefinitionOperation, MetaobjectImportAction, MetaobjectImportReport,
    MetaobjectImportStep, PlanMetaobjectsImportUseCase, metaobject_report_file, batch_count, action_label, prepare_plan};
use mds::metaobjects::types::{MetaobjectDefinitionConfig, MetaobjectFieldDefinitionConfig, MetaobjectValidationRule};
use mds::ports::{Clock, FileRepo, JsonCodec, MetaobjectImportGateway};
use mds::validation::ValidationError;

struct NoopLogger;

impl Logger for NoopLogger {
    fn log(&self, _level: LogLevel, _message: &str, _fields: &[LogField]) {}
}

fn rule(name: &str, value: Option<&str>) -> MetaobjectValidationRule {
    MetaobjectValidationRule { name: name.to_string(), value: value.map(|v| v.to_string()) }
}

fn map_of(pairs: &[(&str, &str)]) -> StringMap {
    StringMap::from_pairs(pairs.iter().map(|(k, v)| (k.to_string(), v.to_string())).collect())
}

fn cfg_field(key: &str, validations: Option<Vec<MetaobjectValidationRule>>) -> MetaobjectFieldDefinitionConfig {
    MetaobjectFieldDefinitionConfig {
        key: key.to_string(),
        name: key.to_uppercase(),
        typ: "single_line_text_field".to_string(),
        required: false,
        description: Some(" about ".to_string()),
        validations,
    }
}

fn cfg(typ: &str, fields: Vec<MetaobjectFieldDefinitionConfig>) -> MetaobjectDefinitionConfig {
    MetaobjectDefinitionConfig {
        typ: typ.to_string(),
        name: typ.to_uppercase(),
        field_definitions: fields,
        description: Some("  ".to_string()),
        display_name_key: Some(" key ".to_string()),
        access: None,
        capabilities: None,
    }
}

fn shop_field(key: &str, validations: Vec<MetaobjectValidationRule>) -> ShopifyMetaobjectFieldDefinition {
    ShopifyMetaobjectFieldDefinition {
        key: key.to_string(),
        name: key.to_uppercase(),
        typ: "single_line_text_field".to_string(),
        required: false,
        description: Some("about".to_string()),
        validations,
    }
}

fn shop(id: Option<&str>, typ: &str, fields: Vec<ShopifyMetaobjectFieldDefinition>) -> ShopifyMetaobjectDefinition {
    ShopifyMetaobjectDefinition {
        id: id.map(|s| s.to_string()),
        typ: typ.to_string(),
        name: typ.to_uppercase(),
        description: None,
        display_name_key: Some("key".to_string()),
        access: None,
        capabilities: None,
        field_definitions: fields,
    }
}

fn json_message(r: Result<Option<Vec<MetaobjectValidationRule>>, AppError>) -> String {
    match r {
        Err(AppError::Json(m)) => m,
        other => panic!("expected a json error, got {other:?}"),
    }
}

#[test]
fn resolve_turns_types_into_ids() {
    let m = map_of(&[("author", "gid://1"), ("tag", "gid://2")]);
    let out = resolve_validations_for_shopify(
        &Some(vec![rule("metaobject_definition_type", Some("author")), rule("max", Some("3"))]),
        &m,
        &NoopLogger,
    ).unwrap().unwrap();
    assert_eq!(out, vec![rule("metaobject_definition_id", Some("gid://1")), rule("max", Some("3"))]);
}

#[test]
fn resolve_turns_type_lists_into_id_lists() {
    let m = map_of(&[("author", "gid://1"), ("tag", "gid://2")]);
    let out = resolve_validations_for_shopify(
        &Some(vec![rule("metaobject_definition_types", Some("[\" author\", \"tag\"]"))]),
        &m,
        &NoopLogger,
    ).unwrap().unwrap();
    assert_eq!(out, vec![rule("metaobject_definition_ids", Some("[\"gid://1\",\"gid://2\"]"))]);
}

#[test]
fn resolve_reports_each_problem() {
    let m = map_of(&[("author", "gid://1")]);
    assert_eq!(
        json_message(resolve_validations_for_shopify(&Some(vec![rule("metaobject_definition_type", Some("nope"))]), &m, &NoopLogger)),
        "cannot resolve metaobject_definition_type `nope` in Shopify (type not found)"
    );
    assert_eq!(
        json_message(resolve_validations_for_shopify(&Some(vec![rule("metaobject_definition_types", Some("not json"))]), &m, &NoopLogger)),
        "invalid metaobject_definition_types value (expected JSON array string): `not json`"
    );
    assert_eq!(
        json_message(resolve_validations_for_shopify(&Some(vec![rule("metaobject_definition_types", None)]), &m, &NoopLogger)),
        "invalid metaobject_definition_types value (expected JSON array string): ``"
    );
    assert_eq!(
        json_message(resolve_validations_for_shopify(&Some(vec![rule("metaobject_definition_types", Some("[\"author\",\"x\"]"))]), &m, &NoopLogger)),
        "cannot resolve metaobject_definition_types item `x` in Shopify (type not found)"
    );
    assert_eq!(
        json_message(resolve_validations_for_shopify(&Some(vec![rule("metaobject_definition_id", Some("gid://9"))]), &m, &NoopLogger)),
        "metaobject_definition_id `gid://9` does not belong to the target Shopify store (export should use metaobject_definition_type instead)"
    );
    assert_eq!(
        json_message(resolve_validations_for_shopify(&Some(vec![rule("metaobject_definition_ids", Some("[\"gid://1\",\"gid://8\"]"))]), &m, &NoopLogger)),
        "metaobject_definition_ids contains `gid://8` which does not belong to the target Shopify store (export should use metaobject_definition_types instead)"
    );
    assert_eq!(
        json_message(resolve_validations_for_shopify(&Some(vec![rule("metaobject_definition_ids", Some("{}"))]), &m, &NoopLogger)),
        "invalid metaobject_definition_ids value (expected JSON array string): `{}`"
    );
}

#[test]
fn resolve_keeps_known_ids_and_rules_without_values() {
    let m = map_of(&[("author", "gid://1")]);
    let rules = vec![
        rule("metaobject_definition_id", Some("gid://1")),
        rule("metaobject_definition_ids", Some("[\"gid://1\"]")),
        rule("metaobject_definition_type", None),
        rule("metaobject_definition_id", None),
    ];
    let out = resolve_validations_for_shopify(&Some(rules.clone()), &m, &NoopLogger).unwrap().unwrap();
    assert_eq!(out, rules);
    assert_eq!(resolve_validations_for_shopify(&None, &m, &NoopLogger).unwrap(), None);
    assert_eq!(resolve_validations_for_shopify(&Some(vec![]), &m, &NoopLogger).unwrap(), None);
}

#[test]
fn create_input_normalizes_and_resolves() {
    let m = map_of(&[("author", "gid://1")]);
    let c = cfg("book", vec![cfg_field("a", Some(vec![rule("metaobject_definition_type", Some("author"))]))]);
    let input = build_create_input(&c, &m, &NoopLogger).unwrap();
    assert_eq!(input.typ, "book");
    assert_eq!(input.name, "BOOK");
    assert_eq!(input.description, None);
    assert_eq!(input.display_name_key.as_deref(), Some("key"));
    assert_eq!(input.field_definitions[0].description.as_deref(), Some("about"));
    assert_eq!(input.field_definitions[0].validations, Some(vec![rule("metaobject_definition_id", Some("gid://1"))]));
    let bad = cfg("book", vec![cfg_field("a", Some(vec![rule("metaobject_definition_type", Some("x"))]))]);
    assert!(build_create_input(&bad, &m, &NoopLogger).is_err());
}

#[test]
fn update_input_updates_known_fields_and_creates_new_ones() {
    let m = map_of(&[]);
    let c = cfg("book", vec![cfg_field("a", None), cfg_field("b", Some(vec![rule("max", Some("1"))]))]);
    let ex = shop(Some("gid://5"), "book", vec![shop_field("a", vec![])]);
    let input = build_update_input(&c, &ex, &m, &NoopLogger).unwrap();
    match &input.field_definitions[0] {
        MetaobjectFieldDefinitionOperation::Update { update } => assert_eq!(update.key, "a"),
        other => panic!("unexpected {other:?}"),
    }
    match &input.field_definitions[1] {
        MetaobjectFieldDefinitionOperation::Create { create } => {
            assert_eq!(create.key, "b");
            assert_eq!(create.validations, Some(vec![rule("max", Some("1"))]));
        },
        other => panic!("unexpected {other:?}"),
    }
}

#[test]
fn changes_are_detected_field_by_field() {
    let m = map_of(&[("author", "gid://1")]);
    let c = cfg("book", vec![cfg_field("a", Some(vec![rule("metaobject_definition_type", Some("author"))]))]);
    let same = shop(Some("gid://5"), "book", vec![shop_field("a", vec![rule("metaobject_definition_id", Some("gid://1"))])]);
    assert!(!has_changes(&same, &c, &m, &NoopLogger));
    let other_rules = shop(Some("gid://5"), "book", vec![shop_field("a", vec![])]);
    assert!(has_changes(&other_rules, &c, &m, &NoopLogger));
    let other_name = { let mut s = same.clone(); s.name = "Other".to_string(); s };
    assert!(has_changes(&other_name, &c, &m, &NoopLogger));
    let extra = shop(Some("gid://5"), "book", vec![shop_field("b", vec![])]);
    assert!(has_changes(&extra, &c, &m, &NoopLogger));
    let more = shop(Some("gid://5"), "book", vec![shop_field("a", vec![]), shop_field("b", vec![])]);
    assert!(has_changes(&more, &c, &m, &NoopLogger));
}

#[test]
fn decision_creates_updates_or_leaves() {
    let m = map_of(&[]);
    let c = cfg("book", vec![cfg_field("a", None)]);
    match decide_metaobject_import(&c, None, &m, &NoopLogger).unwrap() {
        MetaobjectImportStep::Create(input) => assert_eq!(input.typ, "book"),
        other => panic!("unexpected {other:?}"),
    }
    let same = shop(Some("gid://5"), "book", vec![shop_field("a", vec![])]);
    assert_eq!(decide_metaobject_import(&c, Some(&same), &m, &NoopLogger).unwrap(), MetaobjectImportStep::NoChange);
    let changed = shop(Some("gid://5"), "book", vec![shop_field("z", vec![])]);
    match decide_metaobject_import(&c, Some(&changed), &m, &NoopLogger).unwrap() {
        MetaobjectImportStep::Update { id, .. } => assert_eq!(id, "gid://5"),
        other => panic!("unexpected {other:?}"),
    }
    let no_id = shop(None, "book", vec![shop_field("z", vec![])]);
    match decide_metaobject_import(&c, Some(&no_id), &m, &NoopLogger) {
        Err(AppError::Gateway(msg)) => assert_eq!(msg, "existing metaobject definition missing id for type `book`"),
        other => panic!("unexpected {other:?}"),
    }
}

struct FakeImportGateway {
    existing: Vec<ShopifyMetaobjectDefinition>,
    type_to_id: Vec<(String, String)>,
    created: RefCell<Vec<String>>,
    updated: RefCell<Vec<String>>,
    resets: RefCell<usize>,
}

impl MetaobjectImportGateway for FakeImportGateway {
    fn list_existing_metaobject_definitions(&self, _logger: &dyn Logger) -> Result<Vec<ShopifyMetaobjectDefinition>, AppError> {
        Ok(self.existing.clone())
    }

    fn metaobject_type_to_id_map(&self, _logger: &dyn Logger) -> Result<StringMap, AppError> {
        Ok(StringMap::from_pairs(self.type_to_id.clone()))
    }

    fn metaobject_definition_create(&self, input: &MetaobjectDefinitionCreateInput, _logger: &dyn Logger) -> Result<(), AppError> {
        self.created.borrow_mut().push(input.typ.clone());
        Ok(())
    }

    fn metaobject_definition_update(&self, id: &str, _input: &MetaobjectDefinitionUpdateInput, _logger: &dyn Logger) -> Result<(), AppError> {
        self.updated.borrow_mut().push(id.to_string());
        Ok(())
    }

    fn reset_metaobject_cache(&self) {
        *self.resets.borrow_mut() += 1;
    }
}

struct FakeClock {
    sleeps: RefCell<Vec<u64>>,
}

impl Clock for FakeClock {
    fn now_timestamp_millis(&self) -> u128 {
        1700000000123
    }

    fn sleep_millis(&self, millis: u64) {
        self.sleeps.borrow_mut().push(millis);
    }
}

#[derive(Default)]
struct MemRepo {
    files: HashMap<String, String>,
}

impl FileRepo for MemRepo {
    fn read_text(&self, path: &str) -> Result<String, AppError> {
        self.files.get(path).cloned().ok_or_else(|| AppError::Repo(format!("file not found: {path}")))
    }

    fn write_text(&mut self, path: &str, contents: &str) -> Result<(), AppError> {
        self.files.insert(path.to_string(), contents.to_string());
        Ok(())
    }
}

/// Hands out a fixed list of metaobject definitions for any text, and writes reports as counts.
struct FixedCodec {
    defs: Vec<MetaobjectDefinitionConfig>,
}

impl JsonCodec for FixedCodec {
    fn parse_metafield_definitions(&self, _json: &str) -> Result<Vec<MetafieldDefinitionConfig>, Vec<ValidationError>> {
        Ok(vec![])
    }

    fn parse_metaobject_definitions(&self, json: &str) -> Result<Vec<MetaobjectDefinitionConfig>, Vec<ValidationError>> {
        if json == "bad" {
            Err(vec![ValidationError { path: "[0].type".to_string(), message: "missing field".to_string() }])
        } else {
            Ok(self.defs.clone())
        }
    }

    fn metafield_definitions_text(&self, _defs: &[ExportedMetafieldDefinition]) -> Result<String, String> {
        Ok("[]".to_string())
    }

    fn metaobject_definitions_text(&self, _defs: &[ExportedMetaobjectDefinition]) -> Result<String, String> {
        Ok("[]".to_string())
    }

    fn metafield_report_text(&self, _report: &MetafieldImportReport) -> Result<String, String> {
        Ok("{}".to_string())
    }

    fn metaobject_report_text(&self, report: &MetaobjectImportReport) -> Result<String, String> {
        Ok(format!("{}", report.items.len()))
    }
}

fn gateway(existing: Vec<ShopifyMetaobjectDefinition>, type_to_id: &[(&str, &str)]) -> FakeImportGateway {
    FakeImportGateway {
        existing,
        type_to_id: type_to_id.iter().map(|(k, v)| (k.to_string(), v.to_string())).collect(),
        created: RefCell::new(vec![]),
        updated: RefCell::new(vec![]),
        resets: RefCell::new(0),
    }
}

#[test]
fn plan_orders_levels_and_reports_missing_external_types() {
    let book = cfg("book", vec![cfg_field("a", Some(vec![
        rule("metaobject_definition_type", Some("author")),
        rule("metaobject_definition_type", Some("genre")),
        rule("metaobject_definition_type", Some("shelf")),
    ]))]);
    let author = cfg("author", vec![cfg_field("n", None)]);
    let codec = FixedCodec { defs: vec![book, author] };
    let mut repo = MemRepo::default();
    repo.files.insert("definitions/metaobjects.json".to_string(), "[...]".to_string());
    let planner = PlanMetaobjectsImportUseCase::new(gateway(vec![], &[("genre", "gid://g")]));
    let plan = planner.execute(&mut repo, &codec, &NoopLogger).unwrap();
    assert_eq!(plan.total, 2);
    assert_eq!(plan.levels.len(), 2);
    assert_eq!(plan.levels[0][0].typ, "author");
    assert_eq!(plan.levels[1][0].typ, "book");
    assert_eq!(plan.missing_external_types, vec!["shelf".to_string()]);
    assert!(plan.tree_markdown.contains("└── book\n    └── author\n"));
    assert!(plan.tree_markdown.contains("🔗 External dependencies (already in Shopify)\n- genre\n"));
}

#[test]
fn plan_rejects_missing_empty_invalid_and_cyclic_files() {
    let planner = PlanMetaobjectsImportUseCase::new(gateway(vec![], &[]));
    let mut empty_repo = MemRepo::default();
    match planner.execute(&mut empty_repo, &FixedCodec { defs: vec![] }, &NoopLogger) {
        Err(AppError::Repo(m)) => assert_eq!(m, "file not found: definitions/metaobjects.json"),
        other => panic!("unexpected {other:?}"),
    }
    let mut repo = MemRepo::default();
    repo.files.insert("definitions/metaobjects.json".to_string(), "[]".to_string());
    match planner.execute(&mut repo, &FixedCodec { defs: vec![] }, &NoopLogger) {
        Err(AppError::Json(m)) => assert_eq!(m, "metaobject config file must be a non-empty array: definitions/metaobjects.json"),
        other => panic!("unexpected {other:?}"),
    }
    repo.files.insert("definitions/metaobjects.json".to_string(), "bad".to_string());
    match planner.execute(&mut repo, &FixedCodec { defs: vec![] }, &NoopLogger) {
        Err(AppError::Json(m)) => assert_eq!(m, "1. [0].type: missing field"),
        other => panic!("unexpected {other:?}"),
    }
    repo.files.insert("definitions/metaobjects.json".to_string(), "[...]".to_string());
    let a = cfg("a", vec![cfg_field("x", Some(vec![rule("metaobject_definition_type", Some("b"))]))]);
    let b = cfg("b", vec![cfg_field("y", Some(vec![rule("metaobject_definition_type", Some("a"))]))]);
    match planner.execute(&mut repo, &FixedCodec { defs: vec![a, b] }, &NoopLogger) {
        Err(AppError::Json(m)) => assert_eq!(m, "cycle detected in metaobject dependency graph at `a`"),
        other => panic!("unexpected {other:?}"),
    }
}

#[test]
fn import_creates_updates_and_reports_per_level() {
    let author = cfg("author", vec![cfg_field("n", None)]);
    let book = cfg("book", vec![cfg_field("a", Some(vec![rule("metaobject_definition_type", Some("author"))]))]);
    let mut many: Vec<MetaobjectDefinitionConfig> = (0..11).map(|i| cfg(&format!("t{i:02}"), vec![])).collect();
    many.push(author);
    let codec = FixedCodec { defs: many.into_iter().chain(std::iter::once(book)).collect() };
    let mut repo = MemRepo::default();
    repo.files.insert("definitions/metaobjects.json".to_string(), "[...]".to_string());
    let existing = vec![shop(Some("gid://a"), "author", vec![shop_field("other", vec![])]), shop(Some("gid://t0"), "t00", vec![])];
    let plan = PlanMetaobjectsImportUseCase::new(gateway(existing.clone(), &[("author", "gid://a")]))
        .execute(&mut repo, &codec, &NoopLogger).unwrap();
    assert_eq!(plan.levels.len(), 2);
    let gw = gateway(existing, &[("author", "gid://a")]);
    let clock = FakeClock { sleeps: RefCell::new(vec![]) };
    let importer = ImportMetaobjectsFromFileUseCase::new(gw, clock);
    let report = importer.execute(&plan, &mut repo, &codec, &NoopLogger).unwrap();
    assert_eq!(report.summary.total, 13);
    assert_eq!(report.items.len(), 13);
    assert_eq!(report.summary.updated, 1);
    assert_eq!(report.summary.no_change, 1);
    assert_eq!(report.summary.created, 11);
    assert_eq!(report.summary.failed, 0);
    assert_eq!(report.items[0].typ, "author");
    assert_eq!(report.items[0].action, MetaobjectImportAction::Update);
    assert_eq!(report.items[1].action, MetaobjectImportAction::NoChange);
    assert_eq!(report.items[12].typ, "book");
    assert!(repo.files.contains_key("reports/metaobject-definitions:import/metaobject-import-report-1700000000123.json"));
    assert_eq!(repo.files["reports/metaobject-definitions:import/metaobject-import-report-1700000000123.json"], "13");
}

#[test]
fn report_helpers() {
    assert_eq!(metaobject_report_file(42), "reports/metaobject-definitions:import/metaobject-import-report-42.json");
    assert_eq!(batch_count(0), 0);
    assert_eq!(batch_count(10), 1);
    assert_eq!(batch_count(11), 2);
    assert_eq!(action_label(MetaobjectImportAction::NoChange), "NoChange");
}

#[test]
fn export_then_import_gives_back_definition_ids() {
    let rules_before = vec![rule("metaobject_definition_id", Some("gid://9")), rule("max", Some("3"))];
    let exported = export_metaobject_definitions(
        vec![shop(Some("gid://1"), "book", vec![shop_field("author", rules_before.clone())])],
        &map_of(&[("gid://9", "author"), ("gid://1", "book")]),
    );
    let rules = exported[0].field_definitions[0].validations.clone();
    assert_eq!(rules, Some(vec![rule("metaobject_definition_type", Some("author")), rule("max", Some("3"))]));
    let back = resolve_validations_for_shopify(&rules, &map_of(&[("author", "gid://9"), ("book", "gid://1")]), &NoopLogger)
        .unwrap()
        .unwrap();
    assert_eq!(back, rules_before);
}

#[test]
fn reimporting_a_metaobject_export_changes_nothing() {
    let existing = shop(Some("gid://1"), "book", vec![
        shop_field("author", vec![rule("metaobject_definition_id", Some("gid://9")), rule("max", Some("3"))]),
        shop_field("title", vec![]),
    ]);
    let exported = export_metaobject_definitions(vec![existing.clone()], &map_of(&[("gid://9", "author"), ("gid://1", "book")]));
    let e = &exported[0];
    let c = MetaobjectDefinitionConfig {
        typ: e.typ.clone(),
        name: e.name.clone(),
        field_definitions: e
            .field_definitions
            .iter()
            .map(|f| MetaobjectFieldDefinitionConfig {
                key: f.key.clone(),
                name: f.name.clone(),
                typ: f.typ.clone(),
                required: f.required,
                description: f.description.clone(),
                validations: f.validations.clone(),
            })
            .collect(),
        description: e.description.clone(),
        display_name_key: e.display_name_key.clone(),
        access: e.access.clone(),
        capabilities: e.capabilities,
    };
    let step = decide_metaobject_import(&c, Some(&existing), &map_of(&[("author", "gid://9"), ("book", "gid://1")]), &NoopLogger);
    assert!(matches!(step, Ok(MetaobjectImportStep::NoChange)));
}

#[test]
fn export_then_import_gives_back_definition_id_lists() {
    let rules_before = vec![rule("metaobject_definition_ids", Some("[\"gid://9\",\"gid://1\"]"))];
    let exported = export_metaobject_definitions(
        vec![shop(Some("gid://1"), "book", vec![shop_field("related", rules_before.clone())])],
        &map_of(&[("gid://9", "author"), ("gid://1", "book")]),
    );
    let rules = exported[0].field_definitions[0].validations.clone();
    assert_eq!(rules, Some(vec![rule("metaobject_definition_types", Some("[\"author\",\"book\"]"))]));
    let back = resolve_validations_for_shopify(&rules, &map_of(&[("author", "gid://9"), ("book", "gid://1")]), &NoopLogger)
        .unwrap()
        .unwrap();
    assert_eq!(back, rules_before);
}

#[test]
fn plan_parts_come_from_the_file_alone() {
    match prepare_plan(&vec![]) {
        Err(AppError::Json(m)) => assert_eq!(m, "metaobject config file must be a non-empty array: definitions/metaobjects.json"),
        other => panic!("unexpected {:?}", other.map(|p| p.1)),
    }
    let a = cfg("a", vec![cfg_field("x", Some(vec![rule("metaobject_definition_type", Some("b"))]))]);
    let b = cfg("b", vec![cfg_field("y", Some(vec![rule("metaobject_definition_type", Some("a"))]))]);
    match prepare_plan(&vec![a, b]) {
        Err(AppError::Json(m)) => assert_eq!(m, "cycle detected in metaobject dependency graph at `a`"),
        other => panic!("unexpected {:?}", other.map(|p| p.1)),
    }
    let author = cfg("author", vec![cfg_field("n", Some(vec![rule("metaobject_definition_type", Some("tag"))]))]);
    let book = cfg("book", vec![cfg_field("a", Some(vec![rule("metaobject_definition_type", Some("author"))]))]);
    let (_deps, levels, external) = prepare_plan(&vec![book, author]).unwrap();
    assert_eq!(levels, vec![vec!["author".to_string()], vec!["book".to_string()]]);
    assert_eq!(external, vec!["tag".to_string()]);
}

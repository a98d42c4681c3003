use mds::error::AppError;
use mds::maps::{DepsMap, StringSet};
use mds::metaobjects::deps::{build_internal_deps_map, collect_external_dependency_types, compute_levels,
    extract_metaobject_deps, normalize_description, normalize_display_name_key, normalize_validations,
    render_dependency_forest_text};
use mds::metaobjects::types::{MetaobjectDefinitionConfig, MetaobjectFieldDefinitionConfig, MetaobjectValidationRule};

fn rule(name: &str, value: Option<&str>) -> MetaobjectValidationRule {
    MetaobjectValidationRule { name: name.to_string(), value: value.map(|v| v.to_string()) }
}

fn field(key: &str, validations: Option<Vec<MetaobjectValidationRule>>) -> MetaobjectFieldDefinitionConfig {
    MetaobjectFieldDefinitionConfig {
        key: key.to_string(),
        name: key.to_uppercase(),
        typ: "metaobject_reference".to_string(),
        required: false,
        description: None,
        validations,
    }
}

fn def(typ: &str, deps: &[&str]) -> MetaobjectDefinitionConfig {
    let fields = deps.iter().enumerate()
        .map(|(i, d)| field(&format!("f{i}"), Some(vec![rule("metaobject_definition_type", Some(d))])))
        .collect();
    MetaobjectDefinitionConfig {
        typ: typ.to_string(),
        name: typ.to_string(),
        field_definitions: fields,
        description: None,
        display_name_key: None,
        access: None,
        capabilities: None,
    }
}

fn deps_of(pairs: &[(&str, &[&str])]) -> DepsMap {
    let mut m = DepsMap::new();
    for (k, vs) in pairs {
        m.insert(k.to_string(), vs.iter().map(|v| v.to_string()).collect());
    }
    m
}

#[test]
fn extract_deps_trims_skips_blank_and_dedups_in_order() {
    let mut d = def("page", &[]);
    d.field_definitions = vec![
        field("a", Some(vec![rule("metaobject_definition_type", Some(" author ")), rule("other", Some("x"))])),
        field("b", None),
        field("c", Some(vec![rule("metaobject_definition_type", Some("   ")), rule("metaobject_definition_type", None)])),
        field("d", Some(vec![rule("metaobject_definition_type", Some("tag")), rule("metaobject_definition_type", Some("author"))])),
    ];
    assert_eq!(extract_metaobject_deps(&d), vec!["author".to_string(), "tag".to_string()]);
}

#[test]
fn internal_deps_keep_only_types_of_the_file() {
    let defs = vec![def("book", &["author", "publisher"]), def("author", &[])];
    let (deps, types) = build_internal_deps_map(&defs);
    assert_eq!(deps.get("book").unwrap(), &vec!["author".to_string()]);
    assert_eq!(deps.get("author").unwrap(), &Vec::<String>::new());
    assert!(types.contains("book") && types.contains("author") && !types.contains("publisher"));
    assert_eq!(collect_external_dependency_types(&defs, &types), vec!["publisher".to_string()]);
}

#[test]
fn levels_put_dependencies_first_and_sort_each_level() {
    let g = deps_of(&[("c", &["a", "b"]), ("b", &["a"]), ("a", &[]), ("z", &[]), ("d", &["b"])]);
    let levels = compute_levels(&g).unwrap();
    assert_eq!(levels, vec![
        vec!["a".to_string(), "z".to_string()],
        vec!["b".to_string()],
        vec!["c".to_string(), "d".to_string()],
    ]);
}

#[test]
fn levels_of_empty_map_is_empty() {
    assert_eq!(compute_levels(&DepsMap::new()).unwrap(), Vec::<Vec<String>>::new());
}

#[test]
fn cycle_is_reported_with_its_node() {
    let g = deps_of(&[("a", &["b"]), ("b", &["a"])]);
    match compute_levels(&g) {
        Err(AppError::Json(m)) => assert_eq!(m, "cycle detected in metaobject dependency graph at `a`"),
        other => panic!("unexpected {other:?}"),
    }
    let self_loop = deps_of(&[("x", &["x"])]);
    let e = compute_levels(&self_loop).unwrap_err();
    assert_eq!(e.to_string(), "json error: cycle detected in metaobject dependency graph at `x`");
}

#[test]
fn cycle_names_the_node_the_search_reaches_twice() {
    // The search starts at `a`, goes down to `c`, then `b`, and meets `c` again.
    let g = deps_of(&[("c", &["b"]), ("a", &["c"]), ("b", &["c"])]);
    match compute_levels(&g) {
        Err(AppError::Json(m)) => assert_eq!(m, "cycle detected in metaobject dependency graph at `c`"),
        other => panic!("unexpected {other:?}"),
    }
    // Dependencies are followed in their listed order.
    let h = deps_of(&[("a", &["d", "b"]), ("b", &["c"]), ("c", &["b"]), ("d", &["e"]), ("e", &["d"])]);
    match compute_levels(&h) {
        Err(AppError::Json(m)) => assert_eq!(m, "cycle detected in metaobject dependency graph at `d`"),
        other => panic!("unexpected {other:?}"),
    }
}

#[test]
fn forest_text_renders_roots_children_and_sections() {
    let g = deps_of(&[("page", &["section", "author"]), ("section", &["author"]), ("author", &[]), ("tag", &[])]);
    let text = render_dependency_forest_text(&g, &["shopify_type".to_string()], &["missing_type".to_string()]);
    let expected = "🌳 Metaobject dependency graph\n\
├── page\n\
│   ├── author\n\
│   └── section\n\
│       └── author\n\
└── tag\n\
\n\
🔗 External dependencies (already in Shopify)\n\
- shopify_type\n\
\n\
⚠️ Missing external dependencies (not in JSON and not in Shopify)\n\
- missing_type\n";
    assert_eq!(text, expected);
}

#[test]
fn forest_text_marks_cycles_and_omits_empty_sections() {
    let g = deps_of(&[("root", &["a"]), ("a", &["b"]), ("b", &["a"])]);
    let text = render_dependency_forest_text(&g, &[], &[]);
    assert_eq!(text, "🌳 Metaobject dependency graph\n└── root\n    └── a\n        └── b\n            └── a (cycle)\n");
}

#[test]
fn external_types_are_sorted_and_unique() {
    let defs = vec![def("x", &["zeta", "alpha"]), def("y", &["alpha", "x", "beta"])];
    let mut internal = StringSet::new();
    internal.insert("x".to_string());
    internal.insert("y".to_string());
    assert_eq!(collect_external_dependency_types(&defs, &internal), vec!["alpha".to_string(), "beta".to_string(), "zeta".to_string()]);
}

#[test]
fn normalizers_trim_and_drop_blank() {
    assert_eq!(normalize_description(Some("  hi  ".to_string())), Some("hi".to_string()));
    assert_eq!(normalize_description(Some(" \t ".to_string())), None);
    assert_eq!(normalize_description(None), None);
    assert_eq!(normalize_display_name_key(Some(" title".to_string())), Some("title".to_string()));
    assert_eq!(normalize_validations(&None), vec![]);
    assert_eq!(normalize_validations(&Some(vec![rule("a", None)])), vec![rule("a", None)]);
}

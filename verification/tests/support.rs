use std::cmp::Ordering;
use std::path::PathBuf;

use mds::config::{Environment, LogFormat};
use mds::error::AppError;
use mds::infra::dto::{GraphQlResponse, IdNode, MetafieldAccessNode, MetafieldDefEdge, MetafieldDefNode, MetafieldDefinitionCreateData,
    MetafieldDefinitionCreatePayload, MetafieldDefinitionDeleteData, MetafieldDefinitionDeletePayload, MetafieldDefsConnection,
    MetafieldDefsData, MetafieldTypeObj, MetaobjectDefEdge, MetaobjectDefNode, MetaobjectDefsConnection, MetaobjectDefsData,
    PageInfo, UserErrorNode, CapabilityFlagNode, MetafieldCapabilitiesNode};
use mds::infra::dto::{MetaobjectDefsDataForExport, MetaobjectDefsConnectionForExport, MetaobjectDefEdgeForExport,
    MetaobjectDefNodeForExport};
use mds::infra::env_service::{parse_u64_text, DotenvEnvironmentService};
use mds::infra::shopify::{check_metafield_definition_create, check_metafield_definition_delete, format_user_errors,
    metafield_definitions_page, metaobject_id_type_page, type_to_id_map, ShopifyClient, start_metafield_listing,
    continue_metafield_listing, metafield_listing_request, metafield_definitions_request, metaobject_definitions_request,
    start_id_type_listing, continue_id_type_listing, start_metaobject_listing, continue_metaobject_listing};
use mds::logging::{format_fields, merge_fields, LogField};
use mds::maps::StringMap;
use mds::startup::{compare_semver_tags, parse_v_semver, select_environment, should_check_for_updates, update_message,
    EnvironmentChoice};
use mds::validation::{format_validation_errors, ValidationError};

fn env(name: &str, display: &str) -> Environment {
    Environment { name: name.to_string(), display_name: display.to_string(), file_path: PathBuf::from(format!("/x/{name}")) }
}

#[test]
fn semver_tags_read_and_compare() {
    assert_eq!(parse_v_semver(" v1.2.3 "), Some((1, 2, 3)));
    assert_eq!(parse_v_semver("1.10.0-rc"), None);
    assert_eq!(parse_v_semver("2.0.1.7"), Some((2, 0, 1)));
    assert_eq!(parse_v_semver("v1.2"), None);
    assert_eq!(parse_v_semver("vv1.2.3"), None);
    assert_eq!(compare_semver_tags("v1.2.3", "v1.10.0"), Some(Ordering::Less));
    assert_eq!(compare_semver_tags("v2.0.0", "v1.10.0"), Some(Ordering::Greater));
    assert_eq!(compare_semver_tags("v1.2.3", "1.2.3"), Some(Ordering::Equal));
    assert_eq!(compare_semver_tags("x", "1.2.3"), None);
}

#[test]
fn update_notice_only_for_newer_releases() {
    assert_eq!(
        update_message("v0.1.1", " v0.2.0 ", None),
        Some("Update available: v0.1.1 -> v0.2.0. See: https://github.com/oleksandrkever-code/meta-definition-sync-cli-rs#install-no-rust-required (release: https://github.com/oleksandrkever-code/meta-definition-sync-cli-rs/releases/latest)".to_string())
    );
    assert_eq!(
        update_message("v0.1.1", "v1.0.0", Some("https://r")),
        Some("Update available: v0.1.1 -> v1.0.0. See: https://github.com/oleksandrkever-code/meta-definition-sync-cli-rs#install-no-rust-required (release: https://r)".to_string())
    );
    assert_eq!(update_message("v0.2.0", "v0.1.9", None), None);
    assert_eq!(update_message("v0.2.0", "   ", None), None);
}

#[test]
fn update_check_runs_only_when_due() {
    assert!(should_check_for_updates(false, false, true, false, 1000, None, 7));
    assert!(!should_check_for_updates(true, false, true, false, 1000, None, 7));
    assert!(!should_check_for_updates(false, true, true, false, 1000, None, 7));
    assert!(!should_check_for_updates(false, false, false, false, 1000, None, 7));
    assert!(!should_check_for_updates(false, false, true, true, 1000, None, 7));
    assert!(!should_check_for_updates(false, false, true, false, 604_799, Some(0), 7));
    assert!(should_check_for_updates(false, false, true, false, 604_800, Some(0), 7));
    assert!(!should_check_for_updates(false, false, true, false, 5, Some(10), 0) == false);
    assert!(!should_check_for_updates(false, false, true, false, u64::MAX - 1, Some(0), u64::MAX));
}

#[test]
fn environment_selection_rules() {
    let envs = vec![env("default", "Default"), env("dev", "Dev")];
    assert!(matches!(select_environment(Some("dev"), false, &envs), Ok(EnvironmentChoice::Chosen(1))));
    assert_eq!(select_environment(Some("prod"), false, &envs).err(), Some("Invalid environment \"prod\"".to_string()));
    assert!(matches!(select_environment(None, true, &envs), Ok(EnvironmentChoice::Chosen(0))));
    let named = vec![env("dev", "Dev"), env("prod", "Prod")];
    assert_eq!(select_environment(None, true, &named).err(), Some("--environment is required in CI mode. Available: dev, prod".to_string()));
    assert!(matches!(select_environment(None, false, &named), Ok(EnvironmentChoice::Ask)));
    assert!(matches!(select_environment(None, true, &named[..1]), Ok(EnvironmentChoice::Chosen(0))));
}

#[test]
fn environments_are_listed_default_first_then_by_display_name() {
    let svc = DotenvEnvironmentService::new(PathBuf::from("/r"));
    let envs = svc.detect_from_filenames(&[".env.zeta".to_string(), ".env.".to_string(), ".envrc".to_string(), ".env.alpha".to_string(), ".env".to_string()]);
    let names: Vec<&str> = envs.iter().map(|e| e.name.as_str()).collect();
    assert_eq!(names, vec!["default", "alpha", "zeta"]);
    assert_eq!(envs[1].display_name, "Alpha");
    assert_eq!(envs[0].display_name, "Default");
    assert_eq!(envs[1].file_path, PathBuf::from("/r/.env.alpha"));
    match svc.detected_environments(&["README.md".to_string()]) {
        Err(AppError::Config(m)) => assert_eq!(m, "no environment files found (.env or .env.<name>)"),
        other => panic!("unexpected {other:?}"),
    }
}

#[test]
fn store_config_from_variables() {
    let e = env("dev", "Dev");
    let mut vars = StringMap::new();
    vars.insert("MDS_CLI_SHOPIFY_SHOP_DOMAIN".to_string(), "shop.myshopify.com".to_string());
    match DotenvEnvironmentService::store_config_from_vars(&e, &vars) {
        Err(AppError::Config(m)) => assert_eq!(m, "missing required env var: MDS_CLI_SHOPIFY_ACCESS_TOKEN"),
        other => panic!("unexpected {other:?}"),
    }
    vars.insert("MDS_CLI_SHOPIFY_ACCESS_TOKEN".to_string(), "  ".to_string());
    assert!(DotenvEnvironmentService::store_config_from_vars(&e, &vars).is_err());
    vars.insert("MDS_CLI_SHOPIFY_ACCESS_TOKEN".to_string(), "tok".to_string());
    let c = DotenvEnvironmentService::store_config_from_vars(&e, &vars).unwrap();
    assert_eq!(c.env_name, "dev");
    assert_eq!(c.log_format, LogFormat::Pretty);
    assert!(!c.disable_update_check);
    assert_eq!(c.update_check_days, 7);
    vars.insert("MDS_LOG_FORMAT".to_string(), " JSON ".to_string());
    vars.insert("MDSR_CLI_NO_UPDATE_CHECK".to_string(), "Yes".to_string());
    vars.insert("MDSR_CLI_UPDATE_CHECK_DAYS".to_string(), " 30 ".to_string());
    let c = DotenvEnvironmentService::store_config_from_vars(&e, &vars).unwrap();
    assert_eq!(c.log_format, LogFormat::Json);
    assert!(c.disable_update_check);
    assert_eq!(c.update_check_days, 30);
    assert_eq!(LogFormat::from_str("pretty"), LogFormat::Pretty);
}

#[test]
fn numbers_read_like_str_parse() {
    assert_eq!(parse_u64_text("0"), Some(0));
    assert_eq!(parse_u64_text("+42"), Some(42));
    assert_eq!(parse_u64_text("18446744073709551615"), Some(u64::MAX));
    assert_eq!(parse_u64_text("18446744073709551616"), None);
    assert_eq!(parse_u64_text(""), None);
    assert_eq!(parse_u64_text("+"), None);
    assert_eq!(parse_u64_text("-1"), None);
    assert_eq!(parse_u64_text("1a"), None);
    for s in ["7", "+007", "123456789", "x", "99999999999999999999"] {
        assert_eq!(parse_u64_text(s), s.parse::<u64>().ok());
    }
}

#[test]
fn validation_errors_are_numbered_lines() {
    let errs = vec![
        ValidationError { path: "[0].access".to_string(), message: "unknown variant".to_string() },
        ValidationError { path: "[1]".to_string(), message: "unknown field".to_string() },
    ];
    assert_eq!(format_validation_errors(&errs), "1. [0].access: unknown variant\n2. [1]: unknown field");
    assert_eq!(format_validation_errors(&[]), "");
}

#[test]
fn log_fields_are_key_value_pairs() {
    let ctx = vec![LogField::new("env", "dev")];
    let fields = vec![LogField::new("a", "1".to_string()), LogField::new("b", "x y")];
    let merged = merge_fields(&ctx, &fields);
    assert_eq!(format_fields(&merged), "env=dev a=1 b=x y");
    assert_eq!(format_fields(&[]), "");
}

#[test]
fn errors_display_their_kind() {
    assert_eq!(AppError::Gateway("g".to_string()).to_string(), "gateway error: g");
    assert_eq!(AppError::Repo("r".to_string()).to_string(), "repo error: r");
    assert_eq!(AppError::Config("c".to_string()).to_string(), "config error: c");
}

#[test]
fn client_endpoint_and_user_errors() {
    let c = ShopifyClient::new("shop.myshopify.com".to_string(), "tok".to_string());
    assert_eq!(c.endpoint(), "https://shop.myshopify.com/admin/api/2025-10/graphql.json");
    assert_eq!(c.access_token(), "tok");
    let errs = vec![
        UserErrorNode { field: Some(vec!["definition".to_string(), "key".to_string()]), message: "taken".to_string() },
        UserErrorNode { field: None, message: "bad".to_string() },
    ];
    assert_eq!(format_user_errors(&errs), "definition.key: taken; bad");
}

#[test]
fn mutation_responses_are_checked_in_order() {
    let ok = GraphQlResponse { data: Some(MetafieldDefinitionCreateData { metafield_definition_create: MetafieldDefinitionCreatePayload {
        created_definition: Some(IdNode { id: "gid://1".to_string() }), user_errors: vec![] } }), errors: None };
    assert!(check_metafield_definition_create(&ok).is_ok());
    let errs = GraphQlResponse::<MetafieldDefinitionCreateData> { data: None, errors: Some("[{\"message\":\"x\"}]".to_string()) };
    assert_eq!(check_metafield_definition_create(&errs).unwrap_err().to_string(), "gateway error: GraphQL errors in metafieldDefinitionCreate: [{\"message\":\"x\"}]");
    let none = GraphQlResponse::<MetafieldDefinitionCreateData> { data: None, errors: None };
    assert_eq!(check_metafield_definition_create(&none).unwrap_err().to_string(), "gateway error: missing data in metafieldDefinitionCreate");
    let user = GraphQlResponse { data: Some(MetafieldDefinitionDeleteData { metafield_definition_delete: MetafieldDefinitionDeletePayload {
        deleted_definition_id: None, user_errors: vec![UserErrorNode { field: None, message: "nope".to_string() }] } }), errors: None };
    assert_eq!(check_metafield_definition_delete(&user).unwrap_err().to_string(), "gateway error: metafieldDefinitionDelete userErrors: nope");
    let nothing = GraphQlResponse { data: Some(MetafieldDefinitionDeleteData { metafield_definition_delete: MetafieldDefinitionDeletePayload {
        deleted_definition_id: None, user_errors: vec![] } }), errors: None };
    assert_eq!(check_metafield_definition_delete(&nothing).unwrap_err().to_string(), "gateway error: metafieldDefinitionDelete did not return deletedDefinitionId");
}

#[test]
fn pages_convert_nodes_and_follow_cursors() {
    let node = MetafieldDefNode {
        id: "gid://m/1".to_string(),
        namespace: "custom".to_string(),
        key: "k".to_string(),
        name: "K".to_string(),
        description: None,
        type_obj: MetafieldTypeObj { name: "metaobject_reference".to_string() },
        validations: vec![mds::infra::dto::MetafieldValidationNode { name: "metaobject_definition_id".to_string(), value: Some("gid://o/1".to_string()) }],
        pinned_position: Some(1),
        access: Some(MetafieldAccessNode { admin: Some("MERCHANT_READ".to_string()), storefront: None, customer_account: None }),
        capabilities: Some(MetafieldCapabilitiesNode { admin_filterable: Some(CapabilityFlagNode { enabled: true }), smart_collection_condition: None, unique_values: None }),
    };
    let body = GraphQlResponse { data: Some(MetafieldDefsData { metafield_definitions: MetafieldDefsConnection {
        edges: vec![MetafieldDefEdge { node }], page_info: PageInfo { has_next_page: true, end_cursor: Some("c1".to_string()) } } }), errors: None };
    let m = StringMap::from_pairs(vec![("gid://o/1".to_string(), "author".to_string())]);
    let (defs, next) = metafield_definitions_page(body, mds::domain::OwnerType::Shop, &m).unwrap();
    assert_eq!(next.as_deref(), Some("c1"));
    assert_eq!(defs[0].id.as_deref(), Some("gid://m/1"));
    assert_eq!(defs[0].typ, "metaobject_reference");
    assert_eq!(defs[0].validations[0].name, "metaobject_definition_type");
    assert_eq!(defs[0].validations[0].value.as_deref(), Some("author"));
    assert_eq!(defs[0].capabilities.unwrap().admin_filterable.unwrap().enabled, true);
    let failing = GraphQlResponse::<MetafieldDefsData> { data: None, errors: Some("E".to_string()) };
    assert_eq!(metafield_definitions_page(failing, mds::domain::OwnerType::Shop, &m).unwrap_err().to_string(),
        "gateway error: GraphQL errors when querying metafieldDefinitions(SHOP): E");

    let ids = GraphQlResponse { data: Some(MetaobjectDefsData { metaobject_definitions: MetaobjectDefsConnection {
        edges: vec![MetaobjectDefEdge { node: MetaobjectDefNode { id: "gid://1".to_string(), typ: "a".to_string() } },
                    MetaobjectDefEdge { node: MetaobjectDefNode { id: "gid://2".to_string(), typ: "b".to_string() } }],
        page_info: PageInfo { has_next_page: true, end_cursor: None } } }), errors: None };
    let (pairs, next) = metaobject_id_type_page(ids).unwrap();
    assert_eq!(next, None);
    let id_to_type = StringMap::from_pairs(pairs);
    let t2i = type_to_id_map(&id_to_type);
    assert_eq!(t2i.get("b").map(|s| s.as_str()), Some("gid://2"));
    assert_eq!(t2i.len(), 2);
}

fn plain_node(id: &str, key: &str) -> MetafieldDefNode {
    MetafieldDefNode {
        id: id.to_string(),
        namespace: "custom".to_string(),
        key: key.to_string(),
        name: key.to_uppercase(),
        description: None,
        type_obj: MetafieldTypeObj { name: "single_line_text_field".to_string() },
        validations: vec![],
        pinned_position: None,
        access: None,
        capabilities: None,
    }
}

fn metafield_page(nodes: Vec<MetafieldDefNode>, next: Option<&str>) -> GraphQlResponse<MetafieldDefsData> {
    GraphQlResponse {
        data: Some(MetafieldDefsData { metafield_definitions: MetafieldDefsConnection {
            edges: nodes.into_iter().map(|node| MetafieldDefEdge { node }).collect(),
            page_info: PageInfo { has_next_page: next.is_some(), end_cursor: next.map(|c| c.to_string()) },
        } }),
        errors: None,
    }
}

#[test]
fn metafield_listing_collects_every_page_in_order() {
    let m = StringMap::new();
    let owner = mds::domain::OwnerType::Product;
    let listing = start_metafield_listing();
    assert!(!listing.done);
    let req = metafield_listing_request(&listing, owner);
    assert_eq!(req.owner_type.as_deref(), Some("PRODUCT"));
    assert_eq!(req.first, 10);
    assert_eq!(req.after, None);
    let listing = continue_metafield_listing(listing, metafield_page(vec![plain_node("gid://1", "a"), plain_node("gid://2", "b")], Some("c1")), owner, &m).unwrap();
    assert!(!listing.done);
    let req = metafield_listing_request(&listing, owner);
    assert_eq!(req.after.as_deref(), Some("c1"));
    let listing = continue_metafield_listing(listing, metafield_page(vec![plain_node("gid://3", "c")], None), owner, &m).unwrap();
    assert!(listing.done);
    let keys: Vec<&str> = listing.defs.iter().map(|d| d.key.as_str()).collect();
    assert_eq!(keys, vec!["a", "b", "c"]);
    assert_eq!(listing.defs[2].id.as_deref(), Some("gid://3"));
    let failing = GraphQlResponse::<MetafieldDefsData> { data: None, errors: None };
    match continue_metafield_listing(listing, failing, owner, &m) {
        Err(e) => assert_eq!(e.to_string(), "gateway error: missing data in metafieldDefinitions response"),
        Ok(_) => panic!("a page without data must end the listing"),
    }
}

#[test]
fn page_requests_use_the_listing_page_sizes() {
    let after = Some("cur".to_string());
    let r = metafield_definitions_request(mds::domain::OwnerType::Shop, &after);
    assert_eq!((r.owner_type.as_deref(), r.first, r.after.as_deref()), (Some("SHOP"), 10, Some("cur")));
    let r = metaobject_definitions_request(&None);
    assert_eq!((r.owner_type, r.first, r.after), (None, 50, None));
}

fn id_type_page(pairs: &[(&str, &str)], next: Option<&str>) -> GraphQlResponse<MetaobjectDefsData> {
    GraphQlResponse {
        data: Some(MetaobjectDefsData { metaobject_definitions: MetaobjectDefsConnection {
            edges: pairs.iter().map(|(id, t)| MetaobjectDefEdge { node: MetaobjectDefNode { id: id.to_string(), typ: t.to_string() } }).collect(),
            page_info: PageInfo { has_next_page: next.is_some(), end_cursor: next.map(|c| c.to_string()) },
        } }),
        errors: None,
    }
}

#[test]
fn id_type_listing_maps_every_page() {
    let listing = start_id_type_listing();
    assert!(!listing.done && listing.after.is_none());
    let listing = continue_id_type_listing(listing, id_type_page(&[("gid://1", "a"), ("gid://2", "b")], Some("c1"))).unwrap();
    assert_eq!(listing.after.as_deref(), Some("c1"));
    assert!(!listing.done);
    let listing = continue_id_type_listing(listing, id_type_page(&[("gid://3", "c"), ("gid://1", "z")], None)).unwrap();
    assert!(listing.done);
    assert_eq!(listing.map.len(), 3);
    assert_eq!(listing.map.get("gid://1").map(|s| s.as_str()), Some("z"));
    assert_eq!(listing.map.get("gid://3").map(|s| s.as_str()), Some("c"));
    let failing = GraphQlResponse::<MetaobjectDefsData> { data: None, errors: Some("E".to_string()) };
    match continue_id_type_listing(listing, failing) {
        Err(e) => assert_eq!(e.to_string(), "gateway error: GraphQL errors when querying metaobjectDefinitions: E"),
        Ok(_) => panic!("a page with errors must end the listing"),
    }
}

#[test]
fn metaobject_listing_collects_every_page_in_order() {
    fn page(types: &[&str], next: Option<&str>) -> GraphQlResponse<MetaobjectDefsDataForExport> {
        GraphQlResponse {
            data: Some(MetaobjectDefsDataForExport { metaobject_definitions: MetaobjectDefsConnectionForExport {
                edges: types.iter().map(|t| MetaobjectDefEdgeForExport { node: MetaobjectDefNodeForExport {
                    id: format!("gid://{t}"), typ: t.to_string(), name: t.to_uppercase(), field_definitions: vec![],
                    description: None, display_name_key: None, access: None, capabilities: None } }).collect(),
                page_info: PageInfo { has_next_page: next.is_some(), end_cursor: next.map(|c| c.to_string()) },
            } }),
            errors: None,
        }
    }
    let listing = start_metaobject_listing();
    let listing = continue_metaobject_listing(listing, page(&["a", "b"], Some("c1"))).unwrap();
    assert_eq!((listing.after.as_deref(), listing.done), (Some("c1"), false));
    let listing = continue_metaobject_listing(listing, page(&["c"], None)).unwrap();
    assert!(listing.done);
    let types: Vec<&str> = listing.defs.iter().map(|d| d.typ.as_str()).collect();
    assert_eq!(types, vec!["a", "b", "c"]);
    assert_eq!(listing.defs[1].id.as_deref(), Some("gid://b"));
}

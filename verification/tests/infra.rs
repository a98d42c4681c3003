use std::path::PathBuf;

use mds::infra::env_service::DotenvEnvironmentService;
use mds::infra::dto::MetafieldValidationNode;
use mds::infra::shopify::convert_validations_id_to_type;
use mds::maps::StringMap;

#[test]
fn detects_env_files_from_names() {
    let svc = DotenvEnvironmentService::new(PathBuf::from("/project/root"));
    let envs = svc.detect_from_filenames(&vec![".env".to_string(), ".env.my-dev".to_string(), "README.md".to_string()]);
    assert_eq!(envs.len(), 2);
    assert_eq!(envs[0].name, "default");
    assert_eq!(envs[1].name, "my-dev");
}

#[test]
fn converts_metaobject_definition_id_to_type_when_mapping_exists() {
    let mut map = StringMap::new();
    map.insert("gid://shopify/MetaobjectDefinition/123".to_string(), "content_blocks".to_string());

    let input = vec![
        MetafieldValidationNode {
            name: "metaobject_definition_id".to_string(),
            value: Some("gid://shopify/MetaobjectDefinition/123".to_string()),
        },
        MetafieldValidationNode { name: "other".to_string(), value: Some("x".to_string()) },
    ];

    let out = convert_validations_id_to_type(input, &map);
    assert_eq!(out[0].name, "metaobject_definition_type");
    assert_eq!(out[0].value.as_deref(), Some("content_blocks"));
    assert_eq!(out[1].name, "other");
}

#[test]
fn environment_files_lie_in_the_root_directory() {
    let svc = DotenvEnvironmentService::new(PathBuf::from("/project/root"));
    let envs = svc.detect_from_filenames(&vec![".env.my-dev".to_string(), ".env".to_string()]);
    assert_eq!(envs[0].file_path, PathBuf::from("/project/root/.env"));
    assert_eq!(envs[0].display_name, "Default");
    assert_eq!(envs[1].file_path, PathBuf::from("/project/root/.env.my-dev"));
    assert_eq!(envs[1].display_name, "My-dev");
    assert_eq!(svc.root(), &PathBuf::from("/project/root"));
}

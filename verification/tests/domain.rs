use mds::domain::{parse_owner_types, OwnerType};

#[test]
fn owner_type_as_str_matches_shopify_values() {
    assert_eq!(OwnerType::Product.as_str(), "PRODUCT");
    assert_eq!(OwnerType::ProductVariant.as_str(), "PRODUCTVARIANT");
}

#[test]
fn owner_type_parses_case_insensitive() {
    assert_eq!("product".parse::<OwnerType>().unwrap(), OwnerType::Product);
}

#[test]
fn parse_owner_types_all() {
    let all = parse_owner_types("ALL").unwrap();
    assert_eq!(all, OwnerType::all());
}

#[test]
fn parse_owner_types_comma_separated() {
    let types = parse_owner_types("PRODUCT, COLLECTION").unwrap();
    assert_eq!(types, vec![OwnerType::Product, OwnerType::Collection]);
}

#[test]
fn parse_owner_types_reports_invalid() {
    let err = parse_owner_types("PRODUCT,NOPE,COLLECTION").unwrap_err();
    assert_eq!(err.invalid, vec!["NOPE".to_string()]);
}

#[test]
fn parse_owner_types_all_ignores_case_and_spaces() {
    assert_eq!(parse_owner_types("  all ").unwrap(), OwnerType::all());
}

#[test]
fn parse_owner_types_drops_blank_parts() {
    assert_eq!(parse_owner_types(" ,order,, page ,").unwrap(), vec![OwnerType::Order, OwnerType::Page]);
    assert_eq!(parse_owner_types("").unwrap(), Vec::<OwnerType>::new());
}

#[test]
fn parse_owner_types_reports_every_invalid_part_trimmed() {
    let err = parse_owner_types("x, product ,y").unwrap_err();
    assert_eq!(err.invalid, vec!["x".to_string(), "y".to_string()]);
    assert_eq!(err.to_string(), "invalid owner types: x, y");
}

#[test]
fn owner_type_names_read_back() {
    for o in OwnerType::all() {
        assert_eq!(o.as_str().parse::<OwnerType>().unwrap(), o);
    }
    assert!("nope".parse::<OwnerType>().is_err());
    assert_eq!(mds::domain::ParseOwnerTypeError.to_string(), "invalid owner type");
}

use stead::lifecycle::ContractStatus;
use stead::requests::{
    parse_contract_status, parse_fragments, parse_resource_key, parse_u16, resource_key_to_string,
    status_to_str,
};
use stead::resources::ResourceKey;

#[test]
fn status_names_and_aliases_are_read_case_insensitively() {
    assert_eq!(parse_contract_status("pending"), Ok(ContractStatus::Pending));
    assert_eq!(parse_contract_status("PENDING"), Ok(ContractStatus::Pending));
    assert_eq!(parse_contract_status("Rolling_Back"), Ok(ContractStatus::RollingBack));
    assert_eq!(parse_contract_status("rolledback"), Ok(ContractStatus::RolledBack));
    assert_eq!(parse_contract_status("canceled"), Ok(ContractStatus::Cancelled));
    let err = parse_contract_status("bogus").unwrap_err();
    assert_eq!(err.message, "unknown status: bogus");
    assert_eq!(status_to_str(ContractStatus::RolledBack), "rolled_back");
}

#[test]
fn resource_keys_round_trip_through_text() {
    assert_eq!(parse_resource_key("port:3000"), Ok(ResourceKey::Port(3000)));
    assert_eq!(parse_resource_key("port:+7"), Ok(ResourceKey::Port(7)));
    assert_eq!(resource_key_to_string(&ResourceKey::Port(3000)), "port:3000");
    assert_eq!(resource_key_to_string(&ResourceKey::Port(0)), "port:0");
    assert!(parse_resource_key("3000").is_err());
    assert!(parse_resource_key("disk:3000").is_err());
    assert!(parse_resource_key("port:65536").is_err());
    assert!(parse_resource_key("port:").is_err());
    assert!(parse_resource_key("port:12a").is_err());
}

#[test]
fn u16_text_follows_the_standard_reading() {
    for text in ["0", "65535", "+1", "007", "65536", "", "+", "-1", "1 ", "99999999"] {
        assert_eq!(parse_u16(text), text.parse::<u16>().ok(), "reading {text:?}");
    }
}

#[test]
fn fragments_split_on_the_first_two_bars() {
    let raw = vec!["a|first|docs/a.md".to_string(), "b|x|y|z".to_string()];
    let fragments = parse_fragments(&raw).unwrap();
    assert_eq!(fragments.len(), 2);
    assert_eq!(fragments[0].source_id, "a");
    assert_eq!(fragments[0].content, "first");
    assert_eq!(fragments[0].citation, "docs/a.md");
    assert_eq!(fragments[1].citation, "y|z");
    let err = parse_fragments(&["only|two".to_string()]).unwrap_err();
    assert_eq!(err.message, "invalid fragment: only|two");
}

use telemetry_relay::config::{get_invalid_env_list, is_supposed_to_be_number, parse_u16};

#[test]
fn number_envs_recognized() {
    assert!(is_supposed_to_be_number("DATABASE_MIN_TIME_AFTER_UPDATE"));
    assert!(is_supposed_to_be_number("NETWORK_TABLE_PORT"));
    assert!(is_supposed_to_be_number("TIME_BETWEEN_RECONNECT_ATTEMPTS"));
    assert!(is_supposed_to_be_number("SERVER_PORT"));
    assert!(!is_supposed_to_be_number("DATABASE_PATH"));
    assert!(!is_supposed_to_be_number("NETWORK_TABLE_IP"));
    assert!(!is_supposed_to_be_number(""));
}

#[test]
fn parse_u16_accepts_plain_numerals() {
    assert_eq!(parse_u16("0"), Some(0));
    assert_eq!(parse_u16("123"), Some(123));
    assert_eq!(parse_u16("65535"), Some(65535));
    assert_eq!(parse_u16("+5810"), Some(5810));
    assert_eq!(parse_u16("0000065535"), Some(65535));
}

#[test]
fn parse_u16_rejects_garbage_and_overflow() {
    assert_eq!(parse_u16(""), None);
    assert_eq!(parse_u16("+"), None);
    assert_eq!(parse_u16("65536"), None);
    assert_eq!(parse_u16("99999999999999999999"), None);
    assert_eq!(parse_u16("12a"), None);
    assert_eq!(parse_u16("-1"), None);
    assert_eq!(parse_u16(" 12"), None);
}

#[test]
fn all_envs_present_and_numeric_is_valid() {
    let values: Vec<Option<String>> = vec![
        Some("/tmp/data.db".to_string()),
        Some("2".to_string()),
        Some("8000".to_string()),
        Some("10.0.0.2".to_string()),
        Some("5810".to_string()),
        Some("1000".to_string()),
    ];
    let invalid = get_invalid_env_list(&values);
    assert!(invalid.is_empty());
}

#[test]
fn missing_and_non_numeric_envs_reported_in_order() {
    let values: Vec<Option<String>> = vec![
        None,
        Some("not-a-number".to_string()),
        Some("8000".to_string()),
        Some("10.0.0.2".to_string()),
        None,
        Some("80000".to_string()),
    ];
    let invalid = get_invalid_env_list(&values);
    assert_eq!(
        invalid,
        vec![
            "DATABASE_PATH".to_string(),
            "DATABASE_MIN_TIME_AFTER_UPDATE".to_string(),
            "NETWORK_TABLE_PORT".to_string(),
            "TIME_BETWEEN_RECONNECT_ATTEMPTS".to_string(),
        ]
    );
}

#[test]
fn non_numeric_path_env_is_still_valid() {
    // Only the numeric options must parse; a path or an address may hold
    // anything as long as it is present.
    let values: Vec<Option<String>> = vec![
        Some("anything at all".to_string()),
        Some("0".to_string()),
        Some("1".to_string()),
        Some("also anything".to_string()),
        Some("2".to_string()),
        Some("3".to_string()),
    ];
    let invalid = get_invalid_env_list(&values);
    assert!(invalid.is_empty());
}

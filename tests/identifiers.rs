use viewer_core::uuid::{UUID, INVALID_SUFFIX};

#[test]
fn validate_accepts_lower_and_upper_case() {
    assert!(UUID::validate("76e9cd8e-ad8f-4753-9ef6-cbc60f7247fe").is_ok());
    assert!(UUID::validate("D5D8BDF0-DB25-4952-B951-B643AF207ACE").is_ok());
    assert!(UUID::validate("267ca032-672f-4cb0-afa9-d24e904f39d6").is_ok());
}

#[test]
fn validate_rejects_wrong_length() {
    assert!(UUID::validate("").is_err());
    assert!(UUID::validate("76e9cd8e-ad8f-4753-9ef6-cbc60f7247f").is_err());
    assert!(UUID::validate("76e9cd8e-ad8f-4753-9ef6-cbc60f7247fe0").is_err());
    assert!(UUID::validate("fragments-manager").is_err());
}

#[test]
fn validate_rejects_misplaced_hyphen() {
    assert!(UUID::validate("76e9cd8ea-d8f-4753-9ef6-cbc60f7247fe").is_err());
}

#[test]
fn validate_rejects_non_hex_digit() {
    assert!(UUID::validate("76e9cd8g-ad8f-4753-9ef6-cbc60f7247fe").is_err());
}

#[test]
fn validate_rejects_wrong_version() {
    assert!(UUID::validate("76e9cd8e-ad8f-3753-9ef6-cbc60f7247fe").is_err());
}

#[test]
fn validate_rejects_wrong_variant() {
    assert!(UUID::validate("76e9cd8e-ad8f-4753-cef6-cbc60f7247fe").is_err());
    assert!(UUID::validate("76e9cd8e-ad8f-4753-7ef6-cbc60f7247fe").is_err());
}

#[test]
fn validate_rejects_multibyte_text_of_ascii_length() {
    // 35 characters, 36 bytes.
    assert!(UUID::validate("76e9cd8e-ad8f-4753-9ef6-cbc60f7247é").is_err());
}

#[test]
fn validate_error_message_names_the_text() {
    let err = UUID::validate("not-a-uuid").err().unwrap();
    assert_eq!(err.message, format!("not-a-uuid{}", INVALID_SUFFIX));
    assert!(err.message.starts_with("not-a-uuid is not a valid UUID v4."));
}

#[test]
fn create_from_nanos_gives_exact_text() {
    assert_eq!(UUID::create_from_nanos(1), "41412925-6501-410d-bf2e-e489e6a3e47b");
    assert_eq!(
        UUID::create_from_nanos(1700000000123456789),
        "cf48ecd9-8c77-4fb1-b000-5698ad521c9e"
    );
}

#[test]
fn create_from_nanos_with_zero_seed_keeps_version_and_variant() {
    let nanos: u128 = (5u128 << 64) | 5;
    assert_eq!(UUID::create_from_nanos(nanos), "00000000-0000-4000-8000-000000000000");
}

#[test]
fn created_identifiers_are_valid() {
    for _ in 0..8 {
        let id = UUID::create();
        assert_eq!(id.len(), 36);
        assert!(UUID::validate(&id).is_ok());
        assert!(id.chars().all(|c| c == '-' || c.is_ascii_digit() || ('a'..='f').contains(&c)));
        assert!(['8', '9', 'a', 'b'].contains(&id.chars().nth(19).unwrap()));
    }
}

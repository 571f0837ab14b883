use txxxt::replies::{activation_outcome, json_string_field, license_error, newer_release, Activation};

#[test]
fn field_value_is_first_quoted_text_after_key() {
    let body = r#"{"tag_name":"v1.2.3","name":"x"}"#;
    assert_eq!(json_string_field(body, "\"tag_name\""), Some("v1.2.3".to_string()));
    assert_eq!(json_string_field(r#"{"tag_name": "v0.4.0"}"#, "\"tag_name\""), Some("v0.4.0".to_string()));
    assert_eq!(json_string_field(body, "\"missing\""), None);
}

#[test]
fn field_without_quotes_after_key_is_absent() {
    assert_eq!(json_string_field(r#"{"tag_name": 5}"#, "\"tag_name\""), None);
    // the search stops at the key's next occurrence
    assert_eq!(json_string_field(r#""error" 1 "error" "x""#, "\"error\""), None);
    // a single quote runs to the end
    assert_eq!(json_string_field(r#""error": "abc"#, "\"error\""), Some("abc".to_string()));
}

#[test]
fn newer_release_compares_without_leading_v() {
    let body = r#"{"tag_name":"v0.3.0"}"#;
    assert_eq!(newer_release(body, "0.3.0"), None);
    assert_eq!(newer_release(body, "0.2.9"), Some("0.3.0".to_string()));
    assert_eq!(newer_release(r#"{"tag_name":"vv1"}"#, "0.1.0"), Some("1".to_string()));
    assert_eq!(newer_release("{}", "0.1.0"), None);
}

#[test]
fn license_error_names_reply_error_or_default() {
    assert_eq!(
        license_error(r#"{"valid":false,"error":"license_key not found"}"#),
        "license_key not found"
    );
    assert_eq!(license_error("{}"), "invalid license key");
}

#[test]
fn activation_outcomes() {
    assert!(matches!(activation_outcome(""), Activation::Unreachable));
    assert!(matches!(activation_outcome(r#"{"valid":true}"#), Activation::Accepted));
    assert!(matches!(activation_outcome(r#"{"valid": true}"#), Activation::Accepted));
    match activation_outcome(r#"{"valid":false,"error":"license_key not found"}"#) {
        Activation::Refused(m) => assert_eq!(m, "license_key not found"),
        _ => panic!("expected a refusal"),
    }
    match activation_outcome("{}") {
        Activation::Refused(m) => assert_eq!(m, "invalid license key"),
        _ => panic!("expected a refusal"),
    }
}

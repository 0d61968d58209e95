use cadenza::json::scrub_fields;
use cadenza::scrubber::Scrubber;
use cadenza::wasm_host::HostError;
use cadenza::obs::{
    FIELD_COMPONENT, FIELD_DURATION_MS, FIELD_ERROR, FIELD_GRAPHQL_MODE, FIELD_ISSUE_ID,
    FIELD_OPERATION_NAME, FIELD_PLUGIN_NAME, FIELD_QUERY_FINGERPRINT,
};

#[test]
fn obs_field_constants_match_tracing_idents() {
    assert_eq!(FIELD_ISSUE_ID, "issue_id");
    assert_eq!(FIELD_PLUGIN_NAME, "plugin_name");
    assert_eq!(FIELD_COMPONENT, "component");
}

#[test]
fn linear_audit_field_constants_match() {
    assert_eq!(FIELD_OPERATION_NAME, "operation_name");
    assert_eq!(FIELD_QUERY_FINGERPRINT, "query_fingerprint");
    assert_eq!(FIELD_DURATION_MS, "duration_ms");
    assert_eq!(FIELD_GRAPHQL_MODE, "graphql_mode");
    assert_eq!(FIELD_ERROR, "error");
}

#[test]
fn scrub_fields_redacts_secret_shaped_keys_and_values() {
    let scrubber = Scrubber::with_secrets(vec!["lr_tok_secret".to_string()]);
    let out = scrub_fields(
        &scrubber,
        r#"{"LINEAR_API_KEY":"abc","note":"uses lr_tok_secret","count":3}"#,
    )
    .unwrap();
    let parsed: serde_json::Value = serde_json::from_str(&out).unwrap();
    assert_eq!(parsed["LINEAR_API_KEY"], "[REDACTED]");
    assert!(!out.contains("lr_tok_secret"), "registered value leaked: {out}");
    assert_eq!(parsed["count"], 3);
}

#[test]
fn scrub_fields_redacts_secret_key_with_non_string_value() {
    let scrubber = Scrubber::empty();
    let out = scrub_fields(&scrubber, r#"{"api_key":12345,"ok":true}"#).unwrap();
    let parsed: serde_json::Value = serde_json::from_str(&out).unwrap();
    assert_eq!(parsed["api_key"], "[REDACTED]");
    assert_eq!(parsed["ok"], true);
}

#[test]
fn scrub_fields_rejects_non_json() {
    let scrubber = Scrubber::empty();
    assert!(matches!(scrub_fields(&scrubber, "not json"), Err(HostError::InvalidArgument(_))));
}

#[test]
fn scrub_fields_error_names_the_parser_failure() {
    let scrubber = Scrubber::empty();
    match scrub_fields(&scrubber, "{") {
        Err(HostError::InvalidArgument(m)) => {
            assert!(m.starts_with("fields-json is not valid JSON: "), "{m}")
        }
        other => panic!("got {other:?}"),
    }
}

#[test]
fn scrub_fields_keeps_numbers_nulls_and_nesting() {
    let scrubber = Scrubber::empty();
    let out = scrub_fields(&scrubber, r#"{"a":[1,2.5,null,{"b":"x"}]}"#).unwrap();
    assert_eq!(out, r#"{"a":[1,2.5,null,{"b":"x"}]}"#);
}

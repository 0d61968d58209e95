use cadenza::obs::redact_value;


#[test]
fn redacts_secret_like_keys() {
    assert_eq!(redact_value("LINEAR_API_KEY", "abc"), "[REDACTED]");
    assert_eq!(redact_value("AUTHORIZATION", "bearer x"), "[REDACTED]");
    assert_eq!(redact_value("github_token", "ghp_xyz"), "[REDACTED]");
    assert_eq!(redact_value("title", "abc"), "abc");
}

use cadenza::contracts::{assigned_value, missing_mvp_critical_keys, pending_mvp_critical_keys};


const ALL_PINNED: &str = r#"
symphony_spec_sha = "deadbeef"
cli_version = "rust-v0.133.0"
toolchain_version = "1.95.0"
wasmtime_version = "45.0.0"
wasm_tools_version = "1.250.0"
wit_bindgen_version = "0.57.1"
"#;

#[test]
fn exactly_n_keys_filled_yields_no_offenders_and_no_missing() {
    assert!(pending_mvp_critical_keys(ALL_PINNED).is_empty());
    assert!(missing_mvp_critical_keys(ALL_PINNED).is_empty());
}

#[test]
fn n_plus_one_with_extra_unrelated_key_still_passes() {
    let body = format!("{ALL_PINNED}\nunrelated_key = \"TODO-something\"\n");
    assert!(pending_mvp_critical_keys(&body).is_empty());
    assert!(missing_mvp_critical_keys(&body).is_empty());
}

#[test]
fn upper_edge_single_todo_returns_single_offender() {
    let body = ALL_PINNED.replace(
        r#"symphony_spec_sha = "deadbeef""#,
        r#"symphony_spec_sha = "TODO-pin""#,
    );
    let offenders = pending_mvp_critical_keys(&body);
    assert_eq!(offenders.len(), 1, "got: {offenders:?}");
    assert!(offenders[0].starts_with("symphony_spec_sha"));
}

#[test]
fn lower_edge_single_missing_key_is_reported() {
    let body = ALL_PINNED.replace("wit_bindgen_version", "wit_bindgen_renamed");
    let missing = missing_mvp_critical_keys(&body);
    assert_eq!(missing, vec!["wit_bindgen_version"]);
}

#[test]
fn todo_marker_in_comment_lines_is_ignored_when_key_not_at_line_start() {
    let body = format!("# TODO revisit later\n{ALL_PINNED}");
    assert!(pending_mvp_critical_keys(&body).is_empty());
}

#[test]
fn suffixed_prefix_key_does_not_satisfy_presence() {
    let body = ALL_PINNED.replace(
        r#"wasmtime_version = "45.0.0""#,
        r#"wasmtime_version_backup = "45.0.0""#,
    );
    let missing = missing_mvp_critical_keys(&body);
    assert_eq!(missing, vec!["wasmtime_version"]);
}

#[test]
fn suffixed_prefix_key_with_todo_is_not_an_offender() {
    let body = ALL_PINNED.replace(
        r#"wasmtime_version = "45.0.0""#,
        r#"wasmtime_version_backup = "TODO-foo"
wasmtime_version = "45.0.0""#,
    );
    assert!(
        pending_mvp_critical_keys(&body).is_empty(),
        "{:?}",
        pending_mvp_critical_keys(&body),
    );
}

#[test]
fn inline_comment_todo_after_pinned_value_is_not_an_offender() {
    let body = ALL_PINNED.replace(
        r#"toolchain_version = "1.95.0""#,
        r#"toolchain_version = "1.95.0" # TODO revisit after 1.96 lands"#,
    );
    assert!(
        pending_mvp_critical_keys(&body).is_empty(),
        "{:?}",
        pending_mvp_critical_keys(&body),
    );
}

#[test]
fn todo_inside_quoted_value_is_still_an_offender() {
    let body = ALL_PINNED.replace(
        r#"toolchain_version = "1.95.0""#,
        r#"toolchain_version = "TODO-#42 pin once upstream cuts""#,
    );
    let offenders = pending_mvp_critical_keys(&body);
    assert_eq!(offenders.len(), 1, "got: {offenders:?}");
    assert!(offenders[0].starts_with("toolchain_version"));
}

#[test]
fn todo_inside_literal_single_quoted_value_is_still_an_offender() {
    let body = ALL_PINNED.replace(
        r#"toolchain_version = "1.95.0""#,
        "toolchain_version = 'TODO-#123 pin once upstream cuts'",
    );
    let offenders = pending_mvp_critical_keys(&body);
    assert_eq!(offenders.len(), 1, "got: {offenders:?}");
    assert!(offenders[0].starts_with("toolchain_version"));
}

#[test]
fn literal_string_value_followed_by_todo_comment_is_not_an_offender() {
    let body = ALL_PINNED.replace(
        r#"toolchain_version = "1.95.0""#,
        "toolchain_version = '1.95.0' # TODO revisit when 1.96 lands",
    );
    assert!(
        pending_mvp_critical_keys(&body).is_empty(),
        "{:?}",
        pending_mvp_critical_keys(&body),
    );
}

#[test]
fn assignment_without_space_around_equals_is_still_recognised() {
    let body = ALL_PINNED.replace(
        r#"wit_bindgen_version = "0.57.1""#,
        r#"wit_bindgen_version="0.57.1""#,
    );
    assert!(missing_mvp_critical_keys(&body).is_empty());
}

#[test]
fn assigned_value_strips_quotes_and_comments() {
    assert_eq!(
        assigned_value("channel = \"1.95.0\"\n", "channel").as_deref(),
        Some("1.95.0")
    );
    assert_eq!(
        assigned_value("channel = \"1.95.0\" # note\n", "channel").as_deref(),
        Some("1.95.0")
    );
    assert_eq!(assigned_value("other = \"x\"\n", "channel").as_deref(), None);
}

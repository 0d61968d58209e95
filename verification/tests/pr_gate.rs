use cadenza::pr_gate::{
    changed_files_of_diff, changed_version_keys, diff_names_versions, evaluate, pr_body_of_event,
    ChangedFile,
};

#[test]
fn clean_pr_with_one_closes_passes() {
    let changed = [cf("README.md")];
    let r = evaluate(&changed, "Closes #12\n\nSome summary.");
    assert!(r.passed(), "{:?}", r.violations);
}

#[test]
fn missing_closes_fails() {
    let r = evaluate(&[cf("README.md")], "no issue link here");
    assert!(!r.passed());
    assert!(r.violations.iter().any(|m| m.contains("Closes")));
}

#[test]
fn two_closes_fails() {
    let r = evaluate(&[cf("README.md")], "Closes #1 and also Closes #2");
    assert!(!r.passed());
    assert!(r.violations.iter().any(|m| m.contains("exactly one")));
}

#[test]
fn encloses_is_not_a_closing_reference() {
    let r = evaluate(&[cf("README.md")], "Encloses #1 in the box\nCloses #5");
    assert!(r.passed(), "{:?}", r.violations);
}

#[test]
fn wit_change_without_box_fails() {
    let r = evaluate(&[cf("wit/runtime.wit")], "Closes #1");
    assert!(
        r.violations
            .iter()
            .any(|m| m.contains("WIT ABI") && m.contains("unchecked"))
    );
}

#[test]
fn wit_change_with_box_and_adr_passes_box_rule() {
    let changed = [cf("wit/runtime.wit"), cf("decisions/0011-foo.md")];
    let body = "Closes #1\n- [x] WIT ABI (`wit/runtime.wit`, `abi/expected/*.wit`)";
    let r = evaluate(&changed, body);
    assert!(
        !r.violations.iter().any(|m| m.contains("unchecked")),
        "{:?}",
        r.violations
    );
}

#[test]
fn versions_comment_only_change_not_gated() {
    let changed = [ChangedFile {
        path: "tools/versions.toml".into(),
        changed_version_keys: vec![],
    }];
    let r = evaluate(&changed, "Closes #1");
    assert!(
        !r.violations.iter().any(|m| m.contains("Pinned")),
        "{:?}",
        r.violations
    );
}

#[test]
fn versions_cli_version_change_requires_codex_box() {
    let changed = [ChangedFile {
        path: "tools/versions.toml".into(),
        changed_version_keys: vec!["cli_version".into()],
    }];
    let r = evaluate(&changed, "Closes #1");
    assert!(
        r.violations
            .iter()
            .any(|m| m.contains("Codex") && m.contains("unchecked"))
    );
}

#[test]
fn nested_wit_path_still_classified() {
    let r = evaluate(&[cf("wit/deep/sub.wit")], "Closes #1");
    assert!(r.violations.iter().any(|m| m.contains("WIT ABI")));
}

#[test]
fn hard_path_without_adr_fails() {
    let body = "Closes #1\n- [x] WIT ABI";
    let r = evaluate(&[cf("wit/runtime.wit")], body);
    assert!(
        r.violations.iter().any(|m| m.contains("ADR")),
        "{:?}",
        r.violations
    );
}

#[test]
fn hard_path_with_box_and_adr_passes() {
    let changed = [cf("wit/runtime.wit"), cf("decisions/0011-x.md")];
    let body = "Closes #1\n- [x] WIT ABI";
    let r = evaluate(&changed, body);
    assert!(r.passed(), "{:?}", r.violations);
}

#[test]
fn accepted_deviation_via_ledger_and_adr_passes() {
    let changed = [
        cf("crates/cadenza-orchestrator/src/lib.rs"),
        cf("DEVIATIONS.md"),
        cf("decisions/0011-x.md"),
    ];
    let r = evaluate(&changed, "Closes #1");
    assert!(r.passed(), "{:?}", r.violations);
}

#[test]
fn soft_path_without_declaration_fails() {
    let r = evaluate(
        &[cf("crates/cadenza-orchestrator/src/state.rs")],
        "Closes #1",
    );
    assert!(
        r.violations
            .iter()
            .any(|m| m.contains("orchestrator") && m.contains("declare")),
        "{:?}",
        r.violations
    );
}

#[test]
fn soft_path_with_no_semantics_declaration_passes() {
    let body = "Closes #1\n\nno orchestrator semantics change";
    let r = evaluate(&[cf("crates/cadenza-orchestrator/src/state.rs")], body);
    assert!(r.passed(), "{:?}", r.violations);
}

#[test]
fn soft_secret_path_without_declaration_fails() {
    let r = evaluate(
        &[cf("crates/cadenza-host-linear-http/src/lib.rs")],
        "Closes #1",
    );
    assert!(
        r.violations
            .iter()
            .any(|m| m.contains("secret") && m.contains("declare")),
        "{:?}",
        r.violations
    );
}

#[test]
fn soft_secret_path_with_no_semantics_declaration_passes() {
    let body = "Closes #1\n\nno secret semantics change";
    let r = evaluate(&[cf("crates/cadenza-host-linear-http/src/lib.rs")], body);
    assert!(r.passed(), "{:?}", r.violations);
}

#[test]
fn soft_path_with_box_checked_passes_without_adr() {
    let body = "Closes #1\n- [x] Workspace path safety / containment rules";
    let r = evaluate(&[cf("crates/cadenza-workspace/src/lib.rs")], body);
    assert!(r.passed(), "{:?}", r.violations);
}

const TEMPLATE_EMPTY_BODY: &str = "\
## Linked issue
Closes #
## Contract impact
- [ ] Codex app-server schema or `codex.cli_version`
- [ ] WIT ABI (`wit/runtime.wit`, `abi/expected/*.wit`)
- [ ] Pinned dependency versions in `tools/versions.toml`
";

#[test]
fn empty_template_body_does_not_satisfy_gate() {
    let r = evaluate(&[cf("wit/runtime.wit")], TEMPLATE_EMPTY_BODY);
    assert!(!r.passed());
    assert!(r.violations.iter().any(|m| m.contains("Closes")));
}

#[test]
fn git_mv_into_wit_is_classified() {
    let r = evaluate(&[cf("wit/moved.wit")], "Closes #1");
    assert!(r.violations.iter().any(|m| m.contains("WIT ABI")));
}

#[test]
fn placeholder_closes_without_digit_is_zero() {
    let r = evaluate(&[cf("README.md")], "Closes #\nsummary");
    assert!(r.violations.iter().any(|m| m.contains("found 0")));
}

#[test]
fn changed_version_keys_detects_value_change_only() {
    let base = "cli_version = \"rust-v0.133.0\"\ntoolchain_version = \"1.95.0\"\n";
    let head = "cli_version = \"rust-v0.134.0\"\ntoolchain_version = \"1.95.0\"\n";
    let keys = changed_version_keys(base, head);
    assert_eq!(keys, vec!["cli_version".to_string()]);
}

#[test]
fn changed_version_keys_ignores_comment_only_edit() {
    let base = "cli_version = \"rust-v0.133.0\"\n";
    let head = "cli_version = \"rust-v0.133.0\" # bump soon\n";
    assert!(changed_version_keys(base, head).is_empty());
}

fn cf(path: &str) -> ChangedFile {
    ChangedFile {
        path: path.to_string(),
        changed_version_keys: Vec::new(),
    }
}

#[test]
fn keyword_and_declaration_matching_ignores_case() {
    let r = evaluate(&[cf("README.md")], "CLOSES #7");
    assert!(r.passed(), "{:?}", r.violations);
    let r = evaluate(
        &[cf("crates/cadenza-workspace/src/lib.rs")],
        "Closes #7\n\nNo Workspace Semantics Change here.",
    );
    assert!(r.passed(), "{:?}", r.violations);
    let r = evaluate(&[cf("README.md")], "éCloses #7");
    assert!(!r.passed(), "a letter before the keyword is not a word boundary");
}

#[test]
fn pr_body_is_read_from_the_event_payload() {
    let event = r#"{"action":"opened","pull_request":{"number":7,"body":"Closes #7\nsummary"}}"#;
    assert_eq!(pr_body_of_event(event).unwrap(), "Closes #7\nsummary");
    assert_eq!(pr_body_of_event(r#"{"pull_request":{"body":null}}"#).unwrap(), "");
    assert_eq!(pr_body_of_event(r#"{"push":{}}"#).unwrap(), "");
    assert_eq!(pr_body_of_event(r#"[{"pull_request":{"body":"x"}}]"#).unwrap(), "");
    assert!(pr_body_of_event("{not json").is_err());
}

#[test]
fn changed_files_come_one_per_diff_line() {
    let names = "README.md\r\ntools/versions.toml\nsrc/lib.rs\n";
    let base = "cli_version = \"rust-v0.133.0\"\n";
    let head = "cli_version = \"rust-v0.134.0\"\n";
    assert!(diff_names_versions(names));
    assert!(!diff_names_versions("README.md\ntools/versions.toml.bak\n"));
    let changed = changed_files_of_diff(names, base, head);
    let paths: Vec<&str> = changed.iter().map(|c| c.path.as_str()).collect();
    assert_eq!(paths, vec!["README.md", "tools/versions.toml", "src/lib.rs"]);
    assert!(changed[0].changed_version_keys.is_empty());
    assert_eq!(changed[1].changed_version_keys, vec!["cli_version".to_string()]);
    assert!(changed[2].changed_version_keys.is_empty());
    assert!(changed_files_of_diff("", base, head).is_empty());
}

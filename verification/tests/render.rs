use cadenza::domain::Issue;
use cadenza::workflow::{render_prompt, PromptInput, PromptRenderError};

fn sample_issue() -> Issue {
    Issue {
        id: "issue-123".into(),
        identifier: "CAD-42".into(),
        title: "Wire orchestrator state".into(),
        description: Some("Tracks orchestrator skeleton work.".into()),
        priority: Some(1),
        state: "in progress".into(),
        branch_name: Some("feat/orch".into()),
        url: Some("https://linear.app/cad/issue/CAD-42".into()),
        labels: vec!["priority:P0".into(), "component:orchestrator".into()],
        blocked_by: vec![],
        created_at: Some("2026-05-22T00:00:00Z".into()),
        updated_at: Some("2026-05-22T08:00:00Z".into()),
    }
}

fn input<'a>(issue: &'a Issue, attempt: u32) -> PromptInput<'a> {
    PromptInput { issue, attempt }
}

#[test]
fn renders_issue_and_attempt_into_prompt() {
    let issue = sample_issue();
    let template =
        "Run #{{ attempt }} for {{ issue.identifier }}: {{ issue.title }} ({{ issue.state }})";
    let rendered = render_prompt(template, &input(&issue, 2)).unwrap();
    assert_eq!(rendered, "Run #2 for CAD-42: Wire orchestrator state (in progress)");
}

#[test]
fn undefined_variable_classifies_as_undefined_variable() {
    let issue = sample_issue();
    let err = render_prompt("hello {{ missing }}", &input(&issue, 0)).unwrap_err();
    assert!(matches!(err, PromptRenderError::UndefinedVariable { .. }), "got: {err:?}");
}

#[test]
fn unknown_filter_classifies_as_unknown_item() {
    let issue = sample_issue();
    let err =
        render_prompt("{{ issue.title | nonexistent_filter }}", &input(&issue, 0)).unwrap_err();
    assert!(matches!(err, PromptRenderError::UnknownItem { .. }), "got: {err:?}");
}

#[test]
fn unknown_function_classifies_as_unknown_item() {
    let issue = sample_issue();
    let err = render_prompt("{{ nonexistent_function() }}", &input(&issue, 0)).unwrap_err();
    assert!(matches!(err, PromptRenderError::UnknownItem { .. }), "got: {err:?}");
}

#[test]
fn unknown_test_classifies_as_unknown_item() {
    let issue = sample_issue();
    let err = render_prompt("{% if issue.title is nonexistent_test %}x{% endif %}", &input(&issue, 0))
        .unwrap_err();
    assert!(matches!(err, PromptRenderError::UnknownItem { .. }), "got: {err:?}");
}

#[test]
fn template_syntax_error_classifies_as_compile() {
    let issue = sample_issue();
    let err = render_prompt("{{ unterminated", &input(&issue, 0)).unwrap_err();
    assert!(matches!(err, PromptRenderError::Compile { .. }), "got: {err:?}");
}

#[test]
fn attempt_zero_boundary_renders() {
    let issue = sample_issue();
    let rendered = render_prompt("attempt {{ attempt }}", &input(&issue, 0)).unwrap();
    assert_eq!(rendered, "attempt 0");
}

#[test]
fn attempt_u32_max_boundary_renders() {
    let issue = sample_issue();
    let rendered = render_prompt("attempt {{ attempt }}", &input(&issue, u32::MAX)).unwrap();
    assert_eq!(rendered, format!("attempt {}", u32::MAX));
}

#[test]
fn optional_and_list_fields_reach_the_template() {
    let mut issue = sample_issue();
    issue.description = None;
    let rendered = render_prompt(
        "[{{ issue.description | default(\"\", true) }}] {{ issue.labels | join(\",\") }} p{{ issue.priority }} {{ issue.blocked_by | length }}",
        &input(&issue, 1),
    )
    .unwrap();
    assert_eq!(rendered, "[] priority:P0,component:orchestrator p1 0");
}

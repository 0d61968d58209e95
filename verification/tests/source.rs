use cadenza::source::{ReloadOutcome, WorkflowSource, HISTORY_CAPACITY};
use cadenza::workflow::{
    workflow_definition, CodexConfig, HooksConfig, OrchestratorConfig, PollConfig, PromptConfig,
    TrackerConfig, TrackerKind, WorkflowConfig, WorkflowDefinition, WorkspaceConfig,
};

fn config(token: &str) -> WorkflowConfig {
    WorkflowConfig {
        tracker: TrackerConfig {
            kind: TrackerKind::Linear,
            project_slug_id: None,
            token: token.to_string(),
        },
        poll: PollConfig::default(),
        workspace: WorkspaceConfig { root: "/tmp/cadenza/workspaces".to_string() },
        codex: CodexConfig {
            command: "codex app-server --listen stdio://".to_string(),
            schema_sha256: None,
            turn_timeout_ms: 600_000,
        },
        orchestrator: OrchestratorConfig {
            max_concurrent_agents: 1,
            active_states: vec!["todo".to_string()],
            terminal_states: vec!["done".to_string()],
        },
        hooks: HooksConfig::default(),
        prompt: PromptConfig::default(),
    }
}

fn definition(token: &str) -> WorkflowDefinition {
    workflow_definition(config(token), "prompt body".to_string()).expect("valid workflow")
}

fn attempt(token: &str) -> Result<WorkflowDefinition, String> {
    workflow_definition(config(token), "prompt body".to_string()).map_err(|e| format!("{e:?}"))
}

#[test]
fn load_initial_succeeds_on_valid_file_with_version_one() {
    let src = WorkflowSource::loaded("/w/WORKFLOW.md", definition("secret"), 10);
    assert_eq!(src.version(), 1);
    assert!(matches!(src.last_event().outcome, ReloadOutcome::Loaded { version: 1 }));
}

#[test]
fn reload_with_valid_change_bumps_version_and_swaps() {
    let mut src = WorkflowSource::loaded("/w/WORKFLOW.md", definition("secret"), 10);
    assert_eq!(src.version(), 1);
    assert_eq!(src.current().config.tracker.token, "secret");
    let outcome = src.try_reload(attempt("rotated"), 20);
    assert!(matches!(outcome, ReloadOutcome::Loaded { version: 2 }));
    assert_eq!(src.version(), 2);
    assert_eq!(src.current().config.tracker.token, "rotated");
}

#[test]
fn reload_with_invalid_validation_preserves_last_known_good() {
    let mut src = WorkflowSource::loaded("/w/WORKFLOW.md", definition("secret"), 10);
    let before_version = src.version();
    let outcome = src.try_reload(attempt(""), 20);
    assert!(matches!(outcome, ReloadOutcome::Rejected { .. }), "got {outcome:?}");
    assert_eq!(src.version(), before_version);
    assert_eq!(src.current().config.tracker.token, "secret");
    match src.last_event().outcome {
        ReloadOutcome::Rejected { reason } => assert!(reason.contains("tracker.token")),
        other => panic!("expected Rejected, got {other:?}"),
    }
}

#[test]
fn history_at_capacity_keeps_all_events() {
    let mut src = WorkflowSource::loaded("/w/WORKFLOW.md", definition("secret"), 0);
    for t in 1..HISTORY_CAPACITY {
        src.try_reload(attempt("secret"), t as u64);
    }
    assert_eq!(src.history().len(), HISTORY_CAPACITY);
}

#[test]
fn history_beyond_capacity_drops_oldest() {
    let mut src = WorkflowSource::loaded("/w/WORKFLOW.md", definition("secret"), 0);
    for t in 0..HISTORY_CAPACITY {
        src.try_reload(attempt("secret"), t as u64);
    }
    let history = src.history();
    assert_eq!(history.len(), HISTORY_CAPACITY);
    match &history[0].outcome {
        ReloadOutcome::Loaded { version } => assert!(*version > 1, "got {version}"),
        other => panic!("expected Loaded, got {other:?}"),
    }
}

#[test]
fn history_after_many_reloads_is_the_most_recent_events() {
    let mut src = WorkflowSource::loaded("/w/WORKFLOW.md", definition("secret"), 100);
    for t in 1..=20u64 {
        if t % 2 == 0 {
            src.try_reload(attempt("secret"), 100 + t);
        } else {
            src.try_reload(Err(format!("bad {t}")), 100 + t);
        }
    }
    let history = src.history();
    assert_eq!(history.len(), HISTORY_CAPACITY);
    let stamps: Vec<u64> = history.iter().map(|e| e.at_ms).collect();
    assert_eq!(stamps, (105..=120).collect::<Vec<u64>>());
    assert_eq!(history[HISTORY_CAPACITY - 1], src.last_event());
}

use cadenza::workflow::{
    split_front_matter, validate, CodexConfig, HookCommand, HookPhase, HooksConfig,
    OrchestratorConfig, PollConfig, PromptConfig, PromptRenderError, RenderStage,
    TemplateErrorKind, TrackerConfig, TrackerKind, WorkflowConfig, WorkflowError,
    WorkspaceConfig,
};

fn config() -> WorkflowConfig {
    WorkflowConfig {
        tracker: TrackerConfig { kind: TrackerKind::Linear, project_slug_id: None, token: "secret".into() },
        poll: PollConfig::default(),
        workspace: WorkspaceConfig { root: "/tmp/cadenza/workspaces".into() },
        codex: CodexConfig { command: "codex".into(), schema_sha256: None, turn_timeout_ms: 600_000 },
        orchestrator: OrchestratorConfig {
            max_concurrent_agents: 1,
            active_states: vec!["todo".into()],
            terminal_states: vec!["done".into()],
        },
        hooks: HooksConfig::default(),
        prompt: PromptConfig::default(),
    }
}

fn field_of(r: Result<(), WorkflowError>) -> String {
    match r {
        Err(WorkflowError::Invalid { field, .. }) => field,
        other => panic!("unexpected: {other:?}"),
    }
}

#[test]
fn minimal_config_is_valid() {
    assert!(validate(&config()).is_ok());
}

#[test]
fn rules_are_checked_in_documented_order() {
    let mut c = config();
    c.tracker.token = "  ".into();
    c.workspace.root = "relative".into();
    assert_eq!(field_of(validate(&c)), "tracker.token");
    let mut c = config();
    c.workspace.root = "relative".into();
    assert_eq!(field_of(validate(&c)), "workspace.root");
    let mut c = config();
    c.codex.turn_timeout_ms = 0;
    assert_eq!(field_of(validate(&c)), "codex.turn_timeout_ms");
    let mut c = config();
    c.orchestrator.max_concurrent_agents = 0;
    assert_eq!(field_of(validate(&c)), "orchestrator.max_concurrent_agents");
}

#[test]
fn overlapping_state_names_the_state() {
    let mut c = config();
    c.orchestrator.terminal_states = vec!["done".into(), "todo".into()];
    match validate(&c) {
        Err(WorkflowError::Invalid { field, message }) => {
            assert_eq!(field, "orchestrator");
            assert_eq!(message, "state `todo` cannot be both active and terminal");
        }
        other => panic!("unexpected: {other:?}"),
    }
}

#[test]
fn hook_rules_name_the_phase() {
    let mut c = config();
    c.hooks.before_run = Some(HookCommand { command: "git clean -xdf".into(), timeout_ms: 0 });
    assert_eq!(field_of(validate(&c)), "hooks.before_run.timeout_ms");
    let mut c = config();
    c.hooks.after_create = Some(HookCommand { command: "".into(), timeout_ms: 30_000 });
    assert_eq!(field_of(validate(&c)), "hooks.after_create.command");
    assert_eq!(HookPhase::all().len(), 4);
}

#[test]
fn non_strict_prompt_is_rejected() {
    let mut c = config();
    c.prompt.strict_undefined = false;
    assert_eq!(field_of(validate(&c)), "prompt.strict_undefined");
}

#[test]
fn front_matter_is_split_from_the_prompt() {
    let (front, prompt) = split_front_matter("---\nkey: value\n---\n\nprompt body\n").unwrap();
    assert_eq!(front, "key: value");
    assert_eq!(prompt, "prompt body");
    assert_eq!(split_front_matter("no front matter here").unwrap_err(), WorkflowError::MissingFrontMatter);
    assert_eq!(
        split_front_matter("---\nkey: value\nbody without closing delimiter").unwrap_err(),
        WorkflowError::UnterminatedFrontMatter
    );
}

#[test]
fn template_errors_are_routed_by_kind_and_stage() {
    assert_eq!(
        PromptRenderError::classify(TemplateErrorKind::UndefinedError, RenderStage::Render, "m".into()),
        PromptRenderError::UndefinedVariable { message: "m".into() }
    );
    assert_eq!(
        PromptRenderError::classify(TemplateErrorKind::UnknownFilter, RenderStage::Render, "m".into()),
        PromptRenderError::UnknownItem { message: "m".into() }
    );
    assert_eq!(
        PromptRenderError::classify(TemplateErrorKind::BadEscape, RenderStage::Compile, "m".into()),
        PromptRenderError::Compile { message: "m".into() }
    );
    assert_eq!(
        PromptRenderError::classify(TemplateErrorKind::BadEscape, RenderStage::Render, "m".into()),
        PromptRenderError::Other { message: "m".into() }
    );
    assert_eq!(
        PromptRenderError::classify(TemplateErrorKind::SyntaxError, RenderStage::Render, "m".into()),
        PromptRenderError::Compile { message: "m".into() }
    );
}

#[test]
fn positive_numbers_have_paired_edges() {
    let mut c = config();
    c.codex.turn_timeout_ms = 1;
    c.poll.interval_ms = 1;
    c.orchestrator.max_concurrent_agents = 1;
    c.hooks.after_create = Some(HookCommand { command: "git init".into(), timeout_ms: 1 });
    assert!(validate(&c).is_ok());
    let mut c = config();
    c.poll.interval_ms = 0;
    assert_eq!(field_of(validate(&c)), "poll.interval_ms");
    let mut c = config();
    c.hooks.after_create = Some(HookCommand { command: "git init".into(), timeout_ms: 0 });
    assert_eq!(field_of(validate(&c)), "hooks.after_create.timeout_ms");
}

#[test]
fn state_lists_must_not_be_empty_and_root_must_be_absolute() {
    let mut c = config();
    c.orchestrator.active_states = vec![];
    assert_eq!(field_of(validate(&c)), "orchestrator.active_states");
    let mut c = config();
    c.orchestrator.terminal_states = vec![];
    assert_eq!(field_of(validate(&c)), "orchestrator.terminal_states");
    let mut c = config();
    c.workspace.root = "".into();
    assert_eq!(field_of(validate(&c)), "workspace.root");
    let mut c = config();
    c.codex.command = "".into();
    assert_eq!(field_of(validate(&c)), "codex.command");
}

#[test]
fn defaults_match_the_documented_values() {
    assert_eq!(PollConfig::default_interval_ms(), 5_000);
    assert_eq!(CodexConfig::default_turn_timeout_ms(), 600_000);
    assert_eq!(OrchestratorConfig::default_max_concurrent_agents(), 1);
    assert_eq!(HookCommand::default_timeout_ms(), 30_000);
    assert!(PromptConfig::default_strict_undefined());
}

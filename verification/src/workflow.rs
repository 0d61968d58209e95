//! The repository-owned `WORKFLOW.md` contract: front matter split, the
//! typed configuration, its validation rules, and prompt-error routing.
//!
//! The YAML front matter itself is decoded by the caller; this module owns
//! where it is, what a decoded configuration must satisfy, and in which
//! order the rules are checked.
use vstd::prelude::*;

use crate::domain::{BlockerRef, Issue};
use crate::strmap::string_views;
use crate::text::{
    chars_of, extend_str, find_char_from, occurs_at, occurs_at_exec, slice_vec, starts_with,
    starts_with_exec, string_from, trim, trim_vec,
};

verus! {

#[derive(Debug, Clone, PartialEq)]
pub struct WorkflowDefinition {
    pub config: WorkflowConfig,
    pub prompt_template: String,
}

#[derive(Debug, Clone, PartialEq)]
pub struct WorkflowConfig {
    pub tracker: TrackerConfig,
    pub poll: PollConfig,
    pub workspace: WorkspaceConfig,
    pub codex: CodexConfig,
    pub orchestrator: OrchestratorConfig,
    pub hooks: HooksConfig,
    pub prompt: PromptConfig,
}

#[derive(Debug, Clone, PartialEq)]
pub struct TrackerConfig {
    pub kind: TrackerKind,
    pub project_slug_id: Option<String>,
    pub token: String,
}

#[derive(Debug, Clone, Copy, PartialEq, Eq)]
pub enum TrackerKind {
    Linear,
}

#[derive(Debug, Clone, PartialEq)]
pub struct PollConfig {
    pub interval_ms: u64,
}

impl PollConfig {
    /// Poll interval when the workflow names none.
    pub fn default_interval_ms() -> (ms: u64)
        ensures
            ms == 5_000,
    {
        5_000
    }
}

impl Default for PollConfig {
    fn default() -> (p: PollConfig)
        ensures
            p.interval_ms == 5_000,
    {
        PollConfig { interval_ms: PollConfig::default_interval_ms() }
    }
}

#[derive(Debug, Clone, PartialEq)]
pub struct WorkspaceConfig {
    /// Workspace root directory (a Unix path).
    pub root: String,
}

#[derive(Debug, Clone, PartialEq)]
pub struct CodexConfig {
    pub command: String,
    pub schema_sha256: Option<String>,
    pub turn_timeout_ms: u64,
}

impl CodexConfig {
    /// Turn timeout when the workflow names none.
    pub fn default_turn_timeout_ms() -> (ms: u64)
        ensures
            ms == 600_000,
    {
        600_000
    }
}

#[derive(Debug, Clone, PartialEq)]
pub struct OrchestratorConfig {
    pub max_concurrent_agents: u32,
    pub active_states: Vec<String>,
    pub terminal_states: Vec<String>,
}

impl OrchestratorConfig {
    /// Concurrency when the workflow names none.
    pub fn default_max_concurrent_agents() -> (n: u32)
        ensures
            n == 1,
    {
        1
    }
}

#[derive(Debug, Clone, PartialEq)]
pub struct HooksConfig {
    pub after_create: Option<HookCommand>,
    pub before_run: Option<HookCommand>,
    pub after_run: Option<HookCommand>,
    pub before_remove: Option<HookCommand>,
}

impl Default for HooksConfig {
    fn default() -> (h: HooksConfig)
        ensures
            h.after_create is None,
            h.before_run is None,
            h.after_run is None,
            h.before_remove is None,
    {
        HooksConfig { after_create: None, before_run: None, after_run: None, before_remove: None }
    }
}

/// The four hook phases a workflow can opt into.
#[derive(Debug, Clone, Copy, PartialEq, Eq, Hash, Structural)]
pub enum HookPhase {
    AfterCreate,
    BeforeRun,
    AfterRun,
    BeforeRemove,
}

impl HookPhase {
    /// The phases in lifecycle order.
    pub open spec fn spec_all() -> Seq<HookPhase> {
        seq![HookPhase::AfterCreate, HookPhase::BeforeRun, HookPhase::AfterRun, HookPhase::BeforeRemove]
    }

    /// The phases in lifecycle order (`AfterCreate`, `BeforeRun`,
    /// `AfterRun`, `BeforeRemove`).
    pub fn all() -> (v: Vec<HookPhase>)
        ensures
            v@ == HookPhase::spec_all(),
    {
        let v = vec![
            HookPhase::AfterCreate,
            HookPhase::BeforeRun,
            HookPhase::AfterRun,
            HookPhase::BeforeRemove,
        ];
        assert(v@ =~= HookPhase::spec_all());
        v
    }

    pub open spec fn name(self) -> Seq<char> {
        match self {
            HookPhase::AfterCreate => "after_create"@,
            HookPhase::BeforeRun => "before_run"@,
            HookPhase::AfterRun => "after_run"@,
            HookPhase::BeforeRemove => "before_remove"@,
        }
    }

    pub fn as_str(self) -> (s: &'static str)
        ensures
            s@ == self.name(),
    {
        match self {
            HookPhase::AfterCreate => "after_create",
            HookPhase::BeforeRun => "before_run",
            HookPhase::AfterRun => "after_run",
            HookPhase::BeforeRemove => "before_remove",
        }
    }

    /// Fatal phases abort dispatch when their hook fails; the others log the
    /// failure and continue.
    pub fn is_fatal_by_default(self) -> (b: bool)
        ensures
            b == (self == HookPhase::AfterCreate || self == HookPhase::BeforeRun),
    {
        match self {
            HookPhase::AfterCreate | HookPhase::BeforeRun => true,
            _ => false,
        }
    }
}

impl HooksConfig {
    pub open spec fn spec_get(&self, phase: HookPhase) -> Option<HookCommand> {
        match phase {
            HookPhase::AfterCreate => self.after_create,
            HookPhase::BeforeRun => self.before_run,
            HookPhase::AfterRun => self.after_run,
            HookPhase::BeforeRemove => self.before_remove,
        }
    }

    /// The hook configured for `phase`, if any.
    pub fn get(&self, phase: HookPhase) -> (r: Option<&HookCommand>)
        ensures
            match self.spec_get(phase) {
                Some(h) => r matches Some(x) && *x == h,
                None => r is None,
            },
    {
        match phase {
            HookPhase::AfterCreate => self.after_create.as_ref(),
            HookPhase::BeforeRun => self.before_run.as_ref(),
            HookPhase::AfterRun => self.after_run.as_ref(),
            HookPhase::BeforeRemove => self.before_remove.as_ref(),
        }
    }
}

#[derive(Debug, Clone, PartialEq)]
pub struct HookCommand {
    pub command: String,
    pub timeout_ms: u64,
}

impl HookCommand {
    /// Hook timeout when the workflow names none.
    pub fn default_timeout_ms() -> (ms: u64)
        ensures
            ms == 30_000,
    {
        30_000
    }
}

#[derive(Debug, Clone, PartialEq)]
pub struct PromptConfig {
    /// Reject `{{ undefined }}` template variables; only `true` is
    /// accepted for now.
    pub strict_undefined: bool,
}

impl PromptConfig {
    /// Strictness when the workflow names none.
    pub fn default_strict_undefined() -> (b: bool)
        ensures
            b,
    {
        true
    }
}

impl Default for PromptConfig {
    fn default() -> (p: PromptConfig)
        ensures
            p.strict_undefined,
    {
        PromptConfig { strict_undefined: PromptConfig::default_strict_undefined() }
    }
}

/// Why a `WORKFLOW.md` is rejected.
#[derive(Debug, PartialEq, Eq)]
pub enum WorkflowError {
    /// The file does not start with `---\n`.
    MissingFrontMatter,
    /// No `\n---` closes the front matter.
    UnterminatedFrontMatter,
    /// The front matter is not a valid configuration document.
    InvalidYaml { message: String },
    /// A decoded field breaks a validation rule.
    Invalid { field: String, message: String },
}

// ---------------------------------------------------------------------------
// Front matter
// ---------------------------------------------------------------------------

/// Index of the first occurrence of `p` in `s` at or after `i`, or
/// `s.len()`.
pub open spec fn find_from(s: Seq<char>, p: Seq<char>, i: int) -> int
    decreases s.len() - i,
{
    if i < 0 || i >= s.len() {
        s.len() as int
    } else if occurs_at(s, p, i) {
        i
    } else {
        find_from(s, p, i + 1)
    }
}

/// `s` with every leading copy of `p` removed (`trim_start_matches`).
pub open spec fn strip_leading(s: Seq<char>, p: Seq<char>) -> Seq<char>
    decreases s.len(),
{
    if p.len() > 0 && starts_with(s, p) {
        strip_leading(s.skip(p.len() as int), p)
    } else {
        s
    }
}

/// The split of a `WORKFLOW.md`: its front matter and its trimmed prompt
/// template, or why it has none.
pub open spec fn front_matter_split(input: Seq<char>) -> Result<(Seq<char>, Seq<char>), WorkflowError> {
    if !starts_with(input, "---\n"@) {
        Err(WorkflowError::MissingFrontMatter)
    } else {
        let rest = input.skip("---\n"@.len() as int);
        let end = find_from(rest, "\n---"@, 0);
        if end >= rest.len() {
            Err(WorkflowError::UnterminatedFrontMatter)
        } else {
            let remainder = rest.skip(end);
            Ok(
                (
                    rest.take(end),
                    trim(strip_leading(strip_leading(remainder, "\n---"@), seq!['\n'])),
                ),
            )
        }
    }
}

fn find_from_exec(s: &[char], p: &[char]) -> (r: usize)
    ensures
        r == find_from(s@, p@, 0),
{
    let mut i: usize = 0;
    while i < s.len() && !occurs_at_exec(s, p, i)
        invariant
            i <= s.len(),
            find_from(s@, p@, 0) == find_from(s@, p@, i as int),
        decreases s.len() - i,
    {
        i = i + 1;
    }
    i
}

fn strip_leading_exec(s: &[char], p: &[char]) -> (r: Vec<char>)
    ensures
        r@ == strip_leading(s@, p@),
{
    let mut cur: Vec<char> = slice_vec(s, 0, s.len());
    assert(cur@ =~= s@);
    while p.len() > 0 && starts_with_exec(cur.as_slice(), p)
        invariant
            strip_leading(cur@, p@) == strip_leading(s@, p@),
        decreases cur.len(),
    {
        let next = slice_vec(cur.as_slice(), p.len(), cur.len());
        assert(next@ =~= cur@.skip(p@.len() as int));
        cur = next;
    }
    cur
}

/// Split a `WORKFLOW.md` into its YAML front matter (between a leading
/// `---\n` and the first `\n---`) and its prompt template (what follows,
/// delimiter lines stripped and trimmed).
pub fn split_front_matter(input: &str) -> (r: Result<(String, String), WorkflowError>)
    ensures
        match r {
            Ok((f, p)) => front_matter_split(input@) == Ok::<(Seq<char>, Seq<char>), WorkflowError>(
                (f@, p@),
            ),
            Err(e) => front_matter_split(input@) == Err::<(Seq<char>, Seq<char>), WorkflowError>(
                e,
            ),
        },
{
    let chars = chars_of(input);
    let open = chars_of("---\n");
    if !starts_with_exec(chars.as_slice(), open.as_slice()) {
        return Err(WorkflowError::MissingFrontMatter);
    }
    let rest = slice_vec(chars.as_slice(), open.len(), chars.len());
    assert(rest@ =~= input@.skip("---\n"@.len() as int));
    let close = chars_of("\n---");
    let end = find_from_exec(rest.as_slice(), close.as_slice());
    if end >= rest.len() {
        return Err(WorkflowError::UnterminatedFrontMatter);
    }
    let front = slice_vec(rest.as_slice(), 0, end);
    assert(front@ =~= rest@.take(end as int));
    let remainder = slice_vec(rest.as_slice(), end, rest.len());
    assert(remainder@ =~= rest@.skip(end as int));
    let a = strip_leading_exec(remainder.as_slice(), close.as_slice());
    let newline: Vec<char> = vec!['\n'];
    assert(newline@ =~= seq!['\n']);
    let b = strip_leading_exec(a.as_slice(), newline.as_slice());
    let prompt = trim_vec(b.as_slice());
    Ok((string_from(front.as_slice()), string_from(prompt.as_slice())))
}

// ---------------------------------------------------------------------------
// Validation
// ---------------------------------------------------------------------------

/// A validation failure: the offending field and what is wrong with it.
pub open spec fn invalid(field: Seq<char>, message: Seq<char>) -> Option<(Seq<char>, Seq<char>)> {
    Some((field, message))
}

/// The first state of `active` (from index `k` on) that is also terminal.
pub open spec fn first_overlap(active: Seq<Seq<char>>, terminal: Seq<Seq<char>>, k: int) -> int
    decreases active.len() - k,
{
    if k < 0 || k >= active.len() {
        active.len() as int
    } else if terminal.contains(active[k]) {
        k
    } else {
        first_overlap(active, terminal, k + 1)
    }
}

/// The first failing hook rule, checking phases from index `k` of the
/// lifecycle order on.
pub open spec fn hook_error(hooks: HooksConfig, k: int) -> Option<(Seq<char>, Seq<char>)>
    decreases 4 - k,
{
    if k < 0 || k >= 4 {
        None
    } else {
        let phase = HookPhase::spec_all()[k];
        match hooks.spec_get(phase) {
            Some(h) => if trim(h.command@).len() == 0 {
                invalid("hooks."@ + phase.name() + ".command"@, "must not be empty"@)
            } else if h.timeout_ms == 0 {
                invalid("hooks."@ + phase.name() + ".timeout_ms"@, "must be > 0"@)
            } else {
                hook_error(hooks, k + 1)
            },
            None => hook_error(hooks, k + 1),
        }
    }
}

/// The first rule a decoded configuration breaks, in checking order, as
/// `(field, message)`; `None` when it is valid.
pub open spec fn validation_error(c: WorkflowConfig) -> Option<(Seq<char>, Seq<char>)> {
    let active = string_views(c.orchestrator.active_states@);
    let terminal = string_views(c.orchestrator.terminal_states@);
    let overlap = first_overlap(active, terminal, 0);
    if trim(c.tracker.token@).len() == 0 {
        invalid("tracker.token"@, "must not be empty"@)
    } else if c.workspace.root@.len() == 0 {
        invalid("workspace.root"@, "must not be empty"@)
    } else if !starts_with(c.workspace.root@, "/"@) {
        invalid("workspace.root"@, "must be an absolute path"@)
    } else if trim(c.codex.command@).len() == 0 {
        invalid("codex.command"@, "must not be empty"@)
    } else if c.codex.turn_timeout_ms == 0 {
        invalid("codex.turn_timeout_ms"@, "must be > 0"@)
    } else if c.poll.interval_ms == 0 {
        invalid("poll.interval_ms"@, "must be > 0"@)
    } else if c.orchestrator.max_concurrent_agents == 0 {
        invalid("orchestrator.max_concurrent_agents"@, "must be > 0"@)
    } else if active.len() == 0 {
        invalid("orchestrator.active_states"@, "must contain at least one state"@)
    } else if terminal.len() == 0 {
        invalid("orchestrator.terminal_states"@, "must contain at least one state"@)
    } else if overlap < active.len() {
        invalid(
            "orchestrator"@,
            "state `"@ + active[overlap] + "` cannot be both active and terminal"@,
        )
    } else if hook_error(c.hooks, 0) is Some {
        hook_error(c.hooks, 0)
    } else if !c.prompt.strict_undefined {
        invalid(
            "prompt.strict_undefined"@,
            "non-strict prompt rendering is not implemented yet (see issue #8)"@,
        )
    } else {
        None
    }
}

fn invalid_err(field: &str, message: &str) -> (e: WorkflowError)
    ensures
        e matches WorkflowError::Invalid { field: f, message: m } && f@ == field@ && m@
            == message@,
{
    WorkflowError::Invalid { field: field.to_owned(), message: message.to_owned() }
}

fn is_blank(s: &str) -> (b: bool)
    ensures
        b == (trim(s@).len() == 0),
{
    let c = chars_of(s);
    let t = trim_vec(c.as_slice());
    t.len() == 0
}

fn has_state(states: &Vec<String>, s: &String) -> (b: bool)
    ensures
        b == string_views(states@).contains(s@),
{
    let mut i: usize = 0;
    while i < states.len()
        invariant
            i <= states@.len(),
            forall|k: int| 0 <= k < i ==> states@[k]@ != s@,
        decreases states.len() - i,
    {
        if crate::strmap::str_eq(states[i].as_str(), s.as_str()) {
            assert(string_views(states@)[i as int] == s@);
            return true;
        }
        i = i + 1;
    }
    proof {
        if string_views(states@).contains(s@) {
            let k = choose|k: int|
                0 <= k < string_views(states@).len() && #[trigger] string_views(states@)[k] == s@;
            assert(states@[k]@ == s@);
        }
    }
    false
}

fn field_of(phase: HookPhase, suffix: &str) -> (s: String)
    ensures
        s@ == "hooks."@ + phase.name() + suffix@,
{
    let mut v: Vec<char> = Vec::new();
    extend_str(&mut v, "hooks.");
    extend_str(&mut v, phase.as_str());
    extend_str(&mut v, suffix);
    string_from(v.as_slice())
}

fn check_hooks(hooks: &HooksConfig) -> (r: Result<(), WorkflowError>)
    ensures
        match hook_error(*hooks, 0) {
            Some((f, m)) => r matches Err(WorkflowError::Invalid { field, message }) && field@ == f
                && message@ == m,
            None => r is Ok,
        },
{
    let phases = HookPhase::all();
    let mut k: usize = 0;
    while k < phases.len()
        invariant
            k <= 4,
            phases@ == HookPhase::spec_all(),
            hook_error(*hooks, 0) == hook_error(*hooks, k as int),
        decreases phases.len() - k,
    {
        let phase = phases[k];
        match hooks.get(phase) {
            Some(h) => {
                if is_blank(h.command.as_str()) {
                    let field = field_of(phase, ".command");
                    return Err(WorkflowError::Invalid { field, message: "must not be empty".to_owned() });
                }
                if h.timeout_ms == 0 {
                    let field = field_of(phase, ".timeout_ms");
                    return Err(WorkflowError::Invalid { field, message: "must be > 0".to_owned() });
                }
            },
            None => {},
        }
        k = k + 1;
    }
    Ok(())
}

/// Check a decoded configuration against the documented rules; the first
/// rule broken, in checking order, is reported.
#[verifier::loop_isolation(false)]
pub fn validate(c: &WorkflowConfig) -> (r: Result<(), WorkflowError>)
    ensures
        match validation_error(*c) {
            Some((f, m)) => r matches Err(WorkflowError::Invalid { field, message }) && field@ == f
                && message@ == m,
            None => r is Ok,
        },
{
    if is_blank(c.tracker.token.as_str()) {
        return Err(invalid_err("tracker.token", "must not be empty"));
    }
    if c.workspace.root.as_str().is_empty() {
        return Err(invalid_err("workspace.root", "must not be empty"));
    }
    let root = chars_of(c.workspace.root.as_str());
    let slash = chars_of("/");
    if !starts_with_exec(root.as_slice(), slash.as_slice()) {
        return Err(invalid_err("workspace.root", "must be an absolute path"));
    }
    if is_blank(c.codex.command.as_str()) {
        return Err(invalid_err("codex.command", "must not be empty"));
    }
    if c.codex.turn_timeout_ms == 0 {
        return Err(invalid_err("codex.turn_timeout_ms", "must be > 0"));
    }
    if c.poll.interval_ms == 0 {
        return Err(invalid_err("poll.interval_ms", "must be > 0"));
    }
    if c.orchestrator.max_concurrent_agents == 0 {
        return Err(invalid_err("orchestrator.max_concurrent_agents", "must be > 0"));
    }
    if c.orchestrator.active_states.len() == 0 {
        return Err(invalid_err("orchestrator.active_states", "must contain at least one state"));
    }
    if c.orchestrator.terminal_states.len() == 0 {
        return Err(invalid_err("orchestrator.terminal_states", "must contain at least one state"));
    }
    let ghost active = string_views(c.orchestrator.active_states@);
    let ghost terminal = string_views(c.orchestrator.terminal_states@);
    let mut k: usize = 0;
    while k < c.orchestrator.active_states.len()
        invariant
            k <= active.len(),
            active == string_views(c.orchestrator.active_states@),
            terminal == string_views(c.orchestrator.terminal_states@),
            first_overlap(active, terminal, 0) == first_overlap(active, terminal, k as int),
        decreases c.orchestrator.active_states.len() - k,
    {
        let state = &c.orchestrator.active_states[k];
        assert(active[k as int] == state@);
        if has_state(&c.orchestrator.terminal_states, state) {
            let mut v: Vec<char> = Vec::new();
            extend_str(&mut v, "state `");
            extend_str(&mut v, state.as_str());
            extend_str(&mut v, "` cannot be both active and terminal");
            return Err(
                WorkflowError::Invalid {
                    field: "orchestrator".to_owned(),
                    message: string_from(v.as_slice()),
                },
            );
        }
        k = k + 1;
    }
    match check_hooks(&c.hooks) {
        Ok(()) => {},
        Err(e) => {
            return Err(e);
        },
    }
    if !c.prompt.strict_undefined {
        return Err(
            invalid_err(
                "prompt.strict_undefined",
                "non-strict prompt rendering is not implemented yet (see issue #8)",
            ),
        );
    }
    Ok(())
}

/// A decoded configuration and its prompt, accepted only if the
/// configuration passes `validate`.
pub fn workflow_definition(config: WorkflowConfig, prompt_template: String) -> (r: Result<
    WorkflowDefinition,
    WorkflowError,
>)
    ensures
        match validation_error(config) {
            Some((f, m)) => r matches Err(WorkflowError::Invalid { field, message }) && field@ == f
                && message@ == m,
            None => r matches Ok(d) && d.config == config && d.prompt_template == prompt_template,
        },
{
    match validate(&config) {
        Ok(()) => Ok(WorkflowDefinition { config, prompt_template }),
        Err(e) => Err(e),
    }
}

// ---------------------------------------------------------------------------
// Prompt rendering errors
// ---------------------------------------------------------------------------

/// Per-render context: every prompt sees `issue` and `attempt`.
#[derive(Debug, Clone)]
pub struct PromptInput<'a> {
    pub issue: &'a Issue,
    pub attempt: u32,
}

/// Failure modes of prompt rendering, routed to operators apart from
/// workflow parsing errors.
#[derive(Debug, PartialEq, Eq)]
pub enum PromptRenderError {
    Compile { message: String },
    UndefinedVariable { message: String },
    UnknownItem { message: String },
    Other { message: String },
}

/// The template engine's error kinds that the routing distinguishes.
#[derive(Debug, Clone, Copy, PartialEq, Eq, Structural)]
pub enum TemplateErrorKind {
    UndefinedError,
    UnknownFilter,
    UnknownTest,
    UnknownFunction,
    UnknownMethod,
    SyntaxError,
    TemplateNotFound,
    BadEscape,
    InvalidOperation,
    /// Any other kind.
    Other,
}

/// Where the template error surfaced.
#[derive(Debug, Clone, Copy, PartialEq, Eq, Structural)]
pub enum RenderStage {
    Compile,
    Render,
}

impl PromptRenderError {
    /// Route an engine error: undefined variables and unknown
    /// filters/tests/functions/methods have their own variants; syntax
    /// errors, and missing templates, bad escapes and invalid operations
    /// while compiling, are compile errors; anything else is `Other`.
    pub fn classify(kind: TemplateErrorKind, stage: RenderStage, message: String) -> (e:
        PromptRenderError)
        ensures
            e == (match kind {
                TemplateErrorKind::UndefinedError => PromptRenderError::UndefinedVariable {
                    message,
                },
                TemplateErrorKind::UnknownFilter | TemplateErrorKind::UnknownTest
                | TemplateErrorKind::UnknownFunction
                | TemplateErrorKind::UnknownMethod => PromptRenderError::UnknownItem { message },
                TemplateErrorKind::SyntaxError => PromptRenderError::Compile { message },
                TemplateErrorKind::TemplateNotFound | TemplateErrorKind::BadEscape
                | TemplateErrorKind::InvalidOperation => if stage == RenderStage::Compile {
                    PromptRenderError::Compile { message }
                } else {
                    PromptRenderError::Other { message }
                },
                TemplateErrorKind::Other => PromptRenderError::Other { message },
            }),
    {
        match kind {
            TemplateErrorKind::UndefinedError => PromptRenderError::UndefinedVariable { message },
            TemplateErrorKind::UnknownFilter | TemplateErrorKind::UnknownTest
            | TemplateErrorKind::UnknownFunction
            | TemplateErrorKind::UnknownMethod => PromptRenderError::UnknownItem { message },
            TemplateErrorKind::SyntaxError => PromptRenderError::Compile { message },
            TemplateErrorKind::TemplateNotFound | TemplateErrorKind::BadEscape
            | TemplateErrorKind::InvalidOperation => {
                match stage {
                    RenderStage::Compile => PromptRenderError::Compile { message },
                    RenderStage::Render => PromptRenderError::Other { message },
                }
            },
            TemplateErrorKind::Other => PromptRenderError::Other { message },
        }
    }
}


// ---------------------------------------------------------------------------
// Strict prompt rendering
// ---------------------------------------------------------------------------

/// The template engine's value type, carried through opaquely.
#[verifier::external_type_specification]
#[verifier::external_body]
pub struct ExTemplateValue(minijinja::Value);

/// The template engine's error type, carried through opaquely.
#[verifier::external_type_specification]
#[verifier::external_body]
pub struct ExTemplateError(minijinja::Error);

/// What `minijinja` makes of `template` rendered in strict-undefined mode
/// against the context `{ issue, attempt }`: the rendered text, or the
/// error's kind, the stage at which it surfaced and its message. A function
/// of its arguments alone; the template language is not restated here.
pub uninterp spec fn strict_render(template: Seq<char>, issue: Issue, attempt: u32) -> Result<
    Seq<char>,
    (TemplateErrorKind, RenderStage, Seq<char>),
>;

/// Tell the engine's error kinds apart, one arm each.
#[verifier::external_body]
fn template_error_kind(e: &minijinja::Error) -> TemplateErrorKind {
    match e.kind() {
        minijinja::ErrorKind::UndefinedError => TemplateErrorKind::UndefinedError,
        minijinja::ErrorKind::UnknownFilter => TemplateErrorKind::UnknownFilter,
        minijinja::ErrorKind::UnknownTest => TemplateErrorKind::UnknownTest,
        minijinja::ErrorKind::UnknownFunction => TemplateErrorKind::UnknownFunction,
        minijinja::ErrorKind::UnknownMethod => TemplateErrorKind::UnknownMethod,
        minijinja::ErrorKind::SyntaxError => TemplateErrorKind::SyntaxError,
        minijinja::ErrorKind::TemplateNotFound => TemplateErrorKind::TemplateNotFound,
        minijinja::ErrorKind::BadEscape => TemplateErrorKind::BadEscape,
        minijinja::ErrorKind::InvalidOperation => TemplateErrorKind::InvalidOperation,
        _ => TemplateErrorKind::Other,
    }
}

/// A blocker as a template value, field for field.
#[verifier::external_body]
fn blocker_context(b: &BlockerRef) -> minijinja::Value {
    minijinja::Value::from_iter([
        ("id", minijinja::Value::from(b.id.clone())),
        ("identifier", minijinja::Value::from(b.identifier.clone())),
        ("state", minijinja::Value::from(b.state.clone())),
    ])
}

/// The first half of an issue's fields as template values.
#[verifier::external_body]
fn issue_head_context(i: &Issue) -> Vec<(&'static str, minijinja::Value)> {
    vec![
        ("id", minijinja::Value::from(i.id.clone())),
        ("identifier", minijinja::Value::from(i.identifier.clone())),
        ("title", minijinja::Value::from(i.title.clone())),
        ("description", minijinja::Value::from(i.description.clone())),
        ("priority", minijinja::Value::from(i.priority)),
        ("state", minijinja::Value::from(i.state.clone())),
    ]
}

/// An issue as a template value, field for field.
#[verifier::external_body]
fn issue_context(i: &Issue) -> minijinja::Value {
    let mut fields = issue_head_context(i);
    fields.push(("branch_name", minijinja::Value::from(i.branch_name.clone())));
    fields.push(("url", minijinja::Value::from(i.url.clone())));
    fields.push(("labels", minijinja::Value::from_iter(i.labels.iter().cloned())));
    fields.push(("blocked_by", minijinja::Value::from_iter(i.blocked_by.iter().map(blocker_context))));
    fields.push(("created_at", minijinja::Value::from(i.created_at.clone())));
    fields.push(("updated_at", minijinja::Value::from(i.updated_at.clone())));
    minijinja::Value::from_iter(fields)
}

/// Compile `template` with `minijinja` in strict-undefined mode and render
/// it against `{ issue, attempt }`. The contract claims only that the
/// outcome is a function of the arguments (`strict_render`).
#[verifier::external_body]
fn render_strict(template: &str, issue: &Issue, attempt: u32) -> (r: Result<
    String,
    (TemplateErrorKind, RenderStage, String),
>)
    ensures
        match r {
            Ok(t) => strict_render(template@, *issue, attempt) == Ok::<
                Seq<char>,
                (TemplateErrorKind, RenderStage, Seq<char>),
            >(t@),
            Err((k, st, m)) => strict_render(template@, *issue, attempt) == Err::<
                Seq<char>,
                (TemplateErrorKind, RenderStage, Seq<char>),
            >((k, st, m@)),
        },
{
    let mut env = minijinja::Environment::new();
    env.set_undefined_behavior(minijinja::UndefinedBehavior::Strict);
    if let Err(e) = env.add_template("prompt", template) {
        return Err((template_error_kind(&e), RenderStage::Compile, e.to_string()));
    }
    let tpl = match env.get_template("prompt") {
        Ok(t) => t,
        Err(e) => return Err((template_error_kind(&e), RenderStage::Compile, e.to_string())),
    };
    let ctx = minijinja::Value::from_iter([("issue", issue_context(issue)), ("attempt", minijinja::Value::from(attempt))]);
    match tpl.render(ctx) {
        Ok(t) => Ok(t),
        Err(e) => Err((template_error_kind(&e), RenderStage::Render, e.to_string())),
    }
}

/// `e` is the routing of an engine error of `kind`, surfaced at `stage`,
/// with message `m` (as `PromptRenderError::classify` routes it).
pub open spec fn routed_as(e: PromptRenderError, kind: TemplateErrorKind, stage: RenderStage, m: Seq<
    char,
>) -> bool {
    match kind {
        TemplateErrorKind::UndefinedError => e matches PromptRenderError::UndefinedVariable {
            message,
        } && message@ == m,
        TemplateErrorKind::UnknownFilter | TemplateErrorKind::UnknownTest
        | TemplateErrorKind::UnknownFunction
        | TemplateErrorKind::UnknownMethod => e matches PromptRenderError::UnknownItem { message }
            && message@ == m,
        TemplateErrorKind::SyntaxError => e matches PromptRenderError::Compile { message }
            && message@ == m,
        TemplateErrorKind::TemplateNotFound | TemplateErrorKind::BadEscape
        | TemplateErrorKind::InvalidOperation => if stage == RenderStage::Compile {
            e matches PromptRenderError::Compile { message } && message@ == m
        } else {
            e matches PromptRenderError::Other { message } && message@ == m
        },
        TemplateErrorKind::Other => e matches PromptRenderError::Other { message } && message@
            == m,
    }
}

/// Render `template` against `input` in strict mode: undefined variables
/// and unknown filters, tests and functions all fail closed, each routed to
/// its own error.
pub fn render_prompt(template: &str, input: &PromptInput) -> (r: Result<String, PromptRenderError>)
    ensures
        match strict_render(template@, *input.issue, input.attempt) {
            Ok(t) => r matches Ok(s) && s@ == t,
            Err((kind, stage, m)) => r matches Err(e) && routed_as(e, kind, stage, m),
        },
{
    match render_strict(template, input.issue, input.attempt) {
        Ok(t) => Ok(t),
        Err((kind, stage, m)) => Err(PromptRenderError::classify(kind, stage, m)),
    }
}

} // verus!

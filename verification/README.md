# Cadenza

Cadenza orchestrates Codex-driven work on tracker issues: it selects issues
to dispatch, prepares per-issue workspaces, runs hooks and the Codex
app-server, hosts sandboxed WebAssembly tool components, and serves a
redacted state snapshot to operators.

The decisions of the runtime live in `src/`, a library verified with Verus:
every public function states in its contract what it returns or changes,
and the laws the design relies on are proved as proof functions.

- `orchestrator`, `lifecycle`: dispatch selection (filtering, ordering,
  capacity), run lifecycle decisions, retry backoff, reconciliation.
- `workflow`, `source`: the `WORKFLOW.md` contract (front matter split,
  validation rules, strict prompt rendering and its error routing) and hot
  reload that keeps the last-known-good definition.
- `domain`, `workspace`, `hooks`: the issue model, workspace keys and
  lexical path containment, hook capture and redaction.
- `obs`, `snapshot`, `scrubber`, `json`: field names, the `KEY=value`
  scrub, registered-secret redaction, snapshot redaction, the JSON document
  model and structured-field redaction.
- `codex`, `launcher`, `events`: app-server configuration, the
  `initialize` reply, stderr capture, and the decoding of turn
  notifications.
- `wasm_host`, `capabilities`, `component_scan`, `linear_http`: component
  identity and resource limits, the host capabilities a guest may call
  (Linear GraphQL gate and audit, secrets presence, workspace reads), and
  the interpretation of Linear HTTP answers.
- `tracker`: issue normalisation, pagination and the state-lookup reading
  of tracker payloads.
- `pr_gate`, `contracts`: the author-time PR gate (with its inputs: the PR
  body of the event payload and the changed files of a diff) and the
  pinned-version contract registry.
- `text`, `strmap`, `ordering`: the string, map and ordering vocabulary the
  contracts are written in.

`app/` is the `cadenza` command line and the I/O around the library:
process spawning, files and watchers, HTTP, YAML decoding, the Wasmtime
engine. `tests/` exercises the library on concrete values.

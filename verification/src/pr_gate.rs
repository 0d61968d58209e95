//! Author-time PR gate: a pure `evaluate` over the changed files and the PR
//! body. Git and environment access stay with the caller.
use vstd::prelude::*;

use crate::contracts::{mvp_critical_keys, mvp_keys};
use crate::json::{field, parse_json_document, serde_json_document, JsonModel, JsonValue};
use crate::strmap::{str_eq, string_views};
use crate::text::{
    char_is_alphabetic, chars_of, contains, contains_exec, decimal, decimal_chars, ends_with,
    ends_with_exec, extend_chars, extend_str, find_char_from, find_char_from_exec, is_ascii_digit,
    lemma_find_char_from_bounds, lines, lines_exec, occurs_at, occurs_at_exec, slice_vec,
    starts_with, starts_with_exec, str_to_lowercase, string_from, trim, trim_start,
    trim_start_vec, trim_vec, alphabetic, lowercase, views,
};

verus! {

// ---------------------------------------------------------------------------
// Pinned-version drift
// ---------------------------------------------------------------------------

/// What the PR gate reads as the value on a line that starts with `key`: after
/// the key and optional whitespace there must be `=`; the rest is trimmed,
/// and a double-quoted value keeps everything up to its closing quote (an
/// unterminated one is kept whole), while an unquoted value stops at the
/// first `#`.
pub open spec fn gate_value_of_line(line: Seq<char>, key: Seq<char>) -> Option<Seq<char>> {
    if !starts_with(line, key) {
        None
    } else {
        let rest = trim_start(line.skip(key.len() as int));
        if rest.len() == 0 || rest[0] != '=' {
            None
        } else {
            let val = trim(rest.skip(1));
            if val.len() > 0 && val[0] == '"' {
                let e = find_char_from(val, '"', 1);
                if e < val.len() {
                    Some(trim(val.take(e + 1)))
                } else {
                    Some(trim(val))
                }
            } else {
                Some(trim(val.take(find_char_from(val, '#', 0))))
            }
        }
    }
}

/// The PR gate's reading of `key` in the lines of a body from index `i` on:
/// the value on the first line (trimmed of leading whitespace) that yields
/// one.
pub open spec fn gate_value_from(ls: Seq<Seq<char>>, key: Seq<char>, i: int) -> Option<Seq<char>>
    decreases ls.len() - i,
{
    if i < 0 || i >= ls.len() {
        None
    } else {
        match gate_value_of_line(trim_start(ls[i]), key) {
            Some(v) => Some(v),
            None => gate_value_from(ls, key, i + 1),
        }
    }
}

/// The PR gate's reading of `key` in `body`.
pub open spec fn gate_value(body: Seq<char>, key: Seq<char>) -> Option<Seq<char>> {
    gate_value_from(lines(body), key, 0)
}

/// The MVP-critical keys among the first `n` whose value differs between
/// `base` and `head`, in registry order.
pub open spec fn changed_keys(base: Seq<char>, head: Seq<char>, n: int) -> Seq<Seq<char>>
    decreases n,
{
    if n <= 0 || n > mvp_keys().len() {
        Seq::empty()
    } else if gate_value(base, mvp_keys()[n - 1]) != gate_value(head, mvp_keys()[n - 1]) {
        changed_keys(base, head, n - 1).push(mvp_keys()[n - 1])
    } else {
        changed_keys(base, head, n - 1)
    }
}

fn gate_value_of_line_exec(line: &[char], key: &[char]) -> (r: Option<Vec<char>>)
    ensures
        match r {
            Some(v) => gate_value_of_line(line@, key@) == Some(v@),
            None => gate_value_of_line(line@, key@) is None,
        },
{
    if !starts_with_exec(line, key) {
        return None;
    }
    let after_key = slice_vec(line, key.len(), line.len());
    assert(after_key@ =~= line@.skip(key@.len() as int));
    let rest = trim_start_vec(after_key.as_slice());
    if rest.len() == 0 || rest[0] != '=' {
        return None;
    }
    let tail = slice_vec(rest.as_slice(), 1, rest.len());
    assert(tail@ =~= rest@.skip(1));
    let val = trim_vec(tail.as_slice());
    if val.len() > 0 && val[0] == '"' {
        let e = find_char_from_exec(val.as_slice(), '"', 1);
        proof {
            lemma_find_char_from_bounds(val@, '"', 1);
        }
        if e < val.len() {
            let quoted = slice_vec(val.as_slice(), 0, e + 1);
            assert(quoted@ =~= val@.take(e + 1));
            Some(trim_vec(quoted.as_slice()))
        } else {
            Some(trim_vec(val.as_slice()))
        }
    } else {
        let h = find_char_from_exec(val.as_slice(), '#', 0);
        proof {
            lemma_find_char_from_bounds(val@, '#', 0);
        }
        let head = slice_vec(val.as_slice(), 0, h);
        assert(head@ =~= val@.take(h as int));
        Some(trim_vec(head.as_slice()))
    }
}

fn gate_value_exec(ls: &Vec<Vec<char>>, key: &[char]) -> (r: Option<Vec<char>>)
    ensures
        match r {
            Some(v) => gate_value_from(views(ls@), key@, 0) == Some(v@),
            None => gate_value_from(views(ls@), key@, 0) is None,
        },
{
    let mut i: usize = 0;
    while i < ls.len()
        invariant
            i <= ls@.len(),
            gate_value_from(views(ls@), key@, 0) == gate_value_from(views(ls@), key@, i as int),
        decreases ls.len() - i,
    {
        assert(ls@[i as int]@ == views(ls@)[i as int]);
        let line = trim_start_vec(ls[i].as_slice());
        match gate_value_of_line_exec(line.as_slice(), key) {
            Some(v) => {
                return Some(v);
            },
            None => {},
        }
        i = i + 1;
    }
    None
}

fn chars_eq(x: &Vec<char>, y: &Vec<char>) -> (r: bool)
    ensures
        r == (x@ == y@),
{
    if x.len() != y.len() {
        return false;
    }
    let mut i: usize = 0;
    while i < x.len()
        invariant
            x@.len() == y@.len(),
            i <= x@.len(),
            forall|k: int| 0 <= k < i ==> x@[k] == y@[k],
        decreases x.len() - i,
    {
        if x[i] != y[i] {
            assert(x@[i as int] != y@[i as int]);
            return false;
        }
        i = i + 1;
    }
    assert(x@ =~= y@);
    true
}

fn same_value(a: &Option<Vec<char>>, b: &Option<Vec<char>>) -> (r: bool)
    ensures
        r == (match (a, b) {
            (Some(x), Some(y)) => x@ == y@,
            (None, None) => true,
            _ => false,
        }),
{
    match (a, b) {
        (Some(x), Some(y)) => chars_eq(x, y),
        (None, None) => true,
        _ => false,
    }
}

/// MVP-critical keys whose assigned value differs between the `base` and
/// `head` versions of `tools/versions.toml`; comment- or format-only edits
/// do not count.
pub fn changed_version_keys(base: &str, head: &str) -> (keys: Vec<String>)
    ensures
        string_views(keys@) == changed_keys(base@, head@, mvp_keys().len() as int),
{
    let critical = mvp_critical_keys();
    let base_chars = chars_of(base);
    let head_chars = chars_of(head);
    let base_lines = lines_exec(base_chars.as_slice());
    let head_lines = lines_exec(head_chars.as_slice());
    let mut out: Vec<String> = Vec::new();
    let mut j: usize = 0;
    while j < critical.len()
        invariant
            j <= critical@.len(),
            critical@.len() == mvp_keys().len(),
            forall|m: int| 0 <= m < critical@.len() ==> #[trigger] critical@[m]@ == mvp_keys()[m],
            views(base_lines@) == lines(base@),
            views(head_lines@) == lines(head@),
            string_views(out@) == changed_keys(base@, head@, j as int),
        decreases critical.len() - j,
    {
        let key = chars_of(critical[j]);
        assert(critical@[j as int]@ == mvp_keys()[j as int]);
        let a = gate_value_exec(&base_lines, key.as_slice());
        let b = gate_value_exec(&head_lines, key.as_slice());
        let ghost before = string_views(out@);
        if !same_value(&a, &b) {
            out.push(critical[j].to_owned());
            assert(string_views(out@) =~= before.push(mvp_keys()[j as int]));
        }
        j = j + 1;
    }
    out
}

// ---------------------------------------------------------------------------
// Changed files and contract areas
// ---------------------------------------------------------------------------

/// A file changed in the PR, with what is needed to classify its contract
/// impact.
#[derive(Debug, Clone)]
pub struct ChangedFile {
    pub path: String,
    /// `tools/versions.toml` only: MVP-critical keys whose assigned value
    /// changed between base and head. Empty for every other file.
    pub changed_version_keys: Vec<String>,
}

/// Result of a gate run; no violation means the PR passes.
#[derive(Debug)]
pub struct GateResult {
    pub violations: Vec<String>,
}

impl GateResult {
    pub fn passed(&self) -> (b: bool)
        ensures
            b == (self.violations@.len() == 0),
    {
        self.violations.len() == 0
    }
}

/// Contract areas, one per PR-template "Contract impact" box, plus the PR gate
/// itself.
#[derive(Debug, Clone, Copy, PartialEq, Eq, Structural)]
pub enum Area {
    CodexSchema,
    WitAbi,
    PinnedVersions,
    GateSelf,
    Observability,
    WorkspaceSafety,
    OrchestratorState,
    Secret,
}

impl Area {
    /// Hard areas are contract files; soft areas are behaviour crates.
    pub open spec fn hard(self) -> bool {
        match self {
            Area::CodexSchema | Area::WitAbi | Area::PinnedVersions | Area::GateSelf => true,
            _ => false,
        }
    }

    /// Stable substring of the matching PR-template box.
    pub open spec fn marker(self) -> Seq<char> {
        match self {
            Area::CodexSchema => "Codex app-server schema"@,
            Area::WitAbi => "WIT ABI"@,
            Area::PinnedVersions => "Pinned dependency versions"@,
            Area::GateSelf => ""@,
            Area::Observability => "Observability field names"@,
            Area::WorkspaceSafety => "Workspace path safety"@,
            Area::OrchestratorState => "Orchestrator state machine"@,
            Area::Secret => "Secret handling"@,
        }
    }

    pub open spec fn label_text(self) -> Seq<char> {
        match self {
            Area::CodexSchema => "Codex schema"@,
            Area::WitAbi => "WIT ABI"@,
            Area::PinnedVersions => "pinned versions (tools/versions.toml)"@,
            Area::GateSelf => "the PR gate itself"@,
            Area::Observability => "observability field names"@,
            Area::WorkspaceSafety => "workspace path safety"@,
            Area::OrchestratorState => "orchestrator state machine"@,
            Area::Secret => "secret/redaction/log-field surface"@,
        }
    }

    /// Token of the `no <token> semantics change` declaration (soft areas).
    pub open spec fn token(self) -> Seq<char> {
        match self {
            Area::Observability => "observability"@,
            Area::WorkspaceSafety => "workspace"@,
            Area::OrchestratorState => "orchestrator"@,
            Area::Secret => "secret"@,
            _ => ""@,
        }
    }

    pub fn is_hard(self) -> (b: bool)
        ensures
            b == self.hard(),
    {
        match self {
            Area::CodexSchema | Area::WitAbi | Area::PinnedVersions | Area::GateSelf => true,
            _ => false,
        }
    }

    pub fn box_marker(self) -> (s: &'static str)
        ensures
            s@ == self.marker(),
    {
        match self {
            Area::CodexSchema => "Codex app-server schema",
            Area::WitAbi => "WIT ABI",
            Area::PinnedVersions => "Pinned dependency versions",
            Area::GateSelf => "",
            Area::Observability => "Observability field names",
            Area::WorkspaceSafety => "Workspace path safety",
            Area::OrchestratorState => "Orchestrator state machine",
            Area::Secret => "Secret handling",
        }
    }

    pub fn label(self) -> (s: &'static str)
        ensures
            s@ == self.label_text(),
    {
        match self {
            Area::CodexSchema => "Codex schema",
            Area::WitAbi => "WIT ABI",
            Area::PinnedVersions => "pinned versions (tools/versions.toml)",
            Area::GateSelf => "the PR gate itself",
            Area::Observability => "observability field names",
            Area::WorkspaceSafety => "workspace path safety",
            Area::OrchestratorState => "orchestrator state machine",
            Area::Secret => "secret/redaction/log-field surface",
        }
    }

    pub fn declaration_token(self) -> (s: &'static str)
        ensures
            s@ == self.token(),
    {
        match self {
            Area::Observability => "observability",
            Area::WorkspaceSafety => "workspace",
            Area::OrchestratorState => "orchestrator",
            Area::Secret => "secret",
            _ => "",
        }
    }
}

/// `s` with `a` appended when `c` holds.
pub open spec fn push_if(s: Seq<Area>, c: bool, a: Area) -> Seq<Area> {
    if c {
        s.push(a)
    } else {
        s
    }
}

/// The areas one changed file touches, in checking order (an area may
/// appear twice).
pub open spec fn file_hits(path: Seq<char>, keys: Seq<Seq<char>>) -> Seq<Area> {
    let versions = path == "tools/versions.toml"@;
    let h1 = push_if(
        Seq::empty(),
        starts_with(path, "wit/"@) || starts_with(path, "abi/expected/"@),
        Area::WitAbi,
    );
    let h2 = push_if(
        h1,
        starts_with(path, "schemas/codex/"@) || path == "ci/expected/codex-schema.sha256"@,
        Area::CodexSchema,
    );
    let h3 = push_if(h2, versions && keys.contains("cli_version"@), Area::CodexSchema);
    let h4 = push_if(h3, versions && keys.len() > 0, Area::PinnedVersions);
    let h5 = push_if(
        h4,
        path == ".github/workflows/pr-metadata.yml"@ || starts_with(
            path,
            "crates/cadenza-cli/src/pr_gate"@,
        ),
        Area::GateSelf,
    );
    let h6 = push_if(h5, starts_with(path, "crates/cadenza-workspace/"@), Area::WorkspaceSafety);
    let h7 = push_if(
        h6,
        starts_with(path, "crates/cadenza-orchestrator/"@),
        Area::OrchestratorState,
    );
    let h8 = push_if(h7, starts_with(path, "crates/cadenza-obs/"@), Area::Observability);
    push_if(h8, starts_with(path, "crates/cadenza-host-linear-http/"@), Area::Secret)
}

/// `acc` followed by the members of `hits` it does not hold yet, each once,
/// in order.
pub open spec fn add_unique(acc: Seq<Area>, hits: Seq<Area>) -> Seq<Area>
    decreases hits.len(),
{
    if hits.len() == 0 {
        acc
    } else {
        add_unique(push_if(acc, !acc.contains(hits[0]), hits[0]), hits.drop_first())
    }
}

/// The areas the first `n` changed files touch, each once, in order of first
/// touch.
pub open spec fn classify_upto(files: Seq<ChangedFile>, n: int) -> Seq<Area>
    decreases n,
{
    if n <= 0 || n > files.len() {
        Seq::empty()
    } else {
        add_unique(
            classify_upto(files, n - 1),
            file_hits(files[n - 1].path@, string_views(files[n - 1].changed_version_keys@)),
        )
    }
}

fn push_area_if(hits: &mut Vec<Area>, c: bool, a: Area)
    ensures
        final(hits)@ == push_if(old(hits)@, c, a),
{
    if c {
        hits.push(a);
    }
}

fn has_key(keys: &Vec<String>, key: &str) -> (b: bool)
    ensures
        b == string_views(keys@).contains(key@),
{
    let mut i: usize = 0;
    while i < keys.len()
        invariant
            i <= keys@.len(),
            forall|k: int| 0 <= k < i ==> keys@[k]@ != key@,
        decreases keys.len() - i,
    {
        if crate::strmap::str_eq(keys[i].as_str(), key) {
            assert(string_views(keys@)[i as int] == key@);
            return true;
        }
        i = i + 1;
    }
    proof {
        if string_views(keys@).contains(key@) {
            let k = choose|k: int|
                0 <= k < string_views(keys@).len() && #[trigger] string_views(keys@)[k] == key@;
            assert(keys@[k]@ == key@);
        }
    }
    false
}

fn starts(p: &[char], prefix: &str) -> (b: bool)
    ensures
        b == starts_with(p@, prefix@),
{
    let q = chars_of(prefix);
    starts_with_exec(p, q.as_slice())
}

fn equals_str(p: &[char], whole: &str) -> (b: bool)
    ensures
        b == (p@ == whole@),
{
    let q = chars_of(whole);
    if p.len() != q.len() {
        return false;
    }
    let r = starts_with_exec(p, q.as_slice());
    proof {
        if r {
            assert(p@ =~= p@.take(q@.len() as int));
        }
        if p@ == q@ {
            assert(p@.take(q@.len() as int) =~= p@);
        }
    }
    r
}

fn file_hits_exec(f: &ChangedFile) -> (hits: Vec<Area>)
    ensures
        hits@ == file_hits(f.path@, string_views(f.changed_version_keys@)),
{
    let p = chars_of(f.path.as_str());
    let versions = equals_str(p.as_slice(), "tools/versions.toml");
    let mut hits: Vec<Area> = Vec::new();
    push_area_if(
        &mut hits,
        starts(p.as_slice(), "wit/") || starts(p.as_slice(), "abi/expected/"),
        Area::WitAbi,
    );
    push_area_if(
        &mut hits,
        starts(p.as_slice(), "schemas/codex/") || equals_str(p.as_slice(),
            "ci/expected/codex-schema.sha256",
        ),
        Area::CodexSchema,
    );
    push_area_if(
        &mut hits,
        versions && has_key(&f.changed_version_keys, "cli_version"),
        Area::CodexSchema,
    );
    push_area_if(
        &mut hits,
        versions && f.changed_version_keys.len() > 0,
        Area::PinnedVersions,
    );
    push_area_if(
        &mut hits,
        equals_str(p.as_slice(), ".github/workflows/pr-metadata.yml") || starts(
            p.as_slice(),
            "crates/cadenza-cli/src/pr_gate",
        ),
        Area::GateSelf,
    );
    push_area_if(
        &mut hits,
        starts(p.as_slice(), "crates/cadenza-workspace/"),
        Area::WorkspaceSafety,
    );
    push_area_if(
        &mut hits,
        starts(p.as_slice(), "crates/cadenza-orchestrator/"),
        Area::OrchestratorState,
    );
    push_area_if(&mut hits, starts(p.as_slice(), "crates/cadenza-obs/"), Area::Observability);
    push_area_if(
        &mut hits,
        starts(p.as_slice(), "crates/cadenza-host-linear-http/"),
        Area::Secret,
    );
    hits
}

fn contains_area(areas: &Vec<Area>, a: Area) -> (b: bool)
    ensures
        b == areas@.contains(a),
{
    let mut i: usize = 0;
    while i < areas.len()
        invariant
            i <= areas@.len(),
            forall|k: int| 0 <= k < i ==> areas@[k] != a,
        decreases areas.len() - i,
    {
        if areas[i] == a {
            return true;
        }
        i = i + 1;
    }
    false
}

fn add_unique_exec(areas: &mut Vec<Area>, hits: &Vec<Area>)
    ensures
        final(areas)@ == add_unique(old(areas)@, hits@),
{
    let mut k: usize = 0;
    assert(hits@.skip(0) =~= hits@);
    while k < hits.len()
        invariant
            k <= hits@.len(),
            add_unique(areas@, hits@.skip(k as int)) == add_unique(old(areas)@, hits@),
        decreases hits.len() - k,
    {
        assert(hits@.skip(k as int).drop_first() =~= hits@.skip(k + 1));
        assert(hits@.skip(k as int)[0] == hits@[k as int]);
        let a = hits[k];
        if !contains_area(areas, a) {
            areas.push(a);
        }
        k = k + 1;
    }
    assert(hits@.skip(hits@.len() as int) =~= Seq::<Area>::empty());
}

/// The contract areas the changed files touch, each once, in order of first
/// touch.
pub fn classify(changed: &[ChangedFile]) -> (areas: Vec<Area>)
    ensures
        areas@ == classify_upto(changed@, changed@.len() as int),
{
    let mut areas: Vec<Area> = Vec::new();
    let mut i: usize = 0;
    while i < changed.len()
        invariant
            i <= changed@.len(),
            areas@ == classify_upto(changed@, i as int),
        decreases changed.len() - i,
    {
        let hits = file_hits_exec(&changed[i]);
        add_unique_exec(&mut areas, &hits);
        i = i + 1;
    }
    areas
}

// ---------------------------------------------------------------------------
// PR body checks
// ---------------------------------------------------------------------------

/// A line of the body that is a checked box (`- [x]` or `- [X]` after
/// leading whitespace) whose text contains `marker`.
pub open spec fn line_checks(line: Seq<char>, marker: Seq<char>) -> bool {
    let t = trim_start(line);
    (starts_with(t, "- [x]"@) || starts_with(t, "- [X]"@)) && contains(t, marker)
}

/// The PR body checks the box whose text contains `marker`.
pub open spec fn box_is_checked(body: Seq<char>, marker: Seq<char>) -> bool {
    exists|i: int| 0 <= i < lines(body).len() && line_checks(#[trigger] lines(body)[i], marker)
}

/// `path` is an ADR under `decisions/`.
pub open spec fn is_adr_path(path: Seq<char>) -> bool {
    starts_with(path, "decisions/"@) && ends_with(path, ".md"@)
}

/// The body carries the `no <token> semantics change` declaration (in any
/// letter case).
pub open spec fn declares(body: Seq<char>, token: Seq<char>) -> bool {
    token.len() > 0 && contains(lowercase(body), "no "@ + token + " semantics change"@)
}

/// A closing reference `closes #<digit>` starts at `i` of the lowercased
/// body, with no letter right before it.
pub open spec fn closes_at(lower: Seq<char>, i: int) -> bool {
    let p = "closes #"@;
    &&& occurs_at(lower, p, i)
    &&& (i == 0 || !alphabetic(lower[i - 1]))
    &&& i + p.len() < lower.len()
    &&& is_ascii_digit(lower[i + p.len()])
}

/// Number of closing references that start before index `n`.
pub open spec fn closes_below(lower: Seq<char>, n: int) -> nat
    decreases n,
{
    if n <= 0 {
        0
    } else {
        closes_below(lower, n - 1) + if closes_at(lower, n - 1) {
            1nat
        } else {
            0nat
        }
    }
}

/// Number of `Closes #<n>` references in `body`: the keyword in any case, a
/// digit right after `#`, and a left word boundary (so `Encloses #1` does
/// not count).
pub open spec fn closes_count(body: Seq<char>) -> nat {
    closes_below(lowercase(body), lowercase(body).len() as int)
}

fn box_checked(lines_of_body: &Vec<Vec<char>>, marker: &str) -> (b: bool)
    ensures
        b == exists|i: int|
            0 <= i < lines_of_body@.len() && line_checks(#[trigger] views(lines_of_body@)[i], marker@),
{
    let m = chars_of(marker);
    let lower_x = chars_of("- [x]");
    let upper_x = chars_of("- [X]");
    let mut i: usize = 0;
    while i < lines_of_body.len()
        invariant
            i <= lines_of_body@.len(),
            m@ == marker@,
            lower_x@ == "- [x]"@,
            upper_x@ == "- [X]"@,
            forall|k: int|
                0 <= k < i ==> !line_checks(#[trigger] views(lines_of_body@)[k], marker@),
        decreases lines_of_body.len() - i,
    {
        assert(lines_of_body@[i as int]@ == views(lines_of_body@)[i as int]);
        let t = trim_start_vec(lines_of_body[i].as_slice());
        if (starts_with_exec(t.as_slice(), lower_x.as_slice()) || starts_with_exec(
            t.as_slice(),
            upper_x.as_slice(),
        )) && contains_exec(t.as_slice(), m.as_slice()) {
            return true;
        }
        i = i + 1;
    }
    false
}

fn declares_no_change(lower: &[char], token: &str) -> (b: bool)
    ensures
        b == (token@.len() > 0 && contains(lower@, "no "@ + token@ + " semantics change"@)),
{
    if token.is_empty() {
        return false;
    }
    let mut phrase: Vec<char> = Vec::new();
    extend_str(&mut phrase, "no ");
    extend_str(&mut phrase, token);
    extend_str(&mut phrase, " semantics change");
    contains_exec(lower, phrase.as_slice())
}

fn count_closes(lower: &[char]) -> (n: u64)
    ensures
        n == closes_below(lower@, lower@.len() as int),
{
    let p = chars_of("closes #");
    let mut n: u64 = 0;
    let mut i: usize = 0;
    while i < lower.len()
        invariant
            i <= lower@.len(),
            p@ == "closes #"@,
            n == closes_below(lower@, i as int),
            n <= i,
        decreases lower.len() - i,
    {
        let hit = occurs_at_exec(lower, p.as_slice(), i) && (i == 0 || !char_is_alphabetic(
            lower[i - 1],
        )) && p.len() < lower.len() - i && crate::text::char_is_ascii_digit(lower[i + p.len()]);
        if hit {
            n = n + 1;
        }
        i = i + 1;
    }
    n
}

// ---------------------------------------------------------------------------
// Evaluation
// ---------------------------------------------------------------------------

pub open spec fn one_if(c: bool, msg: Seq<char>) -> Seq<Seq<char>> {
    if c {
        seq![msg]
    } else {
        Seq::empty()
    }
}

/// The violations reported for one touched area.
pub open spec fn area_violations(
    a: Area,
    body: Seq<char>,
    has_adr: bool,
    accepted: bool,
) -> Seq<Seq<char>> {
    if a.hard() {
        one_if(
            a != Area::GateSelf && !box_is_checked(body, a.marker()) && !accepted,
            "changed "@ + a.label_text() + " but the matching Contract-impact box is unchecked"@,
        ) + one_if(
            !has_adr,
            "changed "@ + a.label_text() + " but no ADR under decisions/ is included"@,
        )
    } else {
        one_if(
            !(box_is_checked(body, a.marker()) || declares(body, a.token()) || accepted),
            "touched "@ + a.label_text()
                + " \u{2014} declare contract impact (check the box) or add `no "@ + a.token()
                + " semantics change`"@,
        )
    }
}

/// The violations of the first `n` touched areas, in order.
pub open spec fn areas_violations(
    areas: Seq<Area>,
    body: Seq<char>,
    has_adr: bool,
    accepted: bool,
    n: int,
) -> Seq<Seq<char>>
    decreases n,
{
    if n <= 0 || n > areas.len() {
        Seq::empty()
    } else {
        areas_violations(areas, body, has_adr, accepted, n - 1) + area_violations(
            areas[n - 1],
            body,
            has_adr,
            accepted,
        )
    }
}

pub open spec fn any_adr(changed: Seq<ChangedFile>) -> bool {
    exists|i: int| 0 <= i < changed.len() && is_adr_path(#[trigger] changed[i].path@)
}

pub open spec fn touches_ledger(changed: Seq<ChangedFile>) -> bool {
    exists|i: int| 0 <= i < changed.len() && #[trigger] changed[i].path@ == "DEVIATIONS.md"@
}

/// Everything the PR gate reports for `changed` and `body`, in order: first the
/// closing-reference rule, then each touched area in order of first touch.
pub open spec fn gate_violations(changed: Seq<ChangedFile>, body: Seq<char>) -> Seq<Seq<char>> {
    let closes = closes_count(body);
    let areas = classify_upto(changed, changed.len() as int);
    let has_adr = any_adr(changed);
    let accepted = touches_ledger(changed) && has_adr;
    one_if(
        closes != 1,
        "PR body must contain exactly one `Closes #<n>` (found "@ + decimal(closes) + ")"@,
    ) + areas_violations(areas, body, has_adr, accepted, areas.len() as int)
}

// ---------------------------------------------------------------------------
// Laws of the area rules
// ---------------------------------------------------------------------------

/// Which areas a changed file touches, area by area: contract files
/// (`wit/`, `abi/expected/`, the Codex schema and its hash, the version
/// registry when an MVP-critical value changed, the PR-metadata workflow
/// and this module's own source) and
/// behaviour crates (workspace, orchestrator, observability, the Linear
/// HTTP host).
pub proof fn lemma_file_areas(path: Seq<char>, keys: Seq<Seq<char>>)
    ensures
        file_hits(path, keys).contains(Area::WitAbi) <==> (starts_with(path, "wit/"@)
            || starts_with(path, "abi/expected/"@)),
        file_hits(path, keys).contains(Area::CodexSchema) <==> (starts_with(path, "schemas/codex/"@)
            || path == "ci/expected/codex-schema.sha256"@ || (path == "tools/versions.toml"@
            && keys.contains("cli_version"@))),
        file_hits(path, keys).contains(Area::PinnedVersions) <==> (path == "tools/versions.toml"@
            && keys.len() > 0),
        file_hits(path, keys).contains(Area::GateSelf) <==> (path
            == ".github/workflows/pr-metadata.yml"@ || starts_with(
            path,
            "crates/cadenza-cli/src/pr_gate"@,
        )),
        file_hits(path, keys).contains(Area::WorkspaceSafety) <==> starts_with(
            path,
            "crates/cadenza-workspace/"@,
        ),
        file_hits(path, keys).contains(Area::OrchestratorState) <==> starts_with(
            path,
            "crates/cadenza-orchestrator/"@,
        ),
        file_hits(path, keys).contains(Area::Observability) <==> starts_with(
            path,
            "crates/cadenza-obs/"@,
        ),
        file_hits(path, keys).contains(Area::Secret) <==> starts_with(
            path,
            "crates/cadenza-host-linear-http/"@,
        ),
{
    let versions = path == "tools/versions.toml"@;
    let h1 = push_if(
        Seq::empty(),
        starts_with(path, "wit/"@) || starts_with(path, "abi/expected/"@),
        Area::WitAbi,
    );
    let h2 = push_if(
        h1,
        starts_with(path, "schemas/codex/"@) || path == "ci/expected/codex-schema.sha256"@,
        Area::CodexSchema,
    );
    let h3 = push_if(h2, versions && keys.contains("cli_version"@), Area::CodexSchema);
    let h4 = push_if(h3, versions && keys.len() > 0, Area::PinnedVersions);
    let h5 = push_if(
        h4,
        path == ".github/workflows/pr-metadata.yml"@ || starts_with(
            path,
            "crates/cadenza-cli/src/pr_gate"@,
        ),
        Area::GateSelf,
    );
    let h6 = push_if(h5, starts_with(path, "crates/cadenza-workspace/"@), Area::WorkspaceSafety);
    let h7 = push_if(
        h6,
        starts_with(path, "crates/cadenza-orchestrator/"@),
        Area::OrchestratorState,
    );
    let h8 = push_if(h7, starts_with(path, "crates/cadenza-obs/"@), Area::Observability);
    let h9 = push_if(h8, starts_with(path, "crates/cadenza-host-linear-http/"@), Area::Secret);
    assert(h9 == file_hits(path, keys));
    assert forall|x: Area| #[trigger] h9.contains(x) <==> (
        (x == Area::WitAbi && (starts_with(path, "wit/"@) || starts_with(path, "abi/expected/"@)))
        || (x == Area::CodexSchema && (starts_with(path, "schemas/codex/"@) || path
        == "ci/expected/codex-schema.sha256"@ || (versions && keys.contains("cli_version"@))))
        || (x == Area::PinnedVersions && versions && keys.len() > 0)
        || (x == Area::GateSelf && (path == ".github/workflows/pr-metadata.yml"@ || starts_with(
        path,
        "crates/cadenza-cli/src/pr_gate"@,
    ))) || (x == Area::WorkspaceSafety && starts_with(path, "crates/cadenza-workspace/"@)) || (x
        == Area::OrchestratorState && starts_with(path, "crates/cadenza-orchestrator/"@)) || (x
        == Area::Observability && starts_with(path, "crates/cadenza-obs/"@)) || (x == Area::Secret
        && starts_with(path, "crates/cadenza-host-linear-http/"@))) by {
        lemma_push_if_contains(Seq::empty(), starts_with(path, "wit/"@) || starts_with(path, "abi/expected/"@), Area::WitAbi, x);
        lemma_push_if_contains(h1, starts_with(path, "schemas/codex/"@) || path == "ci/expected/codex-schema.sha256"@, Area::CodexSchema, x);
        lemma_push_if_contains(h2, versions && keys.contains("cli_version"@), Area::CodexSchema, x);
        lemma_push_if_contains(h3, versions && keys.len() > 0, Area::PinnedVersions, x);
        lemma_push_if_contains(h4, path == ".github/workflows/pr-metadata.yml"@ || starts_with(path, "crates/cadenza-cli/src/pr_gate"@), Area::GateSelf, x);
        lemma_push_if_contains(h5, starts_with(path, "crates/cadenza-workspace/"@), Area::WorkspaceSafety, x);
        lemma_push_if_contains(h6, starts_with(path, "crates/cadenza-orchestrator/"@), Area::OrchestratorState, x);
        lemma_push_if_contains(h7, starts_with(path, "crates/cadenza-obs/"@), Area::Observability, x);
        lemma_push_if_contains(h8, starts_with(path, "crates/cadenza-host-linear-http/"@), Area::Secret, x);
        assert(!Seq::<Area>::empty().contains(x));
    }
    assert(h9.contains(Area::WitAbi) == (starts_with(path, "wit/"@) || starts_with(path, "abi/expected/"@)));
    assert(h9.contains(Area::CodexSchema) == (starts_with(path, "schemas/codex/"@) || path == "ci/expected/codex-schema.sha256"@ || (versions && keys.contains("cli_version"@))));
    assert(h9.contains(Area::PinnedVersions) == (versions && keys.len() > 0));
    assert(h9.contains(Area::GateSelf) == (path == ".github/workflows/pr-metadata.yml"@ || starts_with(path, "crates/cadenza-cli/src/pr_gate"@)));
    assert(h9.contains(Area::WorkspaceSafety) == starts_with(path, "crates/cadenza-workspace/"@));
    assert(h9.contains(Area::OrchestratorState) == starts_with(path, "crates/cadenza-orchestrator/"@));
    assert(h9.contains(Area::Observability) == starts_with(path, "crates/cadenza-obs/"@));
    assert(h9.contains(Area::Secret) == starts_with(path, "crates/cadenza-host-linear-http/"@));
}

proof fn lemma_push_if_contains(s: Seq<Area>, c: bool, a: Area, x: Area)
    ensures
        push_if(s, c, a).contains(x) <==> (s.contains(x) || (c && a == x)),
{
    if c {
        if s.contains(x) {
            let i = choose|i: int| 0 <= i < s.len() && s[i] == x;
            assert(s.push(a)[i] == x);
        }
        if a == x {
            assert(s.push(a)[s.len() as int] == x);
        }
        if s.push(a).contains(x) && a != x {
            let i = choose|i: int| 0 <= i < s.push(a).len() && s.push(a)[i] == x;
            assert(s[i] == x);
        }
    }
}

proof fn lemma_add_unique_contains(acc: Seq<Area>, hits: Seq<Area>, x: Area)
    ensures
        add_unique(acc, hits).contains(x) <==> (acc.contains(x) || hits.contains(x)),
    decreases hits.len(),
{
    if hits.len() > 0 {
        let next = push_if(acc, !acc.contains(hits[0]), hits[0]);
        lemma_add_unique_contains(next, hits.drop_first(), x);
        if hits.contains(x) && !acc.contains(x) && hits[0] != x {
            let i = choose|i: int| 0 <= i < hits.len() && hits[i] == x;
            assert(hits.drop_first()[i - 1] == x);
        }
        if hits.drop_first().contains(x) {
            let i = choose|i: int| 0 <= i < hits.drop_first().len() && hits.drop_first()[i] == x;
            assert(hits[i + 1] == x);
        }
        if next.contains(x) && !acc.contains(x) {
            assert(x == hits[0]);
            assert(hits[0] == x);
        }
        if hits[0] == x && !acc.contains(x) {
            assert(next[next.len() - 1] == x);
        }
        if acc.contains(x) {
            let i = choose|i: int| 0 <= i < acc.len() && acc[i] == x;
            assert(next[i] == x);
        }
    }
}

/// The touched areas of the first `n` files are exactly the areas some of
/// those files touch.
pub proof fn lemma_touched_areas(files: Seq<ChangedFile>, n: int, x: Area)
    requires
        0 <= n <= files.len(),
    ensures
        classify_upto(files, n).contains(x) <==> exists|k: int|
            0 <= k < n && #[trigger] file_hits(
                files[k].path@,
                string_views(files[k].changed_version_keys@),
            ).contains(x),
    decreases n,
{
    if n > 0 {
        lemma_touched_areas(files, n - 1, x);
        let hits = file_hits(
            files[n - 1].path@,
            string_views(files[n - 1].changed_version_keys@),
        );
        lemma_add_unique_contains(classify_upto(files, n - 1), hits, x);
    }
}

proof fn lemma_areas_violations_has(
    areas: Seq<Area>,
    body: Seq<char>,
    has_adr: bool,
    accepted: bool,
    n: int,
    i: int,
    m: Seq<char>,
)
    requires
        0 <= i < n <= areas.len(),
        area_violations(areas[i], body, has_adr, accepted).contains(m),
    ensures
        areas_violations(areas, body, has_adr, accepted, n).contains(m),
    decreases n,
{
    let prev = areas_violations(areas, body, has_adr, accepted, n - 1);
    let last = area_violations(areas[n - 1], body, has_adr, accepted);
    if i < n - 1 {
        lemma_areas_violations_has(areas, body, has_adr, accepted, n - 1, i, m);
        let j = choose|j: int| 0 <= j < prev.len() && prev[j] == m;
        assert((prev + last)[j] == m);
    } else {
        let j = choose|j: int| 0 <= j < last.len() && last[j] == m;
        assert((prev + last)[prev.len() + j] == m);
    }
}

/// A PR whose files touch no contract or behaviour area, with exactly one
/// closing reference, yields no violation at all.
pub proof fn lemma_untouched_pr_passes(changed: Seq<ChangedFile>, body: Seq<char>)
    requires
        forall|k: int, a: Area|
            0 <= k < changed.len() ==> !(#[trigger] file_hits(
                changed[k].path@,
                string_views(changed[k].changed_version_keys@),
            ).contains(a)),
        closes_count(body) == 1,
    ensures
        gate_violations(changed, body).len() == 0,
{
    let areas = classify_upto(changed, changed.len() as int);
    if areas.len() > 0 {
        lemma_touched_areas(changed, changed.len() as int, areas[0]);
        assert(areas.contains(areas[0]));
    }
}

/// A change to the observability crate needs its box checked, the
/// `no observability semantics change` declaration, or an accepted
/// deviation; without any of them a violation names it.
pub proof fn lemma_observability_change_reported(changed: Seq<ChangedFile>, body: Seq<char>, k: int)
    requires
        0 <= k < changed.len(),
        starts_with(changed[k].path@, "crates/cadenza-obs/"@),
        !box_is_checked(body, "Observability field names"@),
        !declares(body, "observability"@),
        !(touches_ledger(changed) && any_adr(changed)),
    ensures
        gate_violations(changed, body).contains(
            "touched observability field names \u{2014} declare contract impact (check the box) or add `no observability semantics change`"@,
        ),
{
    lemma_file_areas(changed[k].path@, string_views(changed[k].changed_version_keys@));
    lemma_soft_area_reported(changed, body, k, Area::Observability);
    assert("touched "@ + "observability field names"@
        + " \u{2014} declare contract impact (check the box) or add `no "@ + "observability"@
        + " semantics change`"@ =~= "touched observability field names \u{2014} declare contract impact (check the box) or add `no observability semantics change`"@) by {
        reveal_strlit("touched ");
        reveal_strlit("observability field names");
        reveal_strlit(" \u{2014} declare contract impact (check the box) or add `no ");
        reveal_strlit("observability");
        reveal_strlit(" semantics change`");
        reveal_strlit("touched observability field names \u{2014} declare contract impact (check the box) or add `no observability semantics change`");
    }
}

/// A touched behaviour area (workspace, orchestrator, observability,
/// secrets) with neither its box checked, nor its declaration, nor an
/// accepted deviation, is reported.
pub proof fn lemma_soft_area_reported(changed: Seq<ChangedFile>, body: Seq<char>, k: int, a: Area)
    requires
        0 <= k < changed.len(),
        file_hits(changed[k].path@, string_views(changed[k].changed_version_keys@)).contains(a),
        !a.hard(),
        !box_is_checked(body, a.marker()),
        !declares(body, a.token()),
        !(touches_ledger(changed) && any_adr(changed)),
    ensures
        gate_violations(changed, body).contains(
            "touched "@ + a.label_text()
                + " \u{2014} declare contract impact (check the box) or add `no "@ + a.token()
                + " semantics change`"@,
        ),
{
    let areas = classify_upto(changed, changed.len() as int);
    lemma_touched_areas(changed, changed.len() as int, a);
    let i = choose|i: int| 0 <= i < areas.len() && areas[i] == a;
    let m = "touched "@ + a.label_text()
        + " \u{2014} declare contract impact (check the box) or add `no "@ + a.token()
        + " semantics change`"@;
    let has_adr = any_adr(changed);
    let accepted = touches_ledger(changed) && has_adr;
    assert(area_violations(a, body, has_adr, accepted)[0] == m);
    lemma_areas_violations_has(areas, body, has_adr, accepted, areas.len() as int, i, m);
    let closes = closes_count(body);
    let first = one_if(
        closes != 1,
        "PR body must contain exactly one `Closes #<n>` (found "@ + decimal(closes) + ")"@,
    );
    let rest = areas_violations(areas, body, has_adr, accepted, areas.len() as int);
    let j = choose|j: int| 0 <= j < rest.len() && rest[j] == m;
    assert((first + rest)[first.len() + j] == m);
}

/// A touched contract area (WIT ABI, Codex schema, pinned versions, the
/// gate itself) always needs an ADR under `decisions/`.
pub proof fn lemma_hard_area_needs_adr(changed: Seq<ChangedFile>, body: Seq<char>, k: int, a: Area)
    requires
        0 <= k < changed.len(),
        file_hits(changed[k].path@, string_views(changed[k].changed_version_keys@)).contains(a),
        a.hard(),
        !any_adr(changed),
    ensures
        gate_violations(changed, body).contains(
            "changed "@ + a.label_text() + " but no ADR under decisions/ is included"@,
        ),
{
    let areas = classify_upto(changed, changed.len() as int);
    lemma_touched_areas(changed, changed.len() as int, a);
    let i = choose|i: int| 0 <= i < areas.len() && areas[i] == a;
    let m = "changed "@ + a.label_text() + " but no ADR under decisions/ is included"@;
    let has_adr = any_adr(changed);
    let accepted = touches_ledger(changed) && has_adr;
    let av = area_violations(a, body, has_adr, accepted);
    let first_part = one_if(
        a != Area::GateSelf && !box_is_checked(body, a.marker()) && !accepted,
        "changed "@ + a.label_text() + " but the matching Contract-impact box is unchecked"@,
    );
    assert(av[first_part.len() as int] == m);
    lemma_areas_violations_has(areas, body, has_adr, accepted, areas.len() as int, i, m);
    let closes = closes_count(body);
    let first = one_if(
        closes != 1,
        "PR body must contain exactly one `Closes #<n>` (found "@ + decimal(closes) + ")"@,
    );
    let rest = areas_violations(areas, body, has_adr, accepted, areas.len() as int);
    let j = choose|j: int| 0 <= j < rest.len() && rest[j] == m;
    assert((first + rest)[first.len() + j] == m);
}

fn message(parts: &[&str]) -> (s: String)
    ensures
        s@ == concat_views(parts@, parts@.len() as int),
{
    let mut v: Vec<char> = Vec::new();
    let mut i: usize = 0;
    while i < parts.len()
        invariant
            i <= parts@.len(),
            v@ == concat_views(parts@, i as int),
        decreases parts.len() - i,
    {
        extend_str(&mut v, parts[i]);
        i = i + 1;
    }
    string_from(v.as_slice())
}

/// The concatenation of the first `n` strings.
pub open spec fn concat_views(parts: Seq<&str>, n: int) -> Seq<char>
    decreases n,
{
    if n <= 0 || n > parts.len() {
        Seq::empty()
    } else {
        concat_views(parts, n - 1) + parts[n - 1]@
    }
}

fn any_adr_exec(changed: &[ChangedFile]) -> (b: bool)
    ensures
        b == any_adr(changed@),
{
    let mut i: usize = 0;
    while i < changed.len()
        invariant
            i <= changed@.len(),
            forall|k: int| 0 <= k < i ==> !is_adr_path(#[trigger] changed@[k].path@),
        decreases changed.len() - i,
    {
        let p = chars_of(changed[i].path.as_str());
        let suffix = chars_of(".md");
        if starts(p.as_slice(), "decisions/") && ends_with_exec(p.as_slice(), suffix.as_slice()) {
            return true;
        }
        i = i + 1;
    }
    false
}

fn touches_ledger_exec(changed: &[ChangedFile]) -> (b: bool)
    ensures
        b == touches_ledger(changed@),
{
    let mut i: usize = 0;
    while i < changed.len()
        invariant
            i <= changed@.len(),
            forall|k: int| 0 <= k < i ==> #[trigger] changed@[k].path@ != "DEVIATIONS.md"@,
        decreases changed.len() - i,
    {
        if crate::strmap::str_eq(changed[i].path.as_str(), "DEVIATIONS.md") {
            return true;
        }
        i = i + 1;
    }
    false
}

/// The PR gate: no I/O, a function of the changed files and the PR body.
///
/// Rule 1: exactly one `Closes #<n>` reference. Then for each touched area:
/// a hard area needs its Contract-impact box checked (unless the PR is an
/// accepted deviation: it touches `DEVIATIONS.md` and includes an ADR; the
/// gate itself has no box) and an ADR under `decisions/`; a soft area needs
/// its box checked, a `no <token> semantics change` declaration, or an
/// accepted deviation.
pub fn evaluate(changed: &[ChangedFile], pr_body: &str) -> (r: GateResult)
    ensures
        string_views(r.violations@) == gate_violations(changed@, pr_body@),
{
    let mut violations: Vec<String> = Vec::new();
    let lowered = str_to_lowercase(pr_body);
    let lower = chars_of(lowered.as_str());
    let body = chars_of(pr_body);
    let body_lines = lines_exec(body.as_slice());
    let closes = count_closes(lower.as_slice());
    if closes != 1 {
        let mut v: Vec<char> = Vec::new();
        extend_str(&mut v, "PR body must contain exactly one `Closes #<n>` (found ");
        let digits = decimal_chars(closes);
        extend_chars(&mut v, digits.as_slice());
        extend_str(&mut v, ")");
        violations.push(string_from(v.as_slice()));
    }
    let ghost first = string_views(violations@);
    assert(first == one_if(
        closes_count(pr_body@) != 1,
        "PR body must contain exactly one `Closes #<n>` (found "@ + decimal(closes_count(pr_body@))
            + ")"@,
    ));
    let areas = classify(changed);
    let has_adr = any_adr_exec(changed);
    let accepted = touches_ledger_exec(changed) && has_adr;
    let mut k: usize = 0;
    while k < areas.len()
        invariant
            k <= areas@.len(),
            areas@ == classify_upto(changed@, changed@.len() as int),
            has_adr == any_adr(changed@),
            accepted == (touches_ledger(changed@) && any_adr(changed@)),
            views(body_lines@) == lines(pr_body@),
            lower@ == lowercase(pr_body@),
            string_views(violations@) == first + areas_violations(
                areas@,
                pr_body@,
                has_adr,
                accepted,
                k as int,
            ),
        decreases areas.len() - k,
    {
        let area = areas[k];
        let ghost before = string_views(violations@);
        let checked = box_checked(&body_lines, area.box_marker());
        proof {
            assert(checked == box_is_checked(pr_body@, area.marker()));
        }
        if area.is_hard() {
            let ghost v0 = string_views(violations@);
            if area != Area::GateSelf && !checked && !accepted {
                let parts = [
                    "changed ",
                    area.label(),
                    " but the matching Contract-impact box is unchecked",
                ];
                let msg = message(&parts);
                violations.push(msg);
                proof {
                    reveal_with_fuel(concat_views, 4);
                    assert(string_views(violations@) =~= v0.push(msg@));
                }
            }
            let ghost v1 = string_views(violations@);
            if !has_adr {
                let parts = [
                    "changed ",
                    area.label(),
                    " but no ADR under decisions/ is included",
                ];
                let msg = message(&parts);
                violations.push(msg);
                proof {
                    reveal_with_fuel(concat_views, 4);
                    assert(string_views(violations@) =~= v1.push(msg@));
                }
            }
            proof {
                assert(string_views(violations@) =~= before + area_violations(
                    area,
                    pr_body@,
                    has_adr,
                    accepted,
                ));
            }
        } else {
            let declared = checked || declares_no_change(
                lower.as_slice(),
                area.declaration_token(),
            ) || accepted;
            if !declared {
                let parts = [
                    "touched ",
                    area.label(),
                    " \u{2014} declare contract impact (check the box) or add `no ",
                    area.declaration_token(),
                    " semantics change`",
                ];
                let msg = message(&parts);
                violations.push(msg);
                proof {
                    reveal_with_fuel(concat_views, 6);
                    assert(string_views(violations@) =~= before.push(msg@));
                }
            }
            proof {
                assert(string_views(violations@) =~= before + area_violations(
                    area,
                    pr_body@,
                    has_adr,
                    accepted,
                ));
            }
        }
        proof {
            assert(first + areas_violations(areas@, pr_body@, has_adr, accepted, k + 1) =~= (first
                + areas_violations(areas@, pr_body@, has_adr, accepted, k as int))
                + area_violations(areas@[k as int], pr_body@, has_adr, accepted));
        }
        k = k + 1;
    }
    GateResult { violations }
}

// ---------------------------------------------------------------------------
// Gate inputs
// ---------------------------------------------------------------------------

/// The PR body of a GitHub event payload: the string at
/// `/pull_request/body`, or the empty text when there is none or it is not
/// a string.
pub open spec fn event_pr_body(doc: JsonModel) -> Seq<char> {
    match field(doc, "pull_request"@) {
        Some(pr) => match field(pr, "body"@) {
            Some(JsonModel::Str(b)) => b,
            _ => Seq::empty(),
        },
        None => Seq::empty(),
    }
}

/// The PR body of the GitHub event payload `event_json`; the parser's
/// message when the payload is not JSON.
pub fn pr_body_of_event(event_json: &str) -> (r: Result<String, String>)
    ensures
        match r {
            Ok(b) => serde_json_document(event_json@) matches Ok(doc) && b@ == event_pr_body(doc),
            Err(m) => serde_json_document(event_json@) == Err::<JsonModel, Seq<char>>(m@),
        },
{
    match parse_json_document(event_json) {
        Err(m) => Err(m),
        Ok(event) => {
            let body = match event.get("pull_request") {
                Some(pr) => match pr.get("body") {
                    Some(JsonValue::Str(b)) => Some(b.clone()),
                    _ => None,
                },
                None => None,
            };
            match body {
                Some(b) => Ok(b),
                None => {
                    let empty = String::new();
                    proof {
                        assert(empty@ =~= Seq::<char>::empty());
                    }
                    Ok(empty)
                },
            }
        },
    }
}

/// The path of the version registry, whose MVP-critical key changes are
/// computed.
pub open spec fn versions_path() -> Seq<char> {
    "tools/versions.toml"@
}

/// `changed` describes the files named one per line in `names` (as
/// `str::lines` splits them), in order: each with its path, and, for the
/// version registry only, the MVP-critical keys whose value differs between
/// `base_versions` and `head_versions`.
pub open spec fn changed_files_match(
    changed: Seq<ChangedFile>,
    names: Seq<char>,
    base_versions: Seq<char>,
    head_versions: Seq<char>,
) -> bool {
    &&& changed.len() == lines(names).len()
    &&& forall|i: int|
        0 <= i < changed.len() ==> {
            &&& (#[trigger] changed[i]).path@ == lines(names)[i]
            &&& string_views(changed[i].changed_version_keys@) == if changed[i].path@
                == versions_path() {
                changed_keys(base_versions, head_versions, mvp_keys().len() as int)
            } else {
                Seq::empty()
            }
        }
}

/// Whether the diff names the version registry among its lines (so its
/// base and head texts are needed).
pub fn diff_names_versions(names: &str) -> (b: bool)
    ensures
        b == lines(names@).contains(versions_path()),
{
    let cs = chars_of(names);
    let ls = lines_exec(cs.as_slice());
    let mut i: usize = 0;
    while i < ls.len()
        invariant
            i <= ls@.len(),
            views(ls@) == lines(names@),
            forall|k: int| 0 <= k < i ==> #[trigger] lines(names@)[k] != versions_path(),
        decreases ls.len() - i,
    {
        let line = string_from(ls[i].as_slice());
        proof {
            assert(views(ls@)[i as int] == ls@[i as int]@);
        }
        if str_eq(line.as_str(), "tools/versions.toml") {
            proof {
                assert(lines(names@)[i as int] == versions_path());
            }
            return true;
        }
        i = i + 1;
    }
    false
}

/// The changed files of a diff: `names` is the `git diff --name-only`
/// output, `base_versions` and `head_versions` the base and head texts of
/// `tools/versions.toml`.
pub fn changed_files_of_diff(names: &str, base_versions: &str, head_versions: &str) -> (r: Vec<
    ChangedFile,
>)
    ensures
        changed_files_match(r@, names@, base_versions@, head_versions@),
{
    let cs = chars_of(names);
    let ls = lines_exec(cs.as_slice());
    let mut out: Vec<ChangedFile> = Vec::new();
    let mut i: usize = 0;
    while i < ls.len()
        invariant
            i <= ls@.len(),
            views(ls@) == lines(names@),
            cs@ == names@,
            out@.len() == i,
            forall|k: int|
                0 <= k < i ==> {
                    &&& (#[trigger] out@[k]).path@ == lines(names@)[k]
                    &&& string_views(out@[k].changed_version_keys@) == if out@[k].path@
                        == versions_path() {
                        changed_keys(base_versions@, head_versions@, mvp_keys().len() as int)
                    } else {
                        Seq::empty()
                    }
                },
        decreases ls.len() - i,
    {
        let path = string_from(ls[i].as_slice());
        proof {
            assert(views(ls@)[i as int] == ls@[i as int]@);
        }
        let keys: Vec<String> = if str_eq(path.as_str(), "tools/versions.toml") {
            changed_version_keys(base_versions, head_versions)
        } else {
            let none: Vec<String> = Vec::new();
            proof {
                assert(string_views(none@) =~= Seq::<Seq<char>>::empty());
            }
            none
        };
        out.push(ChangedFile { path, changed_version_keys: keys });
        i = i + 1;
    }
    out
}

} // verus!

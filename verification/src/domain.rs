//! Shared domain model: normalized issues, run attempts, workspace keys.
use vstd::prelude::*;

use crate::text::{char_is_ascii_alnum, chars_of, is_ascii_alnum, push_char, string_from};

verus! {

/// Normalized issue record used by orchestration, prompt rendering, and
/// observability.
#[derive(Debug, Clone, PartialEq, Eq)]
pub struct Issue {
    pub id: String,
    pub identifier: String,
    pub title: String,
    pub description: Option<String>,
    pub priority: Option<i64>,
    pub state: String,
    pub branch_name: Option<String>,
    pub url: Option<String>,
    pub labels: Vec<String>,
    pub blocked_by: Vec<BlockerRef>,
    pub created_at: Option<String>,
    pub updated_at: Option<String>,
}

#[derive(Debug, Clone, PartialEq, Eq)]
pub struct BlockerRef {
    pub id: Option<String>,
    pub identifier: Option<String>,
    pub state: Option<String>,
}

#[derive(Debug, Clone, PartialEq, Eq)]
pub struct RunAttempt {
    pub issue_id: String,
    pub issue_identifier: String,
    pub attempt: Option<u32>,
    pub workspace_path: String,
    pub started_at: Option<String>,
    pub status: RunStatus,
    pub error: Option<String>,
}

#[derive(Debug, Clone, Copy, PartialEq, Eq)]
pub enum RunStatus {
    Pending,
    Starting,
    Running,
    Completed,
    Retrying,
    Stopped,
    Failed,
}

/// A copy of an optional string with the same value.
pub fn dup_opt_string(s: &Option<String>) -> (r: Option<String>)
    ensures
        r == *s,
{
    match s {
        Some(v) => Some(v.clone()),
        None => None,
    }
}

/// A copy of a vector of strings with the same values.
pub fn dup_strings(v: &Vec<String>) -> (r: Vec<String>)
    ensures
        r@ == v@,
{
    let mut r: Vec<String> = Vec::new();
    let mut i: usize = 0;
    while i < v.len()
        invariant
            i <= v.len(),
            r@ == v@.take(i as int),
        decreases v.len() - i,
    {
        r.push(v[i].clone());
        assert(v@.take(i as int).push(v@[i as int]) =~= v@.take(i + 1));
        i = i + 1;
    }
    assert(v@.take(v.len() as int) =~= v@);
    r
}

impl BlockerRef {
    /// A copy of this blocker reference.
    pub fn duplicate(&self) -> (r: BlockerRef)
        ensures
            r == *self,
    {
        BlockerRef {
            id: dup_opt_string(&self.id),
            identifier: dup_opt_string(&self.identifier),
            state: dup_opt_string(&self.state),
        }
    }
}

/// A copy of a vector of blocker references.
pub fn dup_blockers(v: &Vec<BlockerRef>) -> (r: Vec<BlockerRef>)
    ensures
        r@ == v@,
{
    let mut r: Vec<BlockerRef> = Vec::new();
    let mut i: usize = 0;
    while i < v.len()
        invariant
            i <= v.len(),
            r@ == v@.take(i as int),
        decreases v.len() - i,
    {
        r.push(v[i].duplicate());
        assert(v@.take(i as int).push(v@[i as int]) =~= v@.take(i + 1));
        i = i + 1;
    }
    assert(v@.take(v.len() as int) =~= v@);
    r
}

/// Two issues carry the same field values (vectors compared by contents).
pub open spec fn same_issue(a: Issue, b: Issue) -> bool {
    &&& a.id == b.id
    &&& a.identifier == b.identifier
    &&& a.title == b.title
    &&& a.description == b.description
    &&& a.priority == b.priority
    &&& a.state == b.state
    &&& a.branch_name == b.branch_name
    &&& a.url == b.url
    &&& a.labels@ == b.labels@
    &&& a.blocked_by@ == b.blocked_by@
    &&& a.created_at == b.created_at
    &&& a.updated_at == b.updated_at
}

impl Issue {
    /// A copy of this issue with identical fields.
    pub fn duplicate(&self) -> (r: Issue)
        ensures
            same_issue(r, *self),
    {
        Issue {
            id: self.id.clone(),
            identifier: self.identifier.clone(),
            title: self.title.clone(),
            description: dup_opt_string(&self.description),
            priority: self.priority,
            state: self.state.clone(),
            branch_name: dup_opt_string(&self.branch_name),
            url: dup_opt_string(&self.url),
            labels: dup_strings(&self.labels),
            blocked_by: dup_blockers(&self.blocked_by),
            created_at: dup_opt_string(&self.created_at),
            updated_at: dup_opt_string(&self.updated_at),
        }
    }
}

impl RunAttempt {
    /// A copy of this attempt with identical fields.
    pub fn duplicate(&self) -> (r: RunAttempt)
        ensures
            r == *self,
    {
        RunAttempt {
            issue_id: self.issue_id.clone(),
            issue_identifier: self.issue_identifier.clone(),
            attempt: self.attempt,
            workspace_path: self.workspace_path.clone(),
            started_at: dup_opt_string(&self.started_at),
            status: self.status,
            error: dup_opt_string(&self.error),
        }
    }
}

/// Characters kept verbatim in a workspace key: `[A-Za-z0-9._-]`.
pub open spec fn is_key_char(c: char) -> bool {
    is_ascii_alnum(c) || c == '.' || c == '_' || c == '-'
}

/// A character of the workspace key: itself if allowed, `_` otherwise.
pub open spec fn key_char(c: char) -> char {
    if is_key_char(c) {
        c
    } else {
        '_'
    }
}

/// The deterministic workspace key of an identifier: every character outside
/// `[A-Za-z0-9._-]` becomes `_`; an empty identifier maps to `"_"`.
pub open spec fn spec_workspace_key(identifier: Seq<char>) -> Seq<char> {
    if identifier.len() == 0 {
        seq!['_']
    } else {
        identifier.map_values(|c: char| key_char(c))
    }
}

/// Convert a tracker identifier into a deterministic workspace key.
/// Only `[A-Za-z0-9._-]` is preserved; all other characters are replaced by `_`.
pub fn workspace_key(identifier: &str) -> (key: String)
    ensures
        key@ == spec_workspace_key(identifier@),
{
    let chars = chars_of(identifier);
    let mut out: Vec<char> = Vec::new();
    let mut i: usize = 0;
    while i < chars.len()
        invariant
            i <= chars.len(),
            chars@ == identifier@,
            out@ == chars@.take(i as int).map_values(|c: char| key_char(c)),
        decreases chars.len() - i,
    {
        let c = chars[i];
        let kept = if char_is_ascii_alnum(c) || c == '.' || c == '_' || c == '-' {
            c
        } else {
            '_'
        };
        out.push(kept);
        assert(chars@.take(i + 1).map_values(|c: char| key_char(c)) =~= chars@.take(
            i as int,
        ).map_values(|c: char| key_char(c)).push(key_char(c)));
        i = i + 1;
    }
    assert(chars@.take(chars.len() as int) =~= chars@);
    if out.len() == 0 {
        let mut s = String::new();
        push_char(&mut s, '_');
        assert(s@ =~= seq!['_']);
        s
    } else {
        string_from(out.as_slice())
    }
}

/// Every character of a workspace key is in `[A-Za-z0-9._-]`, and the key is
/// never empty: a key can never name a parent directory through `/`.
pub proof fn lemma_workspace_key_is_safe(identifier: Seq<char>)
    ensures
        spec_workspace_key(identifier).len() > 0,
        forall|i: int|
            0 <= i < spec_workspace_key(identifier).len() ==> is_key_char(
                #[trigger] spec_workspace_key(identifier)[i],
            ),
{
}

/// Keying is idempotent: the key of a key is the key itself.
pub proof fn lemma_workspace_key_idempotent(identifier: Seq<char>)
    ensures
        spec_workspace_key(spec_workspace_key(identifier)) == spec_workspace_key(identifier),
{
    let k = spec_workspace_key(identifier);
    assert(spec_workspace_key(k) =~= k);
}

} // verus!

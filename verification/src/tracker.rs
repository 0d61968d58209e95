//! Linear tracker read model: configuration, error variants, the
//! normalisation of GraphQL issue nodes into `Issue`, the state-pair
//! extraction rules and the pagination decision.
//!
//! The HTTP transport and JSON decoding run in the caller.
use vstd::prelude::*;

use crate::domain::{BlockerRef, Issue};
use crate::json::{field, JsonModel, JsonValue};
use crate::orchestrator::opt_view;

verus! {

#[derive(Debug)]
pub enum TrackerError {
    MissingToken,
    Upstream(String),
    RateLimited(String),
    InvalidResponse(String),
    Transport(String),
}

#[derive(Debug, Clone)]
pub struct LinearClientConfig {
    pub endpoint: String,
    pub project_slug_id: Option<String>,
    pub token_env: String,
    pub page_size: u32,
}

impl Default for LinearClientConfig {
    /// The production endpoint, no project, `LINEAR_API_KEY`, 50 per page.
    fn default() -> (c: LinearClientConfig)
        ensures
            c.endpoint@ == "https://api.linear.app/graphql"@,
            c.project_slug_id is None,
            c.token_env@ == "LINEAR_API_KEY"@,
            c.page_size == 50,
    {
        LinearClientConfig {
            endpoint: "https://api.linear.app/graphql".to_owned(),
            project_slug_id: None,
            token_env: "LINEAR_API_KEY".to_owned(),
            page_size: 50,
        }
    }
}

/// `pageInfo` of a connection page.
#[derive(Debug, Clone)]
pub struct PageInfo {
    pub has_next_page: bool,
    pub end_cursor: Option<String>,
}

/// The cursor to fetch the next page with, or `None` when pagination
/// stops: there is no next page, or no cursor to continue from.
pub fn next_cursor(info: &PageInfo) -> (c: Option<String>)
    ensures
        match c {
            Some(x) => info.has_next_page && info.end_cursor == Some(x),
            None => !info.has_next_page || info.end_cursor is None,
        },
{
    if !info.has_next_page {
        return None;
    }
    crate::domain::dup_opt_string(&info.end_cursor)
}

/// A blocking issue as the tracker reports it.
#[derive(Debug, Clone)]
pub struct BlockerIssue {
    pub id: Option<String>,
    pub identifier: Option<String>,
    /// `state.name`, when the state and its name are present.
    pub state_name: Option<String>,
}

/// One issue node of a GraphQL page, optional fields already defaulted to
/// `None` / empty.
#[derive(Debug, Clone)]
pub struct IssueNode {
    pub id: String,
    pub identifier: String,
    pub title: String,
    pub description: Option<String>,
    pub priority: Option<i64>,
    /// `state.name`, when present.
    pub state_name: Option<String>,
    pub branch_name: Option<String>,
    pub url: Option<String>,
    /// `labels.nodes[].name`.
    pub labels: Vec<String>,
    pub created_at: Option<String>,
    pub updated_at: Option<String>,
    /// `inverseRelations.nodes[].issue`, each possibly absent.
    pub blockers: Vec<Option<BlockerIssue>>,
}

/// The blockers that are present, in order, as `BlockerRef`s.
pub open spec fn present_blockers(nodes: Seq<Option<BlockerIssue>>, n: int) -> Seq<BlockerRef>
    decreases n,
{
    if n <= 0 || n > nodes.len() {
        Seq::empty()
    } else {
        match nodes[n - 1] {
            Some(b) => present_blockers(nodes, n - 1).push(
                BlockerRef { id: b.id, identifier: b.identifier, state: b.state_name },
            ),
            None => present_blockers(nodes, n - 1),
        }
    }
}

/// Normalisation keeps every present blocker and nothing else, in order,
/// each with its own id, identifier and state name: the `j`-th blocker of
/// the result is the node's blocker at index `at[j]`, the indices rise, and
/// every index holding a blocker is among them.
pub proof fn lemma_blockers_kept(nodes: Seq<Option<BlockerIssue>>, n: int) -> (at: Seq<int>)
    requires
        0 <= n <= nodes.len(),
    ensures
        at.len() == present_blockers(nodes, n).len(),
        forall|j: int|
            0 <= j < at.len() ==> 0 <= #[trigger] at[j] < n && (nodes[at[j]] matches Some(b)
                && present_blockers(nodes, n)[j] == BlockerRef {
                id: b.id,
                identifier: b.identifier,
                state: b.state_name,
            }),
        forall|j: int, l: int| 0 <= j < l < at.len() ==> #[trigger] at[j] < #[trigger] at[l],
        forall|k: int|
            0 <= k < n && (#[trigger] nodes[k]) is Some ==> exists|j: int|
                0 <= j < at.len() && at[j] == k,
    decreases n,
{
    if n == 0 {
        Seq::empty()
    } else {
        let prev = lemma_blockers_kept(nodes, n - 1);
        match nodes[n - 1] {
            Some(b) => {
                let at = prev.push(n - 1);
                assert forall|k: int| 0 <= k < n && (#[trigger] nodes[k]) is Some implies exists|
                    j: int,
                | 0 <= j < at.len() && at[j] == k by {
                    if k == n - 1 {
                        assert(at[at.len() - 1] == k);
                    } else {
                        let j = choose|j: int| 0 <= j < prev.len() && prev[j] == k;
                        assert(at[j] == k);
                    }
                }
                at
            },
            None => {
                assert forall|k: int| 0 <= k < n && (#[trigger] nodes[k]) is Some implies exists|
                    j: int,
                | 0 <= j < prev.len() && prev[j] == k by {
                    assert(k != n - 1);
                }
                prev
            },
        }
    }
}

/// Normalise a GraphQL issue node into the orchestrator's `Issue`: a missing
/// state name reads `unknown`, absent blockers are dropped.
pub fn normalize(node: IssueNode) -> (i: Issue)
    ensures
        i.id == node.id,
        i.identifier == node.identifier,
        i.title == node.title,
        i.description == node.description,
        i.priority == node.priority,
        match node.state_name {
            Some(s) => i.state == s,
            None => i.state@ == "unknown"@,
        },
        i.branch_name == node.branch_name,
        i.url == node.url,
        i.labels@ == node.labels@,
        i.blocked_by@ == present_blockers(node.blockers@, node.blockers@.len() as int),
        i.created_at == node.created_at,
        i.updated_at == node.updated_at,
{
    let mut blocked_by: Vec<BlockerRef> = Vec::new();
    let mut k: usize = 0;
    while k < node.blockers.len()
        invariant
            k <= node.blockers@.len(),
            blocked_by@ == present_blockers(node.blockers@, k as int),
        decreases node.blockers.len() - k,
    {
        match &node.blockers[k] {
            Some(b) => {
                blocked_by.push(
                    BlockerRef {
                        id: crate::domain::dup_opt_string(&b.id),
                        identifier: crate::domain::dup_opt_string(&b.identifier),
                        state: crate::domain::dup_opt_string(&b.state_name),
                    },
                );
            },
            None => {},
        }
        k = k + 1;
    }
    let state = match node.state_name {
        Some(s) => s,
        None => "unknown".to_owned(),
    };
    Issue {
        id: node.id,
        identifier: node.identifier,
        title: node.title,
        description: node.description,
        priority: node.priority,
        state,
        branch_name: node.branch_name,
        url: node.url,
        labels: node.labels,
        blocked_by,
        created_at: node.created_at,
        updated_at: node.updated_at,
    }
}

/// The fields of one node of `data.issues.nodes` that the state lookup
/// reads: its `id` and `state.name`, each when present as a string.
#[derive(Debug, Clone)]
pub struct StateNode {
    pub id: Option<String>,
    pub state_name: Option<String>,
}

/// Member `key` of `v`, when `v` is an object whose member is a string.
pub open spec fn str_member_of(v: JsonModel, key: Seq<char>) -> Option<Seq<char>> {
    match field(v, key) {
        Some(JsonModel::Str(t)) => Some(t),
        _ => None,
    }
}

/// The string at `state.name` of a node.
pub open spec fn node_state_name(v: JsonModel) -> Option<Seq<char>> {
    match field(v, "state"@) {
        Some(st) => str_member_of(st, "name"@),
        None => None,
    }
}

/// The nodes at `/issues/nodes` of a state-lookup payload, or why the
/// payload is invalid.
pub open spec fn issues_nodes(payload: JsonModel) -> Result<Seq<JsonModel>, Seq<char>> {
    match field(payload, "issues"@) {
        Some(c) => match field(c, "nodes"@) {
            Some(JsonModel::Array(items)) => Ok(items),
            Some(_) => Err("data.issues.nodes is not an array"@),
            None => Err("missing data.issues.nodes"@),
        },
        None => Err("missing data.issues.nodes"@),
    }
}

fn string_member(v: &JsonValue, key: &str) -> (r: Option<String>)
    ensures
        opt_view(r) == str_member_of(v@, key@),
{
    match v.get(key) {
        Some(JsonValue::Str(t)) => Some(t.clone()),
        _ => None,
    }
}

/// The state nodes of a state-lookup payload: the array at
/// `/issues/nodes`, each node read for its `id` and `state.name` strings.
pub fn state_nodes_of(payload: &JsonValue) -> (r: Result<Vec<StateNode>, TrackerError>)
    ensures
        match issues_nodes(payload@) {
            Err(m) => r matches Err(TrackerError::InvalidResponse(x)) && x@ == m,
            Ok(items) => r matches Ok(v) && v@.len() == items.len() && forall|k: int|
                0 <= k < items.len() ==> opt_view((#[trigger] v@[k]).id) == str_member_of(
                    items[k],
                    "id"@,
                ) && opt_view(v@[k].state_name) == node_state_name(items[k]),
        },
{
    let nodes = match payload.get("issues") {
        Some(c) => c.get("nodes"),
        None => None,
    };
    let nodes = match nodes {
        Some(n) => n,
        None => {
            return Err(TrackerError::InvalidResponse("missing data.issues.nodes".to_owned()));
        },
    };
    let count = match nodes.item_count() {
        Some(c) => c,
        None => {
            return Err(
                TrackerError::InvalidResponse("data.issues.nodes is not an array".to_owned()),
            );
        },
    };
    let ghost items = nodes@->Array_0;
    let mut out: Vec<StateNode> = Vec::new();
    let mut k: usize = 0;
    while k < count
        invariant
            k <= count,
            nodes@ is Array,
            items == nodes@->Array_0,
            items.len() == count,
            out@.len() == k,
            forall|m: int|
                0 <= m < k ==> opt_view((#[trigger] out@[m]).id) == str_member_of(items[m], "id"@)
                    && opt_view(out@[m].state_name) == node_state_name(items[m]),
        decreases count - k,
    {
        let node = match nodes.get_item(k) {
            Some(x) => x,
            None => {
                return Err(
                    TrackerError::InvalidResponse("data.issues.nodes is not an array".to_owned()),
                );
            },
        };
        let id = string_member(node, "id");
        let state_name = match node.get("state") {
            Some(st) => string_member(st, "name"),
            None => None,
        };
        out.push(StateNode { id, state_name });
        k = k + 1;
    }
    Ok(out)
}

/// The `(id, state)` pairs of the nodes in order, or the first node that
/// lacks one of them.
pub open spec fn state_pairs_outcome(nodes: Seq<StateNode>, n: int) -> Result<
    Seq<(Seq<char>, Seq<char>)>,
    Seq<char>,
>
    decreases n,
{
    if n <= 0 || n > nodes.len() {
        Ok(Seq::empty())
    } else {
        match state_pairs_outcome(nodes, n - 1) {
            Err(e) => Err(e),
            Ok(prefix) => match (nodes[n - 1].id, nodes[n - 1].state_name) {
                (None, _) => Err("issue node missing id"@),
                (Some(_), None) => Err("issue node missing state.name"@),
                (Some(i), Some(s)) => Ok(prefix.push((i@, s@))),
            },
        }
    }
}

/// The `(id, state name)` pairs of a state lookup, in order; a node
/// without an id, or without a state name, makes the response invalid.
pub fn extract_state_pairs(nodes: &Vec<StateNode>) -> (r: Result<Vec<(String, String)>, TrackerError>)
    ensures
        match state_pairs_outcome(nodes@, nodes@.len() as int) {
            Ok(pairs) => r matches Ok(v) && v@.len() == pairs.len() && forall|k: int|
                0 <= k < pairs.len() ==> (#[trigger] v@[k]).0@ == pairs[k].0 && v@[k].1@
                    == pairs[k].1,
            Err(m) => r matches Err(TrackerError::InvalidResponse(x)) && x@ == m,
        },
{
    let mut out: Vec<(String, String)> = Vec::new();
    let mut k: usize = 0;
    while k < nodes.len()
        invariant
            k <= nodes@.len(),
            state_pairs_outcome(nodes@, k as int) matches Ok(pairs) && out@.len() == pairs.len()
                && forall|m: int|
                0 <= m < pairs.len() ==> (#[trigger] out@[m]).0@ == pairs[m].0 && out@[m].1@
                    == pairs[m].1,
        decreases nodes.len() - k,
    {
        let node = &nodes[k];
        let id = match &node.id {
            Some(i) => i.clone(),
            None => {
                proof {
                    lemma_state_pairs_err_sticks(nodes@, k as int + 1);
                }
                return Err(TrackerError::InvalidResponse("issue node missing id".to_owned()));
            },
        };
        let state = match &node.state_name {
            Some(s) => s.clone(),
            None => {
                proof {
                    lemma_state_pairs_err_sticks(nodes@, k as int + 1);
                }
                return Err(TrackerError::InvalidResponse("issue node missing state.name".to_owned()));
            },
        };
        out.push((id, state));
        k = k + 1;
    }
    Ok(out)
}

/// Once a prefix fails, every longer prefix fails the same way.
proof fn lemma_state_pairs_err_sticks(nodes: Seq<StateNode>, n: int)
    requires
        0 < n <= nodes.len(),
        state_pairs_outcome(nodes, n) is Err,
    ensures
        state_pairs_outcome(nodes, nodes.len() as int) == state_pairs_outcome(nodes, n),
    decreases nodes.len() - n,
{
    if n < nodes.len() {
        lemma_state_pairs_err_sticks(nodes, n + 1);
    }
}

} // verus!

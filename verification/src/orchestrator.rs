//! Single-authority orchestrator state machine.
//!
//! `RuntimeState` owns the in-memory scheduler state (claimed, running,
//! retry queue, active workflow version). `select_dispatch` is the
//! deterministic candidate selector: it filters candidates with explicit
//! `SkipReason`s, sorts the admitted ones by priority / creation /
//! identifier, and returns at most the remaining capacity of them.
use vstd::prelude::*;

use crate::domain::{same_issue, BlockerRef, Issue, RunAttempt, RunStatus};
use crate::ordering::{
    int_order, lemma_lex_order_antisym, lemma_lex_order_eq, lemma_lex_order_range,
    lemma_lex_order_trans, lex_order, opt_lex_order, order_opt_str, order_str,
};
use crate::strmap::{string_views, StringMap, StringSet};

verus! {

#[derive(Debug)]
pub struct RuntimeState {
    pub poll_interval_ms: u64,
    pub max_concurrent_agents: usize,
    pub running: StringMap<RunningEntry>,
    pub claimed: StringSet,
    pub retry_attempts: StringMap<RetryEntry>,
    /// Active workflow version; `0` means no workflow has been loaded yet and
    /// nothing is dispatched.
    pub workflow_version: u64,
    /// Active state names (workflow `orchestrator.active_states`).
    pub active_states: StringSet,
    /// Terminal state names (workflow `orchestrator.terminal_states`).
    pub terminal_states: StringSet,
}

#[derive(Debug, Clone)]
pub struct RunningEntry {
    pub attempt: RunAttempt,
    pub session_id: Option<String>,
    pub last_event: Option<String>,
}

#[derive(Debug, Clone, PartialEq, Eq)]
pub struct RetryEntry {
    pub issue_id: String,
    pub identifier: String,
    pub attempt: u32,
    pub due_at_ms: u64,
    pub error: Option<String>,
}

/// Documented reason a candidate was filtered out of dispatch.
#[derive(Debug, Clone, PartialEq, Eq)]
pub enum SkipReason {
    /// The orchestrator has not yet loaded a workflow (version 0).
    NoWorkflow,
    /// No dispatch slot is left.
    AtCapacity,
    /// Issue state is not in `active_states`.
    InactiveState { state: String },
    /// Issue state is in `terminal_states`.
    TerminalState { state: String },
    /// Already claimed within this owner.
    AlreadyClaimed,
    /// Already running.
    AlreadyRunning,
    /// In retry queue, retry not yet due.
    RetryPending { due_at_ms: u64 },
    /// Blocked by another unresolved issue.
    BlockedBy { blocker_identifier: String },
}

/// The value of a `SkipReason`, strings taken by their characters.
pub enum SkipReasonModel {
    NoWorkflow,
    AtCapacity,
    InactiveState { state: Seq<char> },
    TerminalState { state: Seq<char> },
    AlreadyClaimed,
    AlreadyRunning,
    RetryPending { due_at_ms: u64 },
    BlockedBy { blocker_identifier: Seq<char> },
}

impl View for SkipReason {
    type V = SkipReasonModel;

    open spec fn view(&self) -> SkipReasonModel {
        match self {
            SkipReason::NoWorkflow => SkipReasonModel::NoWorkflow,
            SkipReason::AtCapacity => SkipReasonModel::AtCapacity,
            SkipReason::InactiveState { state } => SkipReasonModel::InactiveState { state: state@ },
            SkipReason::TerminalState { state } => SkipReasonModel::TerminalState { state: state@ },
            SkipReason::AlreadyClaimed => SkipReasonModel::AlreadyClaimed,
            SkipReason::AlreadyRunning => SkipReasonModel::AlreadyRunning,
            SkipReason::RetryPending { due_at_ms } => SkipReasonModel::RetryPending {
                due_at_ms: *due_at_ms,
            },
            SkipReason::BlockedBy { blocker_identifier } => SkipReasonModel::BlockedBy {
                blocker_identifier: blocker_identifier@,
            },
        }
    }
}

/// One candidate the orchestrator considered. `outcome == None` means the
/// candidate was selected; otherwise the reason it was skipped.
#[derive(Debug, Clone, PartialEq, Eq)]
pub struct CandidateOutcome {
    pub issue_id: String,
    pub identifier: String,
    pub outcome: Option<SkipReason>,
}

/// The value of a `CandidateOutcome`, strings taken by their characters.
pub struct CandidateOutcomeModel {
    pub issue_id: Seq<char>,
    pub identifier: Seq<char>,
    pub outcome: Option<SkipReasonModel>,
}

impl View for CandidateOutcome {
    type V = CandidateOutcomeModel;

    open spec fn view(&self) -> CandidateOutcomeModel {
        CandidateOutcomeModel {
            issue_id: self.issue_id@,
            identifier: self.identifier@,
            outcome: match self.outcome {
                Some(r) => Some(r@),
                None => None,
            },
        }
    }
}

/// Result of `select_dispatch`: the issues to claim, in order, and every
/// candidate the filter rejected.
#[derive(Debug, Clone)]
pub struct DispatchPlan {
    pub to_dispatch: Vec<Issue>,
    pub skipped: Vec<CandidateOutcome>,
}

// ---------------------------------------------------------------------------
// Specification of the selector
// ---------------------------------------------------------------------------

/// The outcome recorded for `issue` when it is skipped for `reason`.
pub open spec fn skip_of(issue: Issue, reason: SkipReasonModel) -> CandidateOutcomeModel {
    CandidateOutcomeModel {
        issue_id: issue.id@,
        identifier: issue.identifier@,
        outcome: Some(reason),
    }
}

/// The state a blocker reports, `""` when it reports none.
pub open spec fn blocker_state(b: BlockerRef) -> Seq<char> {
    match b.state {
        Some(s) => s@,
        None => Seq::empty(),
    }
}

/// The name a blocker is reported under: its identifier, else its id, else
/// `"<unknown>"`.
pub open spec fn blocker_name(b: BlockerRef) -> Seq<char> {
    match b.identifier {
        Some(s) => s@,
        None => match b.id {
            Some(s) => s@,
            None => "<unknown>"@,
        },
    }
}

/// Index of the first blocker at or after `k` whose state is not terminal,
/// or `blockers.len()` when there is none.
pub open spec fn first_unresolved(blockers: Seq<BlockerRef>, terminal: Set<Seq<char>>, k: int) -> int
    decreases blockers.len() - k,
{
    if k < 0 || k >= blockers.len() {
        blockers.len() as int
    } else if !terminal.contains(blocker_state(blockers[k])) {
        k
    } else {
        first_unresolved(blockers, terminal, k + 1)
    }
}

/// The dispatch sort key as a three-way comparison: priority ascending with
/// no priority last, then `created_at` ascending with no date first, then
/// identifier ascending.
pub open spec fn priority_rank(i: Issue) -> int {
    match i.priority {
        Some(p) => p as int,
        None => i64::MAX as int,
    }
}

pub open spec fn opt_view(o: Option<String>) -> Option<Seq<char>> {
    match o {
        Some(s) => Some(s@),
        None => None,
    }
}

pub open spec fn issue_order(a: Issue, b: Issue) -> int {
    let p = int_order(priority_rank(a), priority_rank(b));
    if p != 0 {
        p
    } else {
        let c = opt_lex_order(opt_view(a.created_at), opt_view(b.created_at));
        if c != 0 {
            c
        } else {
            lex_order(a.identifier@, b.identifier@)
        }
    }
}

/// Position where `x` is inserted into the sorted index sequence `s`: after
/// every element that does not sort strictly after it.
pub open spec fn insert_pos(c: Seq<Issue>, s: Seq<int>, x: int, p: int) -> int
    decreases s.len() - p,
{
    if p < 0 || p >= s.len() {
        s.len() as int
    } else if issue_order(c[x], c[s[p]]) < 0 {
        p
    } else {
        insert_pos(c, s, x, p + 1)
    }
}

/// Stable sort of the candidate indices `idx` by `issue_order`.
pub open spec fn sort_indices(c: Seq<Issue>, idx: Seq<int>) -> Seq<int>
    decreases idx.len(),
{
    if idx.len() == 0 {
        Seq::empty()
    } else {
        let s = sort_indices(c, idx.drop_last());
        s.insert(insert_pos(c, s, idx.last(), 0), idx.last())
    }
}

impl RuntimeState {
    /// The first reason `issue` may not be dispatched at time `now_ms`, if
    /// any (workflow presence and capacity aside).
    pub open spec fn skip_reason(&self, issue: Issue, now_ms: u64) -> Option<SkipReasonModel> {
        if self.running@.contains_key(issue.id@) {
            Some(SkipReasonModel::AlreadyRunning)
        } else if self.claimed@.contains(issue.id@) {
            Some(SkipReasonModel::AlreadyClaimed)
        } else if self.terminal_states@.contains(issue.state@) {
            Some(SkipReasonModel::TerminalState { state: issue.state@ })
        } else if !self.active_states@.contains(issue.state@) {
            Some(SkipReasonModel::InactiveState { state: issue.state@ })
        } else if first_unresolved(issue.blocked_by@, self.terminal_states@, 0)
            < issue.blocked_by@.len() {
            Some(
                SkipReasonModel::BlockedBy {
                    blocker_identifier: blocker_name(
                        issue.blocked_by@[first_unresolved(
                            issue.blocked_by@,
                            self.terminal_states@,
                            0,
                        )],
                    ),
                },
            )
        } else if self.retry_attempts@.contains_key(issue.id@)
            && self.retry_attempts@[issue.id@].due_at_ms > now_ms {
            Some(
                SkipReasonModel::RetryPending {
                    due_at_ms: self.retry_attempts@[issue.id@].due_at_ms,
                },
            )
        } else {
            None
        }
    }

    /// Indices (ascending) of the first `n` candidates that pass the filter.
    pub open spec fn admitted(&self, c: Seq<Issue>, now_ms: u64, n: int) -> Seq<int>
        decreases n,
    {
        if n <= 0 {
            Seq::empty()
        } else if self.skip_reason(c[n - 1], now_ms) is None {
            self.admitted(c, now_ms, n - 1).push(n - 1)
        } else {
            self.admitted(c, now_ms, n - 1)
        }
    }

    /// Outcomes of the first `n` candidates that fail the filter, in order.
    pub open spec fn filtered(&self, c: Seq<Issue>, now_ms: u64, n: int) -> Seq<
        CandidateOutcomeModel,
    >
        decreases n,
    {
        if n <= 0 {
            Seq::empty()
        } else {
            match self.skip_reason(c[n - 1], now_ms) {
                Some(r) => self.filtered(c, now_ms, n - 1).push(skip_of(c[n - 1], r)),
                None => self.filtered(c, now_ms, n - 1),
            }
        }
    }

    /// Dispatch slots left: `max_concurrent_agents - claimed`, floored at 0.
    pub open spec fn spec_remaining_capacity(&self) -> int {
        if self.claimed@.len() >= self.max_concurrent_agents {
            0
        } else {
            self.max_concurrent_agents - self.claimed@.len()
        }
    }

    /// Every running issue is also claimed.
    pub open spec fn claims_cover_running(&self) -> bool {
        forall|k: Seq<char>| #[trigger] self.running@.contains_key(k) ==> self.claimed@.contains(k)
    }
}

/// `to_dispatch` and `skipped` are what `select_dispatch` owes for
/// `candidates` at `now_ms`.
pub open spec fn plan_matches(
    st: &RuntimeState,
    candidates: Seq<Issue>,
    now_ms: u64,
    plan: DispatchPlan,
) -> bool {
    if st.workflow_version == 0 {
        &&& plan.to_dispatch@.len() == 0
        &&& plan.skipped@.len() == candidates.len()
        &&& forall|k: int|
            0 <= k < candidates.len() ==> #[trigger] plan.skipped@[k]@ == skip_of(
                candidates[k],
                SkipReasonModel::NoWorkflow,
            )
    } else {
        let sorted = sort_indices(
            candidates,
            st.admitted(candidates, now_ms, candidates.len() as int),
        );
        let cap = st.spec_remaining_capacity();
        let n = if cap < sorted.len() {
            cap
        } else {
            sorted.len() as int
        };
        let early = st.filtered(candidates, now_ms, candidates.len() as int);
        &&& plan.to_dispatch@.len() == n
        &&& forall|k: int|
            0 <= k < n ==> same_issue(#[trigger] plan.to_dispatch@[k], candidates[sorted[k]])
        &&& plan.skipped@.len() == early.len() + (sorted.len() - n)
        &&& forall|k: int| 0 <= k < early.len() ==> #[trigger] plan.skipped@[k]@ == early[k]
        &&& forall|k: int|
            early.len() <= k < plan.skipped@.len() ==> #[trigger] plan.skipped@[k]@ == skip_of(
                candidates[sorted[n + k - early.len()]],
                SkipReasonModel::AtCapacity,
            )
    }
}

// ---------------------------------------------------------------------------
// Laws of the order and of the sort
// ---------------------------------------------------------------------------

pub proof fn lemma_issue_order_antisym(a: Issue, b: Issue)
    ensures
        issue_order(a, b) == -issue_order(b, a),
{
    lemma_lex_order_antisym(a.identifier@, b.identifier@);
    match (opt_view(a.created_at), opt_view(b.created_at)) {
        (Some(x), Some(y)) => lemma_lex_order_antisym(x, y),
        _ => {},
    }
}

pub proof fn lemma_issue_order_trans(a: Issue, b: Issue, c: Issue)
    requires
        issue_order(a, b) <= 0,
        issue_order(b, c) <= 0,
    ensures
        issue_order(a, c) <= 0,
{
    lemma_lex_order_range(a.identifier@, b.identifier@);
    lemma_lex_order_range(b.identifier@, c.identifier@);
    lemma_lex_order_range(a.identifier@, c.identifier@);
    lemma_lex_order_eq(a.identifier@, b.identifier@);
    lemma_lex_order_eq(b.identifier@, c.identifier@);
    if priority_rank(a) == priority_rank(b) && priority_rank(b) == priority_rank(c) {
        let (ca, cb, cc) = (opt_view(a.created_at), opt_view(b.created_at), opt_view(c.created_at));
        match (ca, cb, cc) {
            (Some(x), Some(y), Some(z)) => {
                lemma_lex_order_range(x, y);
                lemma_lex_order_range(y, z);
                lemma_lex_order_range(x, z);
                lemma_lex_order_eq(x, y);
                lemma_lex_order_eq(y, z);
                lemma_lex_order_trans(x, y, z);
                if lex_order(x, y) == 0 && lex_order(y, z) == 0 {
                    lemma_lex_order_eq(x, z);
                    lemma_lex_order_trans(a.identifier@, b.identifier@, c.identifier@);
                } else {
                    lemma_lex_order_eq(x, z);
                    if lex_order(x, z) == 0 {
                        lemma_lex_order_antisym(x, y);
                        lemma_lex_order_antisym(y, z);
                    }
                }
            },
            (None, None, None) => {
                lemma_lex_order_trans(a.identifier@, b.identifier@, c.identifier@);
            },
            (None, None, Some(z)) => {},
            (None, Some(y), Some(z)) => {
                lemma_lex_order_range(y, z);
            },
            (Some(x), Some(y), None) => {
                lemma_lex_order_range(x, y);
            },
            _ => {},
        }
    }
}

/// `s` lists candidate indices in non-decreasing `issue_order`.
pub open spec fn indices_sorted(c: Seq<Issue>, s: Seq<int>) -> bool {
    forall|i: int, j: int|
        0 <= i < j < s.len() ==> issue_order(#[trigger] c[s[i]], #[trigger] c[s[j]]) <= 0
}

/// Every entry of `s` indexes into `c`.
pub open spec fn indices_in(c: Seq<Issue>, s: Seq<int>) -> bool {
    forall|i: int| 0 <= i < s.len() ==> 0 <= #[trigger] s[i] < c.len()
}

proof fn lemma_insert_pos_bounds(c: Seq<Issue>, s: Seq<int>, x: int, p: int)
    requires
        0 <= p <= s.len(),
    ensures
        p <= insert_pos(c, s, x, p) <= s.len(),
        forall|k: int| p <= k < insert_pos(c, s, x, p) ==> issue_order(c[x], c[s[k]]) >= 0,
        insert_pos(c, s, x, p) < s.len() ==> issue_order(c[x], c[s[insert_pos(c, s, x, p)]])
            < 0,
    decreases s.len() - p,
{
    if p < s.len() && issue_order(c[x], c[s[p]]) >= 0 {
        lemma_insert_pos_bounds(c, s, x, p + 1);
    }
}

/// The stable sort yields a sorted permutation of its input: it holds the
/// same indices, each as often, in non-decreasing dispatch order.
pub proof fn lemma_sort_indices_sorted(c: Seq<Issue>, idx: Seq<int>)
    requires
        indices_in(c, idx),
    ensures
        indices_sorted(c, sort_indices(c, idx)),
        indices_in(c, sort_indices(c, idx)),
        sort_indices(c, idx).to_multiset() == idx.to_multiset(),
    decreases idx.len(),
{
    if idx.len() > 0 {
        let rest = idx.drop_last();
        let x = idx.last();
        assert(indices_in(c, rest));
        lemma_sort_indices_sorted(c, rest);
        let s = sort_indices(c, rest);
        let p = insert_pos(c, s, x, 0);
        lemma_insert_pos_bounds(c, s, x, 0);
        let t = s.insert(p, x);
        assert(t == sort_indices(c, idx));
        assert forall|i: int, j: int| 0 <= i < j < t.len() implies issue_order(
            #[trigger] c[t[i]],
            #[trigger] c[t[j]],
        ) <= 0 by {
            if j < p {
                assert(t[i] == s[i] && t[j] == s[j]);
            } else if j == p {
                assert(t[j] == x && t[i] == s[i]);
                lemma_issue_order_antisym(c[x], c[s[i]]);
            } else if i < p {
                assert(t[i] == s[i] && t[j] == s[j - 1]);
            } else if i == p {
                assert(t[i] == x && t[j] == s[j - 1]);
                lemma_issue_order_antisym(c[x], c[s[p]]);
                if j - 1 > p {
                    assert(issue_order(c[s[p]], c[s[j - 1]]) <= 0);
                    lemma_issue_order_trans(c[x], c[s[p]], c[s[j - 1]]);
                }
            } else {
                assert(t[i] == s[i - 1] && t[j] == s[j - 1]);
            }
        }
        assert(rest.push(x) =~= idx);
        vstd::seq_lib::to_multiset_insert(s, p, x);
        vstd::seq_lib::to_multiset_build(rest, x);
    } else {
        assert(idx =~= Seq::<int>::empty());
    }
}

// ---------------------------------------------------------------------------
// Laws of dispatch
// ---------------------------------------------------------------------------

impl RuntimeState {
    proof fn lemma_admitted_pass(&self, c: Seq<Issue>, now_ms: u64, n: int, j: int)
        requires
            0 <= n <= c.len(),
            self.admitted(c, now_ms, n).contains(j),
        ensures
            0 <= j < n,
            self.skip_reason(c[j], now_ms) is None,
        decreases n,
    {
        if n > 0 {
            let prev = self.admitted(c, now_ms, n - 1);
            if self.skip_reason(c[n - 1], now_ms) is None {
                if j != n - 1 {
                    let t = prev.push(n - 1);
                    let k = choose|k: int| 0 <= k < t.len() && #[trigger] t[k] == j;
                    assert(prev[k] == j);
                    self.lemma_admitted_pass(c, now_ms, n - 1, j);
                }
            } else {
                self.lemma_admitted_pass(c, now_ms, n - 1, j);
            }
        }
    }
}

/// A plan never dispatches more issues than there are free slots.
pub proof fn lemma_dispatch_within_capacity(
    st: &RuntimeState,
    candidates: Seq<Issue>,
    now_ms: u64,
    plan: DispatchPlan,
)
    requires
        plan_matches(st, candidates, now_ms, plan),
    ensures
        plan.to_dispatch@.len() <= st.spec_remaining_capacity(),
{
}

/// Every dispatched issue passed the filter: a workflow is loaded, and the
/// issue is neither running nor claimed, its state is active and not
/// terminal, no blocker of it is unresolved and no retry of it is pending.
/// So an issue that is running or claimed is never dispatched again.
pub proof fn lemma_dispatched_are_admitted(
    st: &RuntimeState,
    candidates: Seq<Issue>,
    now_ms: u64,
    plan: DispatchPlan,
    k: int,
)
    requires
        plan_matches(st, candidates, now_ms, plan),
        0 <= k < plan.to_dispatch@.len(),
    ensures
        st.workflow_version != 0,
        st.skip_reason(plan.to_dispatch@[k], now_ms) is None,
        !st.running@.contains_key(plan.to_dispatch@[k].id@),
        !st.claimed@.contains(plan.to_dispatch@[k].id@),
{
    broadcast use vstd::seq_lib::to_multiset_contains;

    let adm = st.admitted(candidates, now_ms, candidates.len() as int);
    st.lemma_admitted_in(candidates, now_ms, candidates.len() as int);
    lemma_sort_indices_sorted(candidates, adm);
    let sorted = sort_indices(candidates, adm);
    let j = sorted[k];
    assert(sorted.contains(j));
    assert(sorted.to_multiset().count(j) > 0);
    assert(adm.contains(j));
    st.lemma_admitted_pass(candidates, now_ms, candidates.len() as int, j);
    assert(same_issue(plan.to_dispatch@[k], candidates[j]));
}

impl RuntimeState {
    /// A candidate that fails the filter is reported among the filtered
    /// outcomes with its reason.
    proof fn lemma_filtered_has(&self, c: Seq<Issue>, now_ms: u64, n: int, k: int, r: SkipReasonModel)
        requires
            0 <= k < n <= c.len(),
            self.skip_reason(c[k], now_ms) == Some(r),
        ensures
            exists|j: int|
                0 <= j < self.filtered(c, now_ms, n).len() && #[trigger] self.filtered(
                    c,
                    now_ms,
                    n,
                )[j] == skip_of(c[k], r),
        decreases n,
    {
        let f = self.filtered(c, now_ms, n);
        if k == n - 1 {
            let j = f.len() - 1;
            assert(f[j] == skip_of(c[k], r));
        } else {
            self.lemma_filtered_has(c, now_ms, n - 1, k, r);
            let prev = self.filtered(c, now_ms, n - 1);
            let j = choose|j: int| 0 <= j < prev.len() && #[trigger] prev[j] == skip_of(c[k], r);
            assert(f[j] == prev[j]);
        }
    }
}

/// An issue is dispatched at most once per owner: once every issue of a
/// plan is claimed (and nothing else changes but more claims), selecting
/// again over the same candidates dispatches none of them, and each
/// candidate with such an id is skipped as `AlreadyClaimed`.
pub proof fn lemma_claimed_not_redispatched(
    s1: &RuntimeState,
    s2: &RuntimeState,
    candidates: Seq<Issue>,
    now_ms: u64,
    plan1: DispatchPlan,
    plan2: DispatchPlan,
)
    requires
        plan_matches(s1, candidates, now_ms, plan1),
        forall|m: int|
            0 <= m < plan1.to_dispatch@.len() ==> s2.claimed@.contains(
                (#[trigger] plan1.to_dispatch@[m]).id@,
            ),
        s2.running@ == s1.running@,
        s2.workflow_version == s1.workflow_version,
        plan_matches(s2, candidates, now_ms, plan2),
    ensures
        forall|m: int, j: int|
            0 <= m < plan1.to_dispatch@.len() && 0 <= j < plan2.to_dispatch@.len() ==> (
            #[trigger] plan1.to_dispatch@[m]).id@ != (#[trigger] plan2.to_dispatch@[j]).id@,
        forall|m: int, k: int|
            0 <= m < plan1.to_dispatch@.len() && 0 <= k < candidates.len() && (
            #[trigger] candidates[k]).id@ == (#[trigger] plan1.to_dispatch@[m]).id@ ==> {
                &&& s2.skip_reason(candidates[k], now_ms) == Some(SkipReasonModel::AlreadyClaimed)
                &&& exists|j: int|
                    0 <= j < plan2.skipped@.len() && #[trigger] plan2.skipped@[j]@ == skip_of(
                        candidates[k],
                        SkipReasonModel::AlreadyClaimed,
                    )
            },
{
    assert forall|m: int, j: int|
        0 <= m < plan1.to_dispatch@.len() && 0 <= j < plan2.to_dispatch@.len() implies (
        #[trigger] plan1.to_dispatch@[m]).id@ != (#[trigger] plan2.to_dispatch@[j]).id@ by {
        lemma_dispatched_are_admitted(s2, candidates, now_ms, plan2, j);
    }
    assert forall|m: int, k: int|
        0 <= m < plan1.to_dispatch@.len() && 0 <= k < candidates.len() && (
        #[trigger] candidates[k]).id@ == (#[trigger] plan1.to_dispatch@[m]).id@ implies {
        &&& s2.skip_reason(candidates[k], now_ms) == Some(SkipReasonModel::AlreadyClaimed)
        &&& exists|j: int|
            0 <= j < plan2.skipped@.len() && #[trigger] plan2.skipped@[j]@ == skip_of(
                candidates[k],
                SkipReasonModel::AlreadyClaimed,
            )
    } by {
        lemma_dispatched_are_admitted(s1, candidates, now_ms, plan1, m);
        assert(s2.claimed@.contains(plan1.to_dispatch@[m].id@));
        assert(!s2.running@.contains_key(candidates[k].id@));
        s2.lemma_filtered_has(
            candidates,
            now_ms,
            candidates.len() as int,
            k,
            SkipReasonModel::AlreadyClaimed,
        );
        let early = s2.filtered(candidates, now_ms, candidates.len() as int);
        let j = choose|j: int|
            0 <= j < early.len() && #[trigger] early[j] == skip_of(
                candidates[k],
                SkipReasonModel::AlreadyClaimed,
            );
        assert(plan2.skipped@[j]@ == early[j]);
    }
}

/// The dispatched issues come in dispatch order: priority ascending (no
/// priority last), then creation time, then identifier.
pub proof fn lemma_dispatch_in_order(
    st: &RuntimeState,
    candidates: Seq<Issue>,
    now_ms: u64,
    plan: DispatchPlan,
    a: int,
    b: int,
)
    requires
        plan_matches(st, candidates, now_ms, plan),
        0 <= a < b < plan.to_dispatch@.len(),
    ensures
        issue_order(plan.to_dispatch@[a], plan.to_dispatch@[b]) <= 0,
{
    let adm = st.admitted(candidates, now_ms, candidates.len() as int);
    st.lemma_admitted_in(candidates, now_ms, candidates.len() as int);
    lemma_sort_indices_sorted(candidates, adm);
    let sorted = sort_indices(candidates, adm);
    assert(same_issue(plan.to_dispatch@[a], candidates[sorted[a]]));
    assert(same_issue(plan.to_dispatch@[b], candidates[sorted[b]]));
    assert(issue_order(candidates[sorted[a]], candidates[sorted[b]]) <= 0);
}

// ---------------------------------------------------------------------------
// Executable state machine
// ---------------------------------------------------------------------------

impl RuntimeState {
    pub fn new(poll_interval_ms: u64, max_concurrent_agents: usize) -> (s: RuntimeState)
        ensures
            s.poll_interval_ms == poll_interval_ms,
            s.max_concurrent_agents == max_concurrent_agents,
            s.running@ == Map::<Seq<char>, RunningEntry>::empty(),
            s.claimed@ == Set::<Seq<char>>::empty(),
            s.retry_attempts@ == Map::<Seq<char>, RetryEntry>::empty(),
            s.workflow_version == 0,
            s.active_states@ == Set::<Seq<char>>::empty(),
            s.terminal_states@ == Set::<Seq<char>>::empty(),
    {
        RuntimeState {
            poll_interval_ms,
            max_concurrent_agents,
            running: StringMap::new(),
            claimed: StringSet::new(),
            retry_attempts: StringMap::new(),
            workflow_version: 0,
            active_states: StringSet::new(),
            terminal_states: StringSet::new(),
        }
    }

    /// Whether another issue may be claimed.
    pub fn has_capacity(&self) -> (b: bool)
        ensures
            b == (self.claimed@.len() < self.max_concurrent_agents),
    {
        self.claimed.len() < self.max_concurrent_agents
    }

    /// In-flight work is counted by `claimed` (a superset of `running`), so a
    /// claim not yet started still consumes a slot.
    pub fn remaining_capacity(&self) -> (n: usize)
        ensures
            n == self.spec_remaining_capacity(),
    {
        self.max_concurrent_agents.saturating_sub(self.claimed.len())
    }

    pub fn is_claimed(&self, issue_id: &str) -> (b: bool)
        ensures
            b == self.claimed@.contains(issue_id@),
    {
        self.claimed.contains(issue_id)
    }

    /// Claim `issue_id`; returns whether it was not claimed before.
    pub fn claim(&mut self, issue_id: &str) -> (fresh: bool)
        ensures
            final(self).claimed@ == old(self).claimed@.insert(issue_id@),
            fresh == !old(self).claimed@.contains(issue_id@),
            final(self).running@ == old(self).running@,
            final(self).retry_attempts@ == old(self).retry_attempts@,
            final(self).workflow_version == old(self).workflow_version,
            final(self).max_concurrent_agents == old(self).max_concurrent_agents,
            final(self).poll_interval_ms == old(self).poll_interval_ms,
            final(self).active_states@ == old(self).active_states@,
            final(self).terminal_states@ == old(self).terminal_states@,
            old(self).claims_cover_running() ==> final(self).claims_cover_running(),
    {
        let owned: String = issue_id.to_owned();
        self.claimed.insert(owned)
    }

    /// Record `issue_id` as claimed and running; the stored attempt carries
    /// status `Running` whatever status it came with.
    pub fn start_run(&mut self, issue_id: String, attempt: RunAttempt)
        ensures
            final(self).claimed@ == old(self).claimed@.insert(issue_id@),
            final(self).running@ == old(self).running@.insert(
                issue_id@,
                RunningEntry {
                    attempt: RunAttempt { status: RunStatus::Running, ..attempt },
                    session_id: None,
                    last_event: None,
                },
            ),
            final(self).retry_attempts@ == old(self).retry_attempts@,
            final(self).workflow_version == old(self).workflow_version,
            final(self).max_concurrent_agents == old(self).max_concurrent_agents,
            final(self).poll_interval_ms == old(self).poll_interval_ms,
            final(self).active_states@ == old(self).active_states@,
            final(self).terminal_states@ == old(self).terminal_states@,
            old(self).claims_cover_running() ==> final(self).claims_cover_running(),
    {
        let key = issue_id.clone();
        self.claimed.insert(key);
        let entry = RunningEntry {
            attempt: RunAttempt { status: RunStatus::Running, ..attempt },
            session_id: None,
            last_event: None,
        };
        self.running.insert(issue_id, entry);
    }

    /// Release `issue_id` from both `running` and `claimed`.
    pub fn complete_run(&mut self, issue_id: &str)
        ensures
            final(self).running@ == old(self).running@.remove(issue_id@),
            final(self).claimed@ == old(self).claimed@.remove(issue_id@),
            final(self).retry_attempts@ == old(self).retry_attempts@,
            final(self).workflow_version == old(self).workflow_version,
            final(self).max_concurrent_agents == old(self).max_concurrent_agents,
            final(self).poll_interval_ms == old(self).poll_interval_ms,
            final(self).active_states@ == old(self).active_states@,
            final(self).terminal_states@ == old(self).terminal_states@,
            old(self).claims_cover_running() ==> final(self).claims_cover_running(),
    {
        self.running.remove(issue_id);
        self.claimed.remove(issue_id);
    }

    /// Queue (or replace) the retry entry of `entry.issue_id`.
    pub fn enqueue_retry(&mut self, entry: RetryEntry)
        ensures
            final(self).retry_attempts@ == old(self).retry_attempts@.insert(
                entry.issue_id@,
                entry,
            ),
            final(self).running@ == old(self).running@,
            final(self).claimed@ == old(self).claimed@,
            final(self).workflow_version == old(self).workflow_version,
            final(self).max_concurrent_agents == old(self).max_concurrent_agents,
            final(self).poll_interval_ms == old(self).poll_interval_ms,
            final(self).active_states@ == old(self).active_states@,
            final(self).terminal_states@ == old(self).terminal_states@,
            old(self).claims_cover_running() ==> final(self).claims_cover_running(),
    {
        let key = entry.issue_id.clone();
        self.retry_attempts.insert(key, entry);
    }

    /// Adopt a freshly-loaded workflow: its version and state sets replace
    /// the current ones.
    pub fn adopt_workflow(
        &mut self,
        version: u64,
        active_states: Vec<String>,
        terminal_states: Vec<String>,
    )
        ensures
            final(self).workflow_version == version,
            final(self).active_states@ == string_views(active_states@).to_set(),
            final(self).terminal_states@ == string_views(terminal_states@).to_set(),
            final(self).running@ == old(self).running@,
            final(self).claimed@ == old(self).claimed@,
            final(self).retry_attempts@ == old(self).retry_attempts@,
            final(self).max_concurrent_agents == old(self).max_concurrent_agents,
            final(self).poll_interval_ms == old(self).poll_interval_ms,
            old(self).claims_cover_running() ==> final(self).claims_cover_running(),
    {
        self.workflow_version = version;
        self.active_states = StringSet::from_strings(active_states.as_slice());
        self.terminal_states = StringSet::from_strings(terminal_states.as_slice());
    }

    /// `classify`'s blocker check: the first unresolved blocker at or after
    /// index 0, if any.
    fn first_unresolved_blocker(&self, blockers: &Vec<BlockerRef>) -> (r: usize)
        ensures
            r == first_unresolved(blockers@, self.terminal_states@, 0),
    {
        let mut k: usize = 0;
        while k < blockers.len()
            invariant
                k <= blockers@.len(),
                first_unresolved(blockers@, self.terminal_states@, 0) == first_unresolved(
                    blockers@,
                    self.terminal_states@,
                    k as int,
                ),
            decreases blockers.len() - k,
        {
            let resolved = match &blockers[k].state {
                Some(s) => self.terminal_states.contains(s.as_str()),
                None => self.terminal_states.contains(""),
            };
            proof {
                assert(""@ == Seq::<char>::empty()) by {
                    reveal_strlit("");
                }
            }
            if !resolved {
                return k;
            }
            k = k + 1;
        }
        k
    }

    /// The first reason `issue` may not be dispatched, in the documented
    /// order: running, claimed, terminal, inactive, blocked, retry pending.
    fn classify(&self, issue: &Issue, now_ms: u64) -> (r: Option<SkipReason>)
        ensures
            match r {
                Some(x) => self.skip_reason(*issue, now_ms) == Some(x@),
                None => self.skip_reason(*issue, now_ms) is None,
            },
    {
        if self.running.contains_key(issue.id.as_str()) {
            return Some(SkipReason::AlreadyRunning);
        }
        if self.claimed.contains(issue.id.as_str()) {
            return Some(SkipReason::AlreadyClaimed);
        }
        if self.terminal_states.contains(issue.state.as_str()) {
            return Some(SkipReason::TerminalState { state: issue.state.clone() });
        }
        if !self.active_states.contains(issue.state.as_str()) {
            return Some(SkipReason::InactiveState { state: issue.state.clone() });
        }
        let k = self.first_unresolved_blocker(&issue.blocked_by);
        if k < issue.blocked_by.len() {
            let b = &issue.blocked_by[k];
            let name = match &b.identifier {
                Some(s) => s.clone(),
                None => match &b.id {
                    Some(s) => s.clone(),
                    None => "<unknown>".to_owned(),
                },
            };
            return Some(SkipReason::BlockedBy { blocker_identifier: name });
        }
        match self.retry_attempts.get(issue.id.as_str()) {
            Some(retry) => {
                if retry.due_at_ms > now_ms {
                    return Some(SkipReason::RetryPending { due_at_ms: retry.due_at_ms });
                }
            },
            None => {},
        }
        None
    }

    /// Deterministic candidate filter + sort + capacity slice.
    ///
    /// Filter order matters because `SkipReason` is operator-facing: the
    /// first reason that applies is reported. Admitted candidates are sorted
    /// by priority ascending (no priority last), then `created_at` ascending,
    /// then identifier; ties keep candidate order. The first
    /// `remaining_capacity()` of them are dispatched; the rest are skipped as
    /// `AtCapacity`.
    pub fn select_dispatch(&self, candidates: &[Issue], now_ms: u64) -> (plan: DispatchPlan)
        ensures
            plan_matches(self, candidates@, now_ms, plan),
    {
        let mut to_dispatch: Vec<Issue> = Vec::new();
        let mut skipped: Vec<CandidateOutcome> = Vec::new();
        if self.workflow_version == 0 {
            let mut i: usize = 0;
            while i < candidates.len()
                invariant
                    i <= candidates@.len(),
                    skipped@.len() == i,
                    forall|k: int|
                        0 <= k < i ==> #[trigger] skipped@[k]@ == skip_of(
                            candidates@[k],
                            SkipReasonModel::NoWorkflow,
                        ),
                decreases candidates.len() - i,
            {
                skipped.push(
                    CandidateOutcome {
                        issue_id: candidates[i].id.clone(),
                        identifier: candidates[i].identifier.clone(),
                        outcome: Some(SkipReason::NoWorkflow),
                    },
                );
                i = i + 1;
            }
            return DispatchPlan { to_dispatch, skipped };
        }
        // Step 1: per-issue admission filter.
        let mut admitted: Vec<usize> = Vec::new();
        let mut i: usize = 0;
        while i < candidates.len()
            invariant
                i <= candidates@.len(),
                admitted@.map_values(|x: usize| x as int) == self.admitted(
                    candidates@,
                    now_ms,
                    i as int,
                ),
                skipped@.len() == self.filtered(candidates@, now_ms, i as int).len(),
                forall|k: int|
                    0 <= k < skipped@.len() ==> #[trigger] skipped@[k]@ == self.filtered(
                        candidates@,
                        now_ms,
                        i as int,
                    )[k],
            decreases candidates.len() - i,
        {
            let ghost before = admitted@.map_values(|x: usize| x as int);
            match self.classify(&candidates[i], now_ms) {
                Some(reason) => {
                    skipped.push(
                        CandidateOutcome {
                            issue_id: candidates[i].id.clone(),
                            identifier: candidates[i].identifier.clone(),
                            outcome: Some(reason),
                        },
                    );
                },
                None => {
                    admitted.push(i);
                    assert(admitted@.map_values(|x: usize| x as int) =~= before.push(i as int));
                },
            }
            i = i + 1;
        }
        // Step 2: deterministic stable sort of the admitted indices.
        let ghost adm = self.admitted(candidates@, now_ms, candidates@.len() as int);
        proof {
            self.lemma_admitted_in(candidates@, now_ms, candidates@.len() as int);
            assert forall|m: int| 0 <= m < admitted@.len() implies #[trigger] admitted@[m]
                < candidates@.len() by {
                assert(adm[m] == admitted@[m] as int);
            }
        }
        let order = sort_admitted(candidates, &admitted);
        let ghost sorted = sort_indices(candidates@, adm);
        // Step 3: capacity slice.
        let cap = self.remaining_capacity();
        let ghost early_len = skipped@.len();
        let ghost early = self.filtered(candidates@, now_ms, candidates@.len() as int);
        let ghost n: int = if cap < sorted.len() {
            cap as int
        } else {
            sorted.len() as int
        };
        proof {
            lemma_sort_indices_sorted(candidates@, adm);
        }
        let mut k: usize = 0;
        while k < order.len()
            invariant
                order@.map_values(|x: usize| x as int) == sorted,
                indices_in(candidates@, sorted),
                cap == self.spec_remaining_capacity(),
                n == (if cap < sorted.len() {
                    cap as int
                } else {
                    sorted.len() as int
                }),
                k <= order@.len(),
                to_dispatch@.len() == (if k < cap {
                    k as int
                } else {
                    cap as int
                }),
                forall|m: int|
                    0 <= m < to_dispatch@.len() ==> same_issue(
                        #[trigger] to_dispatch@[m],
                        candidates@[sorted[m]],
                    ),
                early_len == early.len(),
                skipped@.len() == early_len + (if k < cap {
                    0
                } else {
                    k - cap
                }),
                forall|m: int| 0 <= m < early_len ==> #[trigger] skipped@[m]@ == early[m],
                forall|m: int|
                    early_len <= m < skipped@.len() ==> #[trigger] skipped@[m]@ == skip_of(
                        candidates@[sorted[n + m - early_len]],
                        SkipReasonModel::AtCapacity,
                    ),
            decreases order.len() - k,
        {
            let idx = order[k];
            assert(sorted[k as int] == idx as int);
            if k < cap {
                to_dispatch.push(candidates[idx].duplicate());
            } else {
                skipped.push(
                    CandidateOutcome {
                        issue_id: candidates[idx].id.clone(),
                        identifier: candidates[idx].identifier.clone(),
                        outcome: Some(SkipReason::AtCapacity),
                    },
                );
            }
            k = k + 1;
        }
        DispatchPlan { to_dispatch, skipped }
    }

    proof fn lemma_admitted_in(&self, c: Seq<Issue>, now_ms: u64, n: int)
        requires
            0 <= n <= c.len(),
        ensures
            indices_in(c, self.admitted(c, now_ms, n)),
        decreases n,
    {
        if n > 0 {
            self.lemma_admitted_in(c, now_ms, n - 1);
        }
    }
}

/// Whether candidate `a` sorts strictly before candidate `b`.
fn issue_before(a: &Issue, b: &Issue) -> (r: bool)
    ensures
        r == (issue_order(*a, *b) < 0),
{
    let pa: i64 = match a.priority {
        Some(p) => p,
        None => i64::MAX,
    };
    let pb: i64 = match b.priority {
        Some(p) => p,
        None => i64::MAX,
    };
    if pa < pb {
        return true;
    }
    if pa > pb {
        return false;
    }
    let c = order_opt_str(&a.created_at, &b.created_at);
    if c != 0 {
        return c < 0;
    }
    order_str(a.identifier.as_str(), b.identifier.as_str()) < 0
}

/// Stable insertion sort of the admitted candidate indices.
fn sort_admitted(candidates: &[Issue], admitted: &Vec<usize>) -> (order: Vec<usize>)
    requires
        forall|i: int| 0 <= i < admitted@.len() ==> #[trigger] admitted@[i] < candidates@.len(),
    ensures
        order@.map_values(|x: usize| x as int) == sort_indices(
            candidates@,
            admitted@.map_values(|x: usize| x as int),
        ),
        forall|i: int| 0 <= i < order@.len() ==> #[trigger] order@[i] < candidates@.len(),
{
    let ghost all = admitted@.map_values(|x: usize| x as int);
    let mut order: Vec<usize> = Vec::new();
    let mut i: usize = 0;
    while i < admitted.len()
        invariant
            i <= admitted@.len(),
            all == admitted@.map_values(|x: usize| x as int),
            forall|m: int| 0 <= m < admitted@.len() ==> #[trigger] admitted@[m] < candidates@.len(),
            order@.map_values(|x: usize| x as int) == sort_indices(
                candidates@,
                all.take(i as int),
            ),
            forall|m: int| 0 <= m < order@.len() ==> #[trigger] order@[m] < candidates@.len(),
        decreases admitted.len() - i,
    {
        let x = admitted[i];
        let ghost s = order@.map_values(|y: usize| y as int);
        let mut p: usize = 0;
        while p < order.len() && !issue_before(&candidates[x], &candidates[order[p]])
            invariant
                p <= order@.len(),
                x < candidates@.len(),
                s == order@.map_values(|y: usize| y as int),
                forall|m: int| 0 <= m < order@.len() ==> #[trigger] order@[m] < candidates@.len(),
                insert_pos(candidates@, s, x as int, 0) == insert_pos(
                    candidates@,
                    s,
                    x as int,
                    p as int,
                ),
            decreases order.len() - p,
        {
            p = p + 1;
        }
        order.insert(p, x);
        proof {
            assert(all.take(i + 1).drop_last() =~= all.take(i as int));
            assert(all.take(i + 1).last() == x as int);
            assert(order@.map_values(|y: usize| y as int) =~= s.insert(p as int, x as int));
        }
        i = i + 1;
    }
    assert(all.take(admitted@.len() as int) =~= all);
    order
}

} // verus!

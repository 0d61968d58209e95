//! Run-lifecycle policy: continuation / retry / stall / reconcile.
//!
//! The policy functions are pure: they take a clock reading and the latest
//! event of a run and return a `LifecycleDecision`, which
//! `RuntimeState::apply_lifecycle` turns into a state change.
use vstd::prelude::*;

use vstd::arithmetic::power2::pow2;

use crate::domain::Issue;
use crate::orchestrator::{RetryEntry, RuntimeState, SkipReasonModel};
use crate::ordering::{sorted_unique, strictly_sorted};
use crate::strmap::{string_views, StringMap, StringSet};

verus! {

/// Cap on retry attempts before a run is given up.
pub const DEFAULT_MAX_RETRIES: u32 = 5;

/// `base * 2^(attempt - 1)` (the exponent capped at 63), saturated at
/// `u64::MAX` and clamped at `cap`; `0` for attempt `0`.
pub open spec fn spec_backoff_delay(attempt: u32, base_ms: u64, cap_ms: u64) -> u64 {
    if attempt == 0 {
        0
    } else {
        let shift: nat = if attempt - 1 > 63 {
            63
        } else {
            (attempt - 1) as nat
        };
        let product = base_ms * pow2(shift);
        let saturated: u64 = if product > u64::MAX {
            u64::MAX
        } else {
            product as u64
        };
        if saturated < cap_ms {
            saturated
        } else {
            cap_ms
        }
    }
}

/// Exponential backoff: `base_ms * 2^(attempt - 1)`, clamped at `cap_ms`.
/// Attempt `1` is the first retry; attempt `0` (no retry yet) waits `0`.
/// The multiplication saturates, so no attempt number overflows.
pub fn backoff_delay_ms(attempt: u32, base_ms: u64, cap_ms: u64) -> (d: u64)
    ensures
        d == spec_backoff_delay(attempt, base_ms, cap_ms),
        d <= cap_ms,
{
    if attempt == 0 {
        return 0;
    }
    let shift: u64 = if attempt - 1 > 63 {
        63
    } else {
        (attempt - 1) as u64
    };
    proof {
        vstd::bits::lemma_u64_pow2_no_overflow(shift as nat);
        vstd::bits::lemma_u64_shl_is_mul(1u64, shift);
    }
    let multiplier: u64 = 1u64 << shift;
    let saturated: u64 = match base_ms.checked_mul(multiplier) {
        Some(p) => p,
        None => u64::MAX,
    };
    if saturated < cap_ms {
        saturated
    } else {
        cap_ms
    }
}

/// A later retry never waits less than an earlier one: the backoff is
/// non-decreasing in the attempt number (and, by its definition, never
/// above the cap).
pub proof fn lemma_backoff_monotone(a1: u32, a2: u32, base_ms: u64, cap_ms: u64)
    requires
        a1 <= a2,
    ensures
        spec_backoff_delay(a1, base_ms, cap_ms) <= spec_backoff_delay(a2, base_ms, cap_ms),
        spec_backoff_delay(a2, base_ms, cap_ms) <= cap_ms,
{
    if a1 > 0 {
        let s1: nat = if a1 - 1 > 63 {
            63
        } else {
            (a1 - 1) as nat
        };
        let s2: nat = if a2 - 1 > 63 {
            63
        } else {
            (a2 - 1) as nat
        };
        assert(s1 <= s2);
        if s1 < s2 {
            vstd::arithmetic::power2::lemma_pow2_strictly_increases(s1, s2);
        }
        assert(pow2(s1) <= pow2(s2));
        vstd::arithmetic::mul::lemma_mul_inequality(pow2(s1) as int, pow2(s2) as int, base_ms as int);
        assert(base_ms * pow2(s1) <= base_ms * pow2(s2)) by {
            vstd::arithmetic::mul::lemma_mul_is_commutative(base_ms as int, pow2(s1) as int);
            vstd::arithmetic::mul::lemma_mul_is_commutative(base_ms as int, pow2(s2) as int);
        }
    }
}

/// What the orchestrator does next with a run.
#[derive(Debug, Clone, PartialEq, Eq)]
pub enum LifecycleDecision {
    /// Normal exit: dispatch again on the next poll tick under
    /// `next_attempt`.
    Continuation { issue_id: String, next_attempt: u32 },
    /// Failure (or stall-induced kill): retry at `due_at_ms`.
    Retry { issue_id: String, attempt: u32, due_at_ms: u64, reason: String },
    /// `attempt > max_retries`: release the slot, do not re-enqueue.
    GiveUp { issue_id: String, attempt: u32 },
    /// The tracker moved the issue into a terminal state: release the slot.
    Cleanup { issue_id: String, terminal_state: String },
}

/// Retry / backoff / stall configuration.
#[derive(Debug, Clone, PartialEq, Eq)]
pub struct LifecyclePolicy {
    pub max_retries: u32,
    pub base_backoff_ms: u64,
    pub backoff_cap_ms: u64,
    /// A run with no progress event in this window is considered stalled.
    pub stall_timeout_ms: u64,
}

impl Default for LifecyclePolicy {
    fn default() -> (p: LifecyclePolicy)
        ensures
            p.max_retries == DEFAULT_MAX_RETRIES,
            p.base_backoff_ms == 1_000,
            p.backoff_cap_ms == 300_000,
            p.stall_timeout_ms == 600_000,
    {
        LifecyclePolicy {
            max_retries: DEFAULT_MAX_RETRIES,
            base_backoff_ms: 1_000,
            backoff_cap_ms: 5 * 60 * 1_000,
            stall_timeout_ms: 10 * 60 * 1_000,
        }
    }
}

/// `a + 1`, saturated at `u32::MAX`.
pub open spec fn next_attempt_of(a: u32) -> u32 {
    if a == u32::MAX {
        u32::MAX
    } else {
        (a + 1) as u32
    }
}

/// `a + b`, saturated at `u64::MAX`.
pub open spec fn sat_add(a: u64, b: u64) -> u64 {
    if a + b > u64::MAX {
        u64::MAX
    } else {
        (a + b) as u64
    }
}

impl LifecyclePolicy {
    /// The decision owed for a failed turn of `issue_id` after
    /// `prior_attempt` attempts, at `now_ms`, for `reason`.
    pub open spec fn failure_decision(
        &self,
        issue_id: Seq<char>,
        prior_attempt: u32,
        now_ms: u64,
        reason: Seq<char>,
        d: LifecycleDecision,
    ) -> bool {
        let next = next_attempt_of(prior_attempt);
        if next > self.max_retries {
            d matches LifecycleDecision::GiveUp { issue_id: id, attempt } && id@ == issue_id
                && attempt == next
        } else {
            d matches LifecycleDecision::Retry { issue_id: id, attempt, due_at_ms, reason: r }
                && id@ == issue_id && attempt == next && due_at_ms == sat_add(
                now_ms,
                spec_backoff_delay(next, self.base_backoff_ms, self.backoff_cap_ms),
            ) && r@ == reason
        }
    }

    /// Normal turn completion: a continuation under the bumped attempt
    /// counter.
    pub fn on_turn_completed(&self, issue_id: &str, prior_attempt: u32) -> (d: LifecycleDecision)
        ensures
            d matches LifecycleDecision::Continuation { issue_id: id, next_attempt }
                && id@ == issue_id@ && next_attempt == next_attempt_of(prior_attempt),
    {
        LifecycleDecision::Continuation {
            issue_id: issue_id.to_owned(),
            next_attempt: prior_attempt.saturating_add(1),
        }
    }

    /// Failure with an error message: bump the attempt counter and schedule
    /// a backoff, or give up once the counter exceeds `max_retries`.
    pub fn on_turn_failed(&self, issue_id: &str, prior_attempt: u32, now_ms: u64, reason: &str) -> (d:
        LifecycleDecision)
        ensures
            self.failure_decision(issue_id@, prior_attempt, now_ms, reason@, d),
    {
        let issue_id: String = issue_id.to_owned();
        let next_attempt = prior_attempt.saturating_add(1);
        if next_attempt > self.max_retries {
            return LifecycleDecision::GiveUp { issue_id, attempt: next_attempt };
        }
        let delay = backoff_delay_ms(next_attempt, self.base_backoff_ms, self.backoff_cap_ms);
        LifecycleDecision::Retry {
            issue_id,
            attempt: next_attempt,
            due_at_ms: now_ms.saturating_add(delay),
            reason: reason.to_owned(),
        }
    }

    /// Stall detected: the same decision as a failure with reason
    /// `"stall"`.
    pub fn on_stall_detected(&self, issue_id: &str, prior_attempt: u32, now_ms: u64) -> (d:
        LifecycleDecision)
        ensures
            self.failure_decision(issue_id@, prior_attempt, now_ms, "stall"@, d),
    {
        self.on_turn_failed(issue_id, prior_attempt, now_ms, "stall")
    }

    /// The tracker moved the issue to a terminal state.
    pub fn on_issue_terminal(&self, issue_id: &str, terminal_state: &str) -> (d: LifecycleDecision)
        ensures
            d matches LifecycleDecision::Cleanup { issue_id: id, terminal_state: t }
                && id@ == issue_id@ && t@ == terminal_state@,
    {
        LifecycleDecision::Cleanup {
            issue_id: issue_id.to_owned(),
            terminal_state: terminal_state.to_owned(),
        }
    }

    /// Whether the last progress is at least `stall_timeout_ms` old at
    /// `now_ms` (a clock that went backwards counts as no time elapsed).
    pub fn is_stalled(&self, now_ms: u64, last_progress_ms: u64) -> (b: bool)
        ensures
            b == ((if now_ms >= last_progress_ms {
                now_ms - last_progress_ms
            } else {
                0
            }) >= self.stall_timeout_ms),
    {
        now_ms.saturating_sub(last_progress_ms) >= self.stall_timeout_ms
    }
}

/// Startup reconcile plan: what to do with each tracker-known issue given
/// the workspaces found on disk.
#[derive(Debug, Clone, PartialEq, Eq)]
pub struct ReconcilePlan {
    /// Active in the tracker with a local workspace: resume tracking.
    pub resume: Vec<String>,
    /// Local workspaces whose issue is terminal or unknown to the tracker.
    pub cleanup: Vec<String>,
    /// Active in the tracker without a local workspace.
    pub fresh: Vec<String>,
}

/// Issues the tracker reports in a non-terminal state.
pub open spec fn is_active_in(
    tracker: Map<Seq<char>, String>,
    terminal: Set<Seq<char>>,
    k: Seq<char>,
) -> bool {
    tracker.contains_key(k) && !terminal.contains(tracker[k]@)
}

pub open spec fn resume_set(
    tracker: Map<Seq<char>, String>,
    local: Set<Seq<char>>,
    terminal: Set<Seq<char>>,
) -> Set<Seq<char>> {
    Set::new(|k: Seq<char>| is_active_in(tracker, terminal, k) && local.contains(k))
}

pub open spec fn fresh_set(
    tracker: Map<Seq<char>, String>,
    local: Set<Seq<char>>,
    terminal: Set<Seq<char>>,
) -> Set<Seq<char>> {
    Set::new(|k: Seq<char>| is_active_in(tracker, terminal, k) && !local.contains(k))
}

pub open spec fn cleanup_set(
    tracker: Map<Seq<char>, String>,
    local: Set<Seq<char>>,
    terminal: Set<Seq<char>>,
) -> Set<Seq<char>> {
    Set::new(|k: Seq<char>| local.contains(k) && !is_active_in(tracker, terminal, k))
}

/// `v` lists exactly the members of `s`, each once, in ascending order.
pub open spec fn lists_sorted(v: Seq<String>, s: Set<Seq<char>>) -> bool {
    strictly_sorted(string_views(v)) && string_views(v).to_set() == s
}

proof fn lemma_contains_push(s: Seq<Seq<char>>, x: Seq<char>, y: Seq<char>)
    ensures
        s.push(x).contains(y) <==> (s.contains(y) || y == x),
{
    if s.push(x).contains(y) && y != x {
        let k = choose|k: int| 0 <= k < s.push(x).len() && s.push(x)[k] == y;
        assert(s[k] == y);
    }
    if s.contains(y) {
        let k = choose|k: int| 0 <= k < s.len() && s[k] == y;
        assert(s.push(x)[k] == y);
    }
    if y == x {
        assert(s.push(x)[s.len() as int] == x);
    }
}

/// Reconcile the tracker's view (`issue_id -> state`) with the workspace
/// keys found on disk. Purely lexical: the plan depends on the three
/// inputs alone.
pub fn reconcile_from_tracker(
    tracker_states: &StringMap<String>,
    local_workspaces: &[String],
    terminal_states: &StringSet,
) -> (plan: ReconcilePlan)
    ensures
        lists_sorted(
            plan.resume@,
            resume_set(
                tracker_states@,
                string_views(local_workspaces@).to_set(),
                terminal_states@,
            ),
        ),
        lists_sorted(
            plan.cleanup@,
            cleanup_set(
                tracker_states@,
                string_views(local_workspaces@).to_set(),
                terminal_states@,
            ),
        ),
        lists_sorted(
            plan.fresh@,
            fresh_set(
                tracker_states@,
                string_views(local_workspaces@).to_set(),
                terminal_states@,
            ),
        ),
{
    broadcast use vstd::seq_lib::group_seq_properties;

    let ghost tracker = tracker_states@;
    let ghost terminal = terminal_states@;
    let ghost local_set = string_views(local_workspaces@).to_set();
    let local = StringSet::from_strings(local_workspaces);
    let keys = tracker_states.key_list();
    let ghost ks = string_views(keys@);
    let mut resume: Vec<String> = Vec::new();
    let mut cleanup: Vec<String> = Vec::new();
    let mut fresh: Vec<String> = Vec::new();
    let mut i: usize = 0;
    while i < keys.len()
        invariant
            i <= keys@.len(),
            ks == string_views(keys@),
            ks.to_set() == tracker.dom(),
            tracker == tracker_states@,
            terminal == terminal_states@,
            local@ == local_set,
            forall|y: Seq<char>|
                #![trigger string_views(resume@).contains(y)]
                string_views(resume@).contains(y) <==> (ks.take(i as int).contains(y)
                    && is_active_in(tracker, terminal, y) && local_set.contains(y)),
            forall|y: Seq<char>|
                #![trigger string_views(fresh@).contains(y)]
                string_views(fresh@).contains(y) <==> (ks.take(i as int).contains(y)
                    && is_active_in(tracker, terminal, y) && !local_set.contains(y)),
            forall|y: Seq<char>|
                #![trigger string_views(cleanup@).contains(y)]
                string_views(cleanup@).contains(y) <==> (ks.take(i as int).contains(y)
                    && !is_active_in(tracker, terminal, y) && local_set.contains(y)),
        decreases keys.len() - i,
    {
        let id = &keys[i];
        proof {
            assert(ks.take(i + 1) =~= ks.take(i as int).push(ks[i as int]));
            assert(ks.contains(ks[i as int]));
            assert(tracker.contains_key(id@));
        }
        let state = match tracker_states.get(id.as_str()) {
            Some(s) => s,
            None => {
                return ReconcilePlan { resume, cleanup, fresh };
            },
        };
        let ghost r0 = string_views(resume@);
        let ghost f0 = string_views(fresh@);
        let ghost c0 = string_views(cleanup@);
        let ghost prefix = ks.take(i as int);
        if terminal_states.contains(state.as_str()) {
            if local.contains(id.as_str()) {
                cleanup.push(id.clone());
                assert(string_views(cleanup@) =~= c0.push(id@));
            }
        } else if local.contains(id.as_str()) {
            resume.push(id.clone());
            assert(string_views(resume@) =~= r0.push(id@));
        } else {
            fresh.push(id.clone());
            assert(string_views(fresh@) =~= f0.push(id@));
        }
        proof {
            assert(ks[i as int] == id@);
            assert forall|y: Seq<char>|
                #![trigger string_views(resume@).contains(y)]
                #![trigger string_views(fresh@).contains(y)]
                #![trigger string_views(cleanup@).contains(y)]
                (string_views(resume@).contains(y) <==> (ks.take(i + 1).contains(y)
                    && is_active_in(tracker, terminal, y) && local_set.contains(y))) && (
                string_views(fresh@).contains(y) <==> (ks.take(i + 1).contains(y)
                    && is_active_in(tracker, terminal, y) && !local_set.contains(y))) && (
                string_views(cleanup@).contains(y) <==> (ks.take(i + 1).contains(y)
                    && !is_active_in(tracker, terminal, y) && local_set.contains(y))) by {
                lemma_contains_push(prefix, id@, y);
                lemma_contains_push(r0, id@, y);
                lemma_contains_push(f0, id@, y);
                lemma_contains_push(c0, id@, y);
                assert(r0.contains(y) <==> (prefix.contains(y) && is_active_in(tracker, terminal, y)
                    && local_set.contains(y)));
                assert(f0.contains(y) <==> (prefix.contains(y) && is_active_in(tracker, terminal, y)
                    && !local_set.contains(y)));
                assert(c0.contains(y) <==> (prefix.contains(y) && !is_active_in(tracker, terminal, y)
                    && local_set.contains(y)));
            }
        }
        i = i + 1;
    }
    proof {
        assert(ks.take(keys@.len() as int) =~= ks);
    }
    let ghost lv = string_views(local_workspaces@);
    let mut j: usize = 0;
    while j < local_workspaces.len()
        invariant
            j <= local_workspaces@.len(),
            lv == string_views(local_workspaces@),
            lv.to_set() == local_set,
            ks.to_set() == tracker.dom(),
            tracker == tracker_states@,
            forall|y: Seq<char>|
                #![trigger string_views(cleanup@).contains(y)]
                string_views(cleanup@).contains(y) <==> ((ks.contains(y) && !is_active_in(
                    tracker,
                    terminal,
                    y,
                ) && local_set.contains(y)) || (lv.take(j as int).contains(y)
                    && !tracker.contains_key(y))),
        decreases local_workspaces.len() - j,
    {
        let ws = &local_workspaces[j];
        let ghost c0 = string_views(cleanup@);
        proof {
            assert(lv.take(j + 1) =~= lv.take(j as int).push(lv[j as int]));
        }
        let ghost prefix = lv.take(j as int);
        if !tracker_states.contains_key(ws.as_str()) {
            cleanup.push(ws.clone());
            assert(string_views(cleanup@) =~= c0.push(ws@));
        }
        proof {
            assert(lv[j as int] == ws@);
            assert forall|y: Seq<char>|
                #![trigger string_views(cleanup@).contains(y)]
                string_views(cleanup@).contains(y) <==> ((ks.contains(y) && !is_active_in(
                    tracker,
                    terminal,
                    y,
                ) && local_set.contains(y)) || (lv.take(j + 1).contains(y)
                    && !tracker.contains_key(y))) by {
                lemma_contains_push(prefix, ws@, y);
                lemma_contains_push(c0, ws@, y);
                assert(c0.contains(y) <==> ((ks.contains(y) && !is_active_in(tracker, terminal, y)
                    && local_set.contains(y)) || (prefix.contains(y) && !tracker.contains_key(y))));
            }
        }
        j = j + 1;
    }
    proof {
        assert(lv.take(local_workspaces@.len() as int) =~= lv);
    }
    let cleanup = sorted_unique(&cleanup);
    let resume = sorted_unique(&resume);
    let fresh = sorted_unique(&fresh);
    proof {
        assert(string_views(resume@).to_set() =~= resume_set(tracker, local_set, terminal));
        assert(string_views(fresh@).to_set() =~= fresh_set(tracker, local_set, terminal));
        assert(string_views(cleanup@).to_set() =~= cleanup_set(tracker, local_set, terminal));
    }
    ReconcilePlan { resume, cleanup, fresh }
}

impl RuntimeState {
    /// The state change `apply_lifecycle` owes for `decision`.
    pub open spec fn lifecycle_applied(
        old_state: RuntimeState,
        new_state: RuntimeState,
        decision: LifecycleDecision,
    ) -> bool {
        &&& new_state.workflow_version == old_state.workflow_version
        &&& new_state.max_concurrent_agents == old_state.max_concurrent_agents
        &&& new_state.poll_interval_ms == old_state.poll_interval_ms
        &&& new_state.active_states@ == old_state.active_states@
        &&& new_state.terminal_states@ == old_state.terminal_states@
        &&& match decision {
            LifecycleDecision::Continuation { issue_id, .. } => {
                &&& new_state.running@ == old_state.running@.remove(issue_id@)
                &&& new_state.claimed@ == old_state.claimed@
                &&& new_state.retry_attempts@ == old_state.retry_attempts@.remove(issue_id@)
            },
            LifecycleDecision::Retry { issue_id, attempt, due_at_ms, reason } => {
                &&& new_state.running@ == old_state.running@.remove(issue_id@)
                &&& new_state.claimed@ == old_state.claimed@
                &&& new_state.retry_attempts@ == old_state.retry_attempts@.insert(
                    issue_id@,
                    RetryEntry {
                        issue_id: issue_id,
                        identifier: issue_id,
                        attempt: attempt,
                        due_at_ms: due_at_ms,
                        error: Some(reason),
                    },
                )
            },
            LifecycleDecision::GiveUp { issue_id, .. } => {
                &&& new_state.running@ == old_state.running@.remove(issue_id@)
                &&& new_state.claimed@ == old_state.claimed@.remove(issue_id@)
                &&& new_state.retry_attempts@ == old_state.retry_attempts@.remove(issue_id@)
            },
            LifecycleDecision::Cleanup { issue_id, .. } => {
                &&& new_state.running@ == old_state.running@.remove(issue_id@)
                &&& new_state.claimed@ == old_state.claimed@.remove(issue_id@)
                &&& new_state.retry_attempts@ == old_state.retry_attempts@.remove(issue_id@)
            },
        }
    }

    /// Apply a `LifecycleDecision`. A continuation and a retry release the
    /// running slot but keep the claim (the next dispatch sees
    /// `AlreadyClaimed` until the retry fires); giving up and cleanup
    /// release the claim too.
    pub fn apply_lifecycle(&mut self, decision: &LifecycleDecision)
        ensures
            RuntimeState::lifecycle_applied(*old(self), *final(self), *decision),
            old(self).claims_cover_running() ==> final(self).claims_cover_running(),
    {
        match decision {
            LifecycleDecision::Continuation { issue_id, .. } => {
                self.running.remove(issue_id.as_str());
                self.retry_attempts.remove(issue_id.as_str());
            },
            LifecycleDecision::Retry { issue_id, attempt, due_at_ms, reason } => {
                self.running.remove(issue_id.as_str());
                self.retry_attempts.insert(
                    issue_id.clone(),
                    RetryEntry {
                        issue_id: issue_id.clone(),
                        identifier: issue_id.clone(),
                        attempt: *attempt,
                        due_at_ms: *due_at_ms,
                        error: Some(reason.clone()),
                    },
                );
            },
            LifecycleDecision::GiveUp { issue_id, .. } => {
                self.running.remove(issue_id.as_str());
                self.claimed.remove(issue_id.as_str());
                self.retry_attempts.remove(issue_id.as_str());
            },
            LifecycleDecision::Cleanup { issue_id, .. } => {
                self.running.remove(issue_id.as_str());
                self.claimed.remove(issue_id.as_str());
                self.retry_attempts.remove(issue_id.as_str());
            },
        }
    }
}

/// The issue a lifecycle decision is about.
pub open spec fn decision_issue(decision: LifecycleDecision) -> Seq<char> {
    match decision {
        LifecycleDecision::Continuation { issue_id, .. } => issue_id@,
        LifecycleDecision::Retry { issue_id, .. } => issue_id@,
        LifecycleDecision::GiveUp { issue_id, .. } => issue_id@,
        LifecycleDecision::Cleanup { issue_id, .. } => issue_id@,
    }
}

/// A continuation or a retry frees the issue's running slot but keeps its
/// claim, and every other claim: so until the retry fires, the next
/// dispatch skips the issue as already claimed. A scheduled retry is queued
/// for the issue with the decision's attempt, due time and reason.
pub proof fn lemma_retry_keeps_claim(
    old_state: RuntimeState,
    new_state: RuntimeState,
    decision: LifecycleDecision,
    issue: Issue,
    now_ms: u64,
)
    requires
        RuntimeState::lifecycle_applied(old_state, new_state, decision),
        decision is Retry || decision is Continuation,
        issue.id@ == decision_issue(decision),
        old_state.claimed@.contains(issue.id@),
    ensures
        forall|x: Seq<char>| new_state.claimed@.contains(x) == old_state.claimed@.contains(x),
        !new_state.running@.contains_key(issue.id@),
        new_state.skip_reason(issue, now_ms) == Some(SkipReasonModel::AlreadyClaimed),
        decision matches LifecycleDecision::Retry { attempt, due_at_ms, reason, .. } ==> {
            &&& new_state.retry_attempts@.contains_key(issue.id@)
            &&& new_state.retry_attempts@[issue.id@].attempt == attempt
            &&& new_state.retry_attempts@[issue.id@].due_at_ms == due_at_ms
            &&& new_state.retry_attempts@[issue.id@].error == Some(reason)
        },
{
}

/// Giving up and cleanup release the issue entirely: it is no longer
/// running, claimed or queued for a retry, and every other claim stays.
pub proof fn lemma_release_drops_claim(
    old_state: RuntimeState,
    new_state: RuntimeState,
    decision: LifecycleDecision,
)
    requires
        RuntimeState::lifecycle_applied(old_state, new_state, decision),
        decision is GiveUp || decision is Cleanup,
    ensures
        !new_state.running@.contains_key(decision_issue(decision)),
        !new_state.claimed@.contains(decision_issue(decision)),
        !new_state.retry_attempts@.contains_key(decision_issue(decision)),
        forall|x: Seq<char>|
            x != decision_issue(decision) ==> new_state.claimed@.contains(x)
                == old_state.claimed@.contains(x),
{
}

} // verus!

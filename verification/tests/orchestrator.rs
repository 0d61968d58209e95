use cadenza::domain::{BlockerRef, Issue, RunAttempt, RunStatus};
use cadenza::orchestrator::{RetryEntry, RuntimeState, SkipReason};


fn issue(id: &str, identifier: &str, state: &str, priority: Option<i64>) -> Issue {
    Issue {
        id: id.into(),
        identifier: identifier.into(),
        title: format!("issue {identifier}"),
        description: None,
        priority,
        state: state.into(),
        branch_name: None,
        url: None,
        labels: vec![],
        blocked_by: vec![],
        created_at: Some("2026-05-22T00:00:00Z".into()),
        updated_at: None,
    }
}

fn state_with(active: &[&str], terminal: &[&str], capacity: usize) -> RuntimeState {
    let mut s = RuntimeState::new(5_000, capacity);
    s.adopt_workflow(
        1,
        active.iter().map(|x| x.to_string()).collect(),
        terminal.iter().map(|x| x.to_string()).collect(),
    );
    s
}

#[test]
fn no_workflow_skips_all_candidates() {
    let s = RuntimeState::new(5_000, 2);
    let plan = s.select_dispatch(&[issue("a", "CAD-1", "todo", Some(1))], 0);
    assert!(plan.to_dispatch.is_empty());
    assert_eq!(plan.skipped.len(), 1);
    assert!(matches!(
        plan.skipped[0].outcome,
        Some(SkipReason::NoWorkflow)
    ));
}

#[test]
fn dispatches_up_to_capacity_in_priority_order() {
    let s = state_with(&["todo"], &["done"], 2);
    let candidates = vec![
        issue("a", "CAD-1", "todo", Some(3)),
        issue("b", "CAD-2", "todo", Some(1)),
        issue("c", "CAD-3", "todo", Some(2)),
    ];
    let plan = s.select_dispatch(&candidates, 0);
    assert_eq!(plan.to_dispatch.len(), 2);
    assert_eq!(plan.to_dispatch[0].identifier, "CAD-2");
    assert_eq!(plan.to_dispatch[1].identifier, "CAD-3");
    assert_eq!(plan.skipped.len(), 1);
    assert!(matches!(
        plan.skipped[0].outcome,
        Some(SkipReason::AtCapacity)
    ));
}

#[test]
fn sort_tiebreaks_by_created_at_then_identifier() {
    let s = state_with(&["todo"], &["done"], 4);
    let mut a = issue("a", "CAD-1", "todo", Some(1));
    let mut b = issue("b", "CAD-2", "todo", Some(1));
    let mut c = issue("c", "CAD-3", "todo", Some(1));
    a.created_at = Some("2026-05-22T10:00:00Z".into());
    b.created_at = Some("2026-05-22T09:00:00Z".into());
    c.created_at = Some("2026-05-22T09:00:00Z".into());
    let plan = s.select_dispatch(&[a, b, c], 0);
    let order: Vec<_> = plan
        .to_dispatch
        .iter()
        .map(|i| i.identifier.clone())
        .collect();
    assert_eq!(order, vec!["CAD-2", "CAD-3", "CAD-1"]);
}

#[test]
fn terminal_state_is_skipped() {
    let s = state_with(&["todo"], &["done"], 2);
    let plan = s.select_dispatch(&[issue("a", "CAD-1", "done", Some(1))], 0);
    assert!(plan.to_dispatch.is_empty());
    assert!(matches!(
        plan.skipped[0].outcome,
        Some(SkipReason::TerminalState { ref state }) if state == "done"
    ));
}

#[test]
fn inactive_state_is_skipped() {
    let s = state_with(&["todo"], &["done"], 2);
    let plan = s.select_dispatch(&[issue("a", "CAD-1", "icebox", Some(1))], 0);
    assert!(plan.to_dispatch.is_empty());
    assert!(matches!(
        plan.skipped[0].outcome,
        Some(SkipReason::InactiveState { ref state }) if state == "icebox"
    ));
}

#[test]
fn already_running_is_skipped_with_no_capacity_consumed() {
    let mut s = state_with(&["todo"], &["done"], 2);
    let attempt = RunAttempt {
        issue_id: "a".into(),
        issue_identifier: "CAD-1".into(),
        attempt: Some(1),
        workspace_path: "/tmp/ws".into(),
        started_at: None,
        status: RunStatus::Running,
        error: None,
    };
    s.start_run("a".into(), attempt);
    let plan = s.select_dispatch(
        &[
            issue("a", "CAD-1", "todo", Some(1)),
            issue("b", "CAD-2", "todo", Some(1)),
        ],
        0,
    );
    assert_eq!(plan.to_dispatch.len(), 1);
    assert_eq!(plan.to_dispatch[0].identifier, "CAD-2");
    let a_skip = plan
        .skipped
        .iter()
        .find(|s| s.identifier == "CAD-1")
        .unwrap();
    assert!(matches!(a_skip.outcome, Some(SkipReason::AlreadyRunning)));
}

#[test]
fn duplicate_dispatch_is_impossible_within_one_owner() {
    let mut s = state_with(&["todo"], &["done"], 2);
    let candidates = vec![
        issue("a", "CAD-1", "todo", Some(1)),
        issue("b", "CAD-2", "todo", Some(1)),
    ];
    let plan_1 = s.select_dispatch(&candidates, 0);
    for issue in &plan_1.to_dispatch {
        s.claim(issue.id.as_str());
    }
    let plan_2 = s.select_dispatch(&candidates, 0);
    assert!(plan_2.to_dispatch.is_empty());
    for outcome in &plan_2.skipped {
        assert!(matches!(outcome.outcome, Some(SkipReason::AlreadyClaimed)));
    }
}

#[test]
fn claimed_but_not_running_consumes_capacity() {
    let mut s = state_with(&["todo"], &["done"], 2);
    s.claim("a");
    s.claim("b");
    let plan = s.select_dispatch(
        &[
            issue("c", "CAD-3", "todo", Some(1)),
            issue("d", "CAD-4", "todo", Some(1)),
        ],
        0,
    );
    assert!(
        plan.to_dispatch.is_empty(),
        "over-dispatched past max_concurrent_agents: {plan:?}",
    );
    for outcome in &plan.skipped {
        assert!(
            matches!(outcome.outcome, Some(SkipReason::AtCapacity)),
            "wrong skip reason for {}: {:?}",
            outcome.identifier,
            outcome.outcome,
        );
    }
}

#[test]
fn retry_due_in_the_future_is_skipped() {
    let mut s = state_with(&["todo"], &["done"], 2);
    s.enqueue_retry(RetryEntry {
        issue_id: "a".into(),
        identifier: "CAD-1".into(),
        attempt: 2,
        due_at_ms: 10_000,
        error: Some("upstream timeout".into()),
    });
    let plan = s.select_dispatch(&[issue("a", "CAD-1", "todo", Some(1))], 5_000);
    assert!(plan.to_dispatch.is_empty());
    assert!(matches!(
        plan.skipped[0].outcome,
        Some(SkipReason::RetryPending { due_at_ms: 10_000 })
    ));
}

#[test]
fn retry_due_in_the_past_is_dispatched() {
    let mut s = state_with(&["todo"], &["done"], 2);
    s.enqueue_retry(RetryEntry {
        issue_id: "a".into(),
        identifier: "CAD-1".into(),
        attempt: 2,
        due_at_ms: 1_000,
        error: None,
    });
    let plan = s.select_dispatch(&[issue("a", "CAD-1", "todo", Some(1))], 5_000);
    assert_eq!(plan.to_dispatch.len(), 1);
}

#[test]
fn blocked_by_unresolved_blocker_is_skipped() {
    let s = state_with(&["todo"], &["done"], 2);
    let mut issue_b = issue("b", "CAD-2", "todo", Some(1));
    issue_b.blocked_by = vec![BlockerRef {
        id: Some("a".into()),
        identifier: Some("CAD-1".into()),
        state: Some("todo".into()),
    }];
    let plan = s.select_dispatch(&[issue_b], 0);
    assert!(plan.to_dispatch.is_empty());
    let outcome = &plan.skipped[0].outcome;
    assert!(matches!(
        outcome,
        Some(SkipReason::BlockedBy { blocker_identifier }) if blocker_identifier == "CAD-1"
    ));
}

#[test]
fn blocked_by_done_blocker_dispatches() {
    let s = state_with(&["todo"], &["done"], 2);
    let mut issue_b = issue("b", "CAD-2", "todo", Some(1));
    issue_b.blocked_by = vec![BlockerRef {
        id: Some("a".into()),
        identifier: Some("CAD-1".into()),
        state: Some("done".into()),
    }];
    let plan = s.select_dispatch(&[issue_b], 0);
    assert_eq!(plan.to_dispatch.len(), 1);
}

#[test]
fn capacity_zero_dispatches_nothing() {
    let s = state_with(&["todo"], &["done"], 0);
    let plan = s.select_dispatch(&[issue("a", "CAD-1", "todo", Some(1))], 0);
    assert!(plan.to_dispatch.is_empty());
    assert!(matches!(
        plan.skipped[0].outcome,
        Some(SkipReason::AtCapacity)
    ));
}

#[test]
fn capacity_one_dispatches_one() {
    let s = state_with(&["todo"], &["done"], 1);
    let plan = s.select_dispatch(
        &[
            issue("a", "CAD-1", "todo", Some(1)),
            issue("b", "CAD-2", "todo", Some(1)),
        ],
        0,
    );
    assert_eq!(plan.to_dispatch.len(), 1);
    assert_eq!(plan.skipped.len(), 1);
    assert!(matches!(
        plan.skipped[0].outcome,
        Some(SkipReason::AtCapacity)
    ));
}

#[test]
fn none_priority_lands_after_prioritised_issues() {
    let s = state_with(&["todo"], &["done"], 3);
    let plan = s.select_dispatch(
        &[
            issue("a", "CAD-1", "todo", None),
            issue("b", "CAD-2", "todo", Some(2)),
            issue("c", "CAD-3", "todo", Some(1)),
        ],
        0,
    );
    let order: Vec<_> = plan
        .to_dispatch
        .iter()
        .map(|i| i.identifier.clone())
        .collect();
    assert_eq!(order, vec!["CAD-3", "CAD-2", "CAD-1"]);
}

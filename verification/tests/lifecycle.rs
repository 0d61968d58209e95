use cadenza::domain::{RunAttempt, RunStatus};
use cadenza::lifecycle::{backoff_delay_ms, reconcile_from_tracker, LifecycleDecision, LifecyclePolicy};
use cadenza::orchestrator::RuntimeState;
use cadenza::strmap::{StringMap, StringSet};


fn policy() -> LifecyclePolicy {
    LifecyclePolicy {
        max_retries: 3,
        base_backoff_ms: 100,
        backoff_cap_ms: 10_000,
        stall_timeout_ms: 5_000,
    }
}

#[test]
fn backoff_at_attempt_zero_is_zero() {
    assert_eq!(backoff_delay_ms(0, 100, 10_000), 0);
}

#[test]
fn backoff_doubles_each_attempt() {
    assert_eq!(backoff_delay_ms(1, 100, 10_000), 100);
    assert_eq!(backoff_delay_ms(2, 100, 10_000), 200);
    assert_eq!(backoff_delay_ms(3, 100, 10_000), 400);
    assert_eq!(backoff_delay_ms(4, 100, 10_000), 800);
}

#[test]
fn backoff_clamps_at_cap() {
    assert_eq!(backoff_delay_ms(20, 100, 5_000), 5_000);
}

#[test]
fn backoff_saturates_on_extreme_attempt_without_panic() {
    let _ = backoff_delay_ms(u32::MAX, 1, 10_000);
    let _ = backoff_delay_ms(u32::MAX, u64::MAX, u64::MAX);
}

#[test]
fn continuation_increments_attempt() {
    let p = policy();
    let d = p.on_turn_completed("cad-42", 3);
    assert!(
        matches!(d, LifecycleDecision::Continuation { ref issue_id, next_attempt: 4 } if issue_id == "cad-42")
    );
}

#[test]
fn failure_first_retry_uses_base_delay() {
    let p = policy();
    let d = p.on_turn_failed("a", 0, 1_000, "boom");
    match d {
        LifecycleDecision::Retry {
            attempt,
            due_at_ms,
            reason,
            ..
        } => {
            assert_eq!(attempt, 1);
            assert_eq!(due_at_ms, 1_100); // 1000 + 100ms backoff
            assert_eq!(reason, "boom");
        }
        other => panic!("expected Retry, got {other:?}"),
    }
}

#[test]
fn failure_beyond_max_retries_is_give_up() {
    let p = policy();
    match p.on_turn_failed("a", 3, 1_000, "x") {
        LifecycleDecision::GiveUp { attempt: 4, .. } => {}
        other => panic!("expected GiveUp, got {other:?}"),
    }
}

#[test]
fn failure_at_max_retries_boundary_still_retries() {
    let p = policy();
    match p.on_turn_failed("a", 2, 0, "x") {
        LifecycleDecision::Retry { attempt: 3, .. } => {}
        other => panic!("expected Retry attempt=3, got {other:?}"),
    }
}

#[test]
fn stall_becomes_retry_with_stall_reason() {
    let p = policy();
    match p.on_stall_detected("a", 1, 1_000) {
        LifecycleDecision::Retry { reason, .. } => assert_eq!(reason, "stall"),
        other => panic!("expected Retry, got {other:?}"),
    }
}

#[test]
fn is_stalled_paired_edges() {
    let p = policy();
    assert!(!p.is_stalled(5_000, 1));
    assert!(p.is_stalled(5_000, 0));
}

#[test]
fn terminal_decision_records_state_name() {
    let p = policy();
    match p.on_issue_terminal("a", "done") {
        LifecycleDecision::Cleanup { terminal_state, .. } => {
            assert_eq!(terminal_state, "done");
        }
        other => panic!("got {other:?}"),
    }
}

#[test]
fn continuation_releases_running_slot_but_keeps_claim() {
    let mut s = RuntimeState::new(5_000, 2);
    s.adopt_workflow(1, vec!["todo".to_string()], vec!["done".to_string()]);
    let attempt = RunAttempt {
        issue_id: "a".into(),
        issue_identifier: "CAD-1".into(),
        attempt: Some(1),
        workspace_path: "/tmp".into(),
        started_at: None,
        status: RunStatus::Running,
        error: None,
    };
    s.start_run("a".into(), attempt);
    assert_eq!(s.running.len(), 1);
    s.apply_lifecycle(&LifecycleDecision::Continuation {
        issue_id: "a".into(),
        next_attempt: 2,
    });
    assert_eq!(s.running.len(), 0);
    assert!(s.claimed.contains("a"));
}

#[test]
fn retry_decision_releases_running_and_enqueues_retry() {
    let mut s = RuntimeState::new(5_000, 2);
    s.adopt_workflow(1, vec!["todo".to_string()], vec!["done".to_string()]);
    let attempt = RunAttempt {
        issue_id: "a".into(),
        issue_identifier: "CAD-1".into(),
        attempt: Some(1),
        workspace_path: "/tmp".into(),
        started_at: None,
        status: RunStatus::Running,
        error: None,
    };
    s.start_run("a".into(), attempt);
    s.apply_lifecycle(&LifecycleDecision::Retry {
        issue_id: "a".into(),
        attempt: 2,
        due_at_ms: 2_500,
        reason: "boom".into(),
    });
    assert!(s.running.is_empty());
    let retry = s.retry_attempts.get("a").unwrap();
    assert_eq!(retry.attempt, 2);
    assert_eq!(retry.due_at_ms, 2_500);
    assert_eq!(retry.error.as_deref(), Some("boom"));
}

#[test]
fn give_up_clears_running_claim_and_retry() {
    let mut s = RuntimeState::new(5_000, 2);
    s.adopt_workflow(1, vec!["todo".to_string()], vec!["done".to_string()]);
    let attempt = RunAttempt {
        issue_id: "a".into(),
        issue_identifier: "CAD-1".into(),
        attempt: Some(1),
        workspace_path: "/tmp".into(),
        started_at: None,
        status: RunStatus::Running,
        error: None,
    };
    s.start_run("a".into(), attempt);
    s.apply_lifecycle(&LifecycleDecision::GiveUp {
        issue_id: "a".into(),
        attempt: 5,
    });
    assert!(s.running.is_empty());
    assert!(!s.claimed.contains("a"));
    assert!(!s.retry_attempts.contains_key("a"));
}

#[test]
fn cleanup_clears_running_claim_and_retry() {
    let mut s = RuntimeState::new(5_000, 2);
    s.adopt_workflow(1, vec!["todo".to_string()], vec!["done".to_string()]);
    let attempt = RunAttempt {
        issue_id: "a".into(),
        issue_identifier: "CAD-1".into(),
        attempt: Some(1),
        workspace_path: "/tmp".into(),
        started_at: None,
        status: RunStatus::Running,
        error: None,
    };
    s.start_run("a".into(), attempt);
    s.apply_lifecycle(&LifecycleDecision::Cleanup {
        issue_id: "a".into(),
        terminal_state: "done".into(),
    });
    assert!(s.running.is_empty());
    assert!(!s.claimed.contains("a"));
}

fn states(pairs: &[(&str, &str)]) -> StringMap<String> {
    let mut m = StringMap::new();
    for (k, v) in pairs {
        m.insert(k.to_string(), v.to_string());
    }
    m
}

fn terminal(s: &[&str]) -> StringSet {
    let mut set = StringSet::new();
    for x in s {
        set.insert(x.to_string());
    }
    set
}

#[test]
fn reconcile_active_with_local_workspace_is_resume() {
    let plan = reconcile_from_tracker(
        &states(&[("a", "todo"), ("b", "in progress")]),
        &["a".into(), "b".into()],
        &terminal(&["done"]),
    );
    assert_eq!(plan.resume, vec!["a", "b"]);
    assert!(plan.cleanup.is_empty());
    assert!(plan.fresh.is_empty());
}

#[test]
fn reconcile_terminal_with_local_workspace_is_cleanup() {
    let plan = reconcile_from_tracker(
        &states(&[("a", "done")]),
        &["a".into()],
        &terminal(&["done"]),
    );
    assert_eq!(plan.cleanup, vec!["a"]);
}

#[test]
fn reconcile_active_without_workspace_is_fresh() {
    let plan = reconcile_from_tracker(&states(&[("a", "todo")]), &[], &terminal(&["done"]));
    assert_eq!(plan.fresh, vec!["a"]);
}

#[test]
fn reconcile_orphan_workspace_without_tracker_is_cleanup() {
    let plan = reconcile_from_tracker(&states(&[]), &["orphan".into()], &terminal(&["done"]));
    assert_eq!(plan.cleanup, vec!["orphan"]);
}

#[test]
fn reconcile_uses_no_persistent_db() {
    let plan_a = reconcile_from_tracker(
        &states(&[("a", "todo")]),
        &["a".into()],
        &terminal(&["done"]),
    );
    let plan_b = reconcile_from_tracker(&states(&[]), &[], &terminal(&["done"]));
    assert_eq!(plan_a.resume, vec!["a"]);
    assert_eq!(plan_b.resume.len(), 0);
    let plan_a_again = reconcile_from_tracker(
        &states(&[("a", "todo")]),
        &["a".into()],
        &terminal(&["done"]),
    );
    assert_eq!(plan_a, plan_a_again);
}

#[test]
fn backoff_never_decreases_and_stays_capped() {
    let mut last = 0;
    for attempt in 0..100u32 {
        let d = cadenza::lifecycle::backoff_delay_ms(attempt, 1_000, 300_000);
        assert!(d >= last, "attempt {attempt}: {d} < {last}");
        assert!(d <= 300_000);
        last = d;
    }
    assert_eq!(cadenza::lifecycle::backoff_delay_ms(64, u64::MAX, u64::MAX), u64::MAX);
}

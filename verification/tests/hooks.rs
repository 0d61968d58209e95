use cadenza::hooks::{hook_step, HookStep, HookVerdict};

#[test]
fn an_exit_decides_the_verdict_even_past_the_deadline() {
    assert_eq!(hook_step(Some(true), false), HookStep::Finish(HookVerdict::Success));
    assert_eq!(hook_step(Some(false), false), HookStep::Finish(HookVerdict::Failed));
    assert_eq!(hook_step(Some(true), true), HookStep::Finish(HookVerdict::Success));
    assert_eq!(hook_step(Some(false), true), HookStep::Finish(HookVerdict::Failed));
}

#[test]
fn a_running_hook_waits_until_its_deadline_then_times_out() {
    assert_eq!(hook_step(None, false), HookStep::Wait);
    assert_eq!(hook_step(None, true), HookStep::Finish(HookVerdict::TimedOut));
}

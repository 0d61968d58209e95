use cadenza::workflow::HookPhase;

#[test]
fn fatal_phases_match_documentation() {
    assert!(HookPhase::AfterCreate.is_fatal_by_default());
    assert!(HookPhase::BeforeRun.is_fatal_by_default());
    assert!(!HookPhase::AfterRun.is_fatal_by_default());
    assert!(!HookPhase::BeforeRemove.is_fatal_by_default());
}

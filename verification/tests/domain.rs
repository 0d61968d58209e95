use cadenza::domain::workspace_key;


#[test]
fn workspace_key_preserves_allowed_characters() {
    assert_eq!(workspace_key("ABC-123.foo_bar"), "ABC-123.foo_bar");
}

#[test]
fn workspace_key_replaces_unsafe_characters() {
    assert_eq!(workspace_key("../ABC 123/☃"), ".._ABC_123__");
}

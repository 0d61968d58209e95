use cadenza::workspace::{assert_inside_workspace_root, safe_join, workspace_for_issue, workspace_path, WorkspaceError};


const ROOT: &str = "/var/lib/cadenza/workspaces";

fn root() -> &'static str {
    ROOT
}

#[test]
fn workspace_for_issue_maps_identifier_under_root() {
    let path = workspace_for_issue(ROOT, "ABC-123/foo").unwrap();
    assert_eq!(path.as_str(), "/var/lib/cadenza/workspaces/ABC-123_foo");
}

#[test]
fn workspace_for_issue_rejects_relative_root() {
    let err = workspace_for_issue("var/lib", "ABC-123").unwrap_err();
    assert!(
        matches!(err, WorkspaceError::RootNotAbsolute(_)),
        "got {err:?}"
    );
}

#[test]
fn workspace_path_alias_still_works() {
    let path = workspace_path(ROOT, "ABC-123").unwrap();
    assert_eq!(path.as_str(), "/var/lib/cadenza/workspaces/ABC-123");
}

#[test]
fn inside_root_direct_child_is_ok() {
    assert_inside_workspace_root(root(), "/var/lib/cadenza/workspaces/ABC-123")
        .unwrap();
}

#[test]
fn inside_root_self_is_ok() {
    assert_inside_workspace_root(root(), root()).unwrap();
}

#[test]
fn inside_root_normalised_dot_dot_returns_to_root_is_ok() {
    assert_inside_workspace_root(
        root(),
        "/var/lib/cadenza/workspaces/ABC-123/..",
    )
    .unwrap();
}

#[test]
fn rejects_dot_dot_escape_to_sibling() {
    let err = assert_inside_workspace_root(
        root(),
        "/var/lib/cadenza/workspaces/../other",
    )
    .unwrap_err();
    assert!(
        matches!(err, WorkspaceError::OutsideRoot { .. }),
        "got {err:?}"
    );
}

#[test]
fn rejects_outside_root_absolute_path() {
    let err = assert_inside_workspace_root(root(), "/etc/passwd").unwrap_err();
    assert!(
        matches!(err, WorkspaceError::OutsideRoot { .. }),
        "got {err:?}"
    );
}

#[test]
fn rejects_dot_dot_above_root_dir() {
    let err = assert_inside_workspace_root(root(), "/..").unwrap_err();
    assert!(
        matches!(err, WorkspaceError::Traversal { .. }),
        "got {err:?}"
    );
}

#[test]
fn boundary_one_segment_inside_root_is_ok() {
    assert_inside_workspace_root(root(), "/var/lib/cadenza/workspaces/x")
        .unwrap();
}

#[test]
fn boundary_one_segment_above_root_is_rejected() {
    let err =
        assert_inside_workspace_root(root(), "/var/lib/cadenza").unwrap_err();
    assert!(
        matches!(err, WorkspaceError::OutsideRoot { .. }),
        "got {err:?}"
    );
}

#[test]
fn safe_join_basic_relative_segment() {
    let p = safe_join(root(), "foo/bar").unwrap();
    assert_eq!(p.as_str(), "/var/lib/cadenza/workspaces/foo/bar");
}

#[test]
fn safe_join_collapses_internal_dot_dot_inside_root() {
    let p = safe_join(root(), "foo/../bar").unwrap();
    assert_eq!(p.as_str(), "/var/lib/cadenza/workspaces/bar");
}

#[test]
fn safe_join_rejects_absolute_segment() {
    let err = safe_join(root(), "/etc/passwd").unwrap_err();
    assert!(
        matches!(err, WorkspaceError::AbsoluteSegment { .. }),
        "got {err:?}",
    );
}

#[test]
fn safe_join_rejects_escape_via_dot_dot() {
    let err = safe_join(root(), "../other").unwrap_err();
    assert!(
        matches!(err, WorkspaceError::OutsideRoot { .. }),
        "got {err:?}"
    );
}

#[test]
fn safe_join_rejects_deep_escape() {
    let err = safe_join(root(), "foo/../../../etc").unwrap_err();
    assert!(
        matches!(err, WorkspaceError::OutsideRoot { .. }),
        "got {err:?}"
    );
}


#[test]
fn workspace_key_naming_the_root_itself_is_refused() {
    for id in [".", "..", "/"] {
        let r = workspace_for_issue(ROOT, id);
        if id == "/" {
            assert_eq!(r.unwrap(), "/var/lib/cadenza/workspaces/_");
        } else {
            assert!(matches!(r, Err(WorkspaceError::OutsideRoot { .. })), "{id}: got {r:?}");
        }
    }
    assert_eq!(workspace_for_issue(ROOT, "...").unwrap(), "/var/lib/cadenza/workspaces/...");
}

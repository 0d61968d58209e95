use cadenza::json::JsonValue;
use cadenza::tracker::{extract_state_pairs, state_nodes_of, TrackerError};

fn s(t: &str) -> JsonValue {
    JsonValue::Str(t.to_string())
}

fn obj(members: Vec<(&str, JsonValue)>) -> JsonValue {
    JsonValue::Object(members.into_iter().map(|(k, v)| (k.to_string(), v)).collect())
}

#[test]
fn state_nodes_are_read_from_issues_nodes() {
    let payload = obj(vec![(
        "issues",
        obj(vec![(
            "nodes",
            JsonValue::Array(vec![
                obj(vec![("id", s("a")), ("state", obj(vec![("name", s("Todo"))]))]),
                obj(vec![("id", JsonValue::Number("3".into())), ("state", JsonValue::Null)]),
            ]),
        )]),
    )]);
    let nodes = state_nodes_of(&payload).unwrap();
    assert_eq!(nodes.len(), 2);
    assert_eq!(nodes[0].id.as_deref(), Some("a"));
    assert_eq!(nodes[0].state_name.as_deref(), Some("Todo"));
    assert_eq!(nodes[1].id, None);
    assert_eq!(nodes[1].state_name, None);
    assert!(matches!(extract_state_pairs(&nodes), Err(TrackerError::InvalidResponse(m)) if m == "issue node missing id"));
}

#[test]
fn a_payload_without_a_nodes_array_is_invalid() {
    let missing = obj(vec![("issues", obj(vec![]))]);
    assert!(matches!(state_nodes_of(&missing), Err(TrackerError::InvalidResponse(m)) if m == "missing data.issues.nodes"));
    let not_array = obj(vec![("issues", obj(vec![("nodes", obj(vec![]))]))]);
    assert!(matches!(state_nodes_of(&not_array), Err(TrackerError::InvalidResponse(m)) if m == "data.issues.nodes is not an array"));
    assert!(matches!(state_nodes_of(&JsonValue::Null), Err(TrackerError::InvalidResponse(_))));
}

use cadenza::json::{json_scrub_is_safe, scrub_json, JsonValue};
use cadenza::scrubber::Scrubber;

fn s(text: &str) -> JsonValue {
    JsonValue::Str(text.to_string())
}

fn object(members: Vec<(&str, JsonValue)>) -> JsonValue {
    JsonValue::Object(members.into_iter().map(|(k, v)| (k.to_string(), v)).collect())
}

fn member<'a>(v: &'a JsonValue, key: &str) -> &'a JsonValue {
    match v {
        JsonValue::Object(members) => &members.iter().find(|(k, _)| k == key).unwrap().1,
        other => panic!("not an object: {other:?}"),
    }
}

fn as_str(v: &JsonValue) -> &str {
    match v {
        JsonValue::Str(t) => t.as_str(),
        other => panic!("not a string: {other:?}"),
    }
}

#[test]
fn scrub_json_redacts_secret_shaped_keys_and_values() {
    let scrubber = Scrubber::with_secrets(vec!["lr_tok_secret".to_string()]);
    let doc = object(vec![
        ("LINEAR_API_KEY", s("abc")),
        ("note", s("uses lr_tok_secret")),
        ("count", JsonValue::Number("3".to_string())),
    ]);
    assert!(json_scrub_is_safe(&scrubber, None, &doc));
    let out = scrub_json(&scrubber, None, &doc);
    assert_eq!(as_str(member(&out, "LINEAR_API_KEY")), "[REDACTED]");
    assert_eq!(as_str(member(&out, "note")), "uses ***REDACTED***");
    assert!(matches!(member(&out, "count"), JsonValue::Number(n) if n == "3"));
}

#[test]
fn scrub_json_redacts_secret_key_with_non_string_value() {
    let scrubber = Scrubber::empty();
    let doc = object(vec![
        ("api_key", JsonValue::Number("12345".to_string())),
        ("ok", JsonValue::Bool(true)),
        ("session_cookie", object(vec![("inner", s("x"))])),
    ]);
    let out = scrub_json(&scrubber, None, &doc);
    assert_eq!(as_str(member(&out, "api_key")), "[REDACTED]");
    assert!(matches!(member(&out, "ok"), JsonValue::Bool(true)));
    assert_eq!(as_str(member(&out, "session_cookie")), "[REDACTED]");
}

#[test]
fn scrub_json_keeps_member_order_and_keys() {
    let scrubber = Scrubber::empty();
    let doc = object(vec![("b", s("1")), ("a", JsonValue::Null), ("token", s("t"))]);
    let out = scrub_json(&scrubber, None, &doc);
    let JsonValue::Object(members) = out else { panic!("object expected") };
    let keys: Vec<&str> = members.iter().map(|(k, _)| k.as_str()).collect();
    assert_eq!(keys, vec!["b", "a", "token"]);
    assert!(matches!(members[1].1, JsonValue::Null));
    assert_eq!(as_str(&members[2].1), "[REDACTED]");
}

#[test]
fn arrays_keep_the_key_they_sit_under() {
    let scrubber = Scrubber::empty();
    let doc = object(vec![
        ("tokens", JsonValue::Array(vec![s("a"), s("b")])),
        ("names", JsonValue::Array(vec![s("x"), JsonValue::Number("1".into())])),
    ]);
    let out = scrub_json(&scrubber, None, &doc);
    // A secret-shaped key over a non-string value is replaced wholesale.
    assert_eq!(as_str(member(&out, "tokens")), "[REDACTED]");
    let JsonValue::Array(names) = member(&out, "names") else { panic!("array expected") };
    assert_eq!(as_str(&names[0]), "x");
    assert!(matches!(&names[1], JsonValue::Number(n) if n == "1"));
}

#[test]
fn top_level_string_is_scrubbed_as_free_text() {
    let scrubber = Scrubber::with_secrets(vec!["hunter2".to_string()]);
    let out = scrub_json(&scrubber, None, &s("pw hunter2 here"));
    assert_eq!(as_str(&out), "pw ***REDACTED*** here");
    let out = scrub_json(&scrubber, None, &s("API_TOKEN=abc rest"));
    assert_eq!(as_str(&out), "API_TOKEN=[REDACTED]");
}

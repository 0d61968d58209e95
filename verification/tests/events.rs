use cadenza::events::{parse_notification_line, EventStreamError, TurnEvent};

/// Replay fixture: a successful turn from start to completion.
const SUCCESSFUL_TURN_JSONL: &str = r#"{"jsonrpc":"2.0","method":"thread/started","params":{"thread":{"id":"thr_42"}}}
{"jsonrpc":"2.0","method":"turn/started","params":{"threadId":"thr_42","turn":{"id":"turn_1","status":"running","items":[],"itemsView":{},"error":null,"startedAt":null,"completedAt":null}}}
{"jsonrpc":"2.0","method":"item/agentMessage/delta","params":{"threadId":"thr_42","turnId":"turn_1","delta":"Hello "}}
{"jsonrpc":"2.0","method":"item/agentMessage/delta","params":{"threadId":"thr_42","turnId":"turn_1","delta":"world"}}
{"jsonrpc":"2.0","method":"thread/tokenUsage/updated","params":{"threadId":"thr_42","turnId":"turn_1","tokenUsage":{"total":{"totalTokens":49,"inputTokens":42,"cachedInputTokens":0,"outputTokens":7,"reasoningOutputTokens":0},"last":{"totalTokens":49,"inputTokens":42,"cachedInputTokens":0,"outputTokens":7,"reasoningOutputTokens":0},"modelContextWindow":128000}}}
{"jsonrpc":"2.0","method":"turn/completed","params":{"threadId":"thr_42","turn":{"id":"turn_1","status":"completed","items":[],"itemsView":{},"error":null,"startedAt":1,"completedAt":2}}}"#;

/// Replay fixture: a turn that fails with retry recommended.
const FAILED_TURN_JSONL: &str = r#"{"jsonrpc":"2.0","method":"thread/started","params":{"thread":{"id":"thr_43"}}}
{"jsonrpc":"2.0","method":"turn/started","params":{"threadId":"thr_43","turn":{"id":"turn_2","status":"running","items":[],"itemsView":{},"error":null,"startedAt":null,"completedAt":null}}}
{"jsonrpc":"2.0","method":"error","params":{"threadId":"thr_43","turnId":"turn_2","error":{"message":"upstream timeout"},"willRetry":true}}"#;

/// Replay fixture: a rate-limit observation and one unknown method.
const SUCCESSFUL_TURN_WITH_RATE_LIMITS_AND_UNKNOWN: &str = r#"{"jsonrpc":"2.0","method":"thread/started","params":{"thread":{"id":"thr_44"}}}
{"jsonrpc":"2.0","method":"account/rateLimits/updated","params":{"rateLimits":{"limitId":"rpm","limitName":"per_minute","primary":null,"secondary":null,"credits":null,"planType":null,"rateLimitReachedType":null}}}
{"jsonrpc":"2.0","method":"future/unknown/event","params":{"opaque":true}}
{"jsonrpc":"2.0","method":"turn/started","params":{"threadId":"thr_44","turn":{"id":"turn_3","status":"running","items":[],"itemsView":{},"error":null,"startedAt":null,"completedAt":null}}}
{"jsonrpc":"2.0","method":"turn/completed","params":{"threadId":"thr_44","turn":{"id":"turn_3","status":"completed","items":[],"itemsView":{},"error":null,"startedAt":1,"completedAt":2}}}"#;

fn parse_stream(s: &str) -> Vec<TurnEvent> {
    s.lines()
        .filter(|l| !l.trim().is_empty())
        .map(|l| parse_notification_line(l).expect("parse"))
        .collect()
}

#[test]
fn replay_fixture_successful_turn() {
    let events = parse_stream(SUCCESSFUL_TURN_JSONL);
    assert_eq!(events.len(), 6);
    assert!(
        matches!(events[0], TurnEvent::ThreadStarted { ref thread_id } if thread_id == "thr_42")
    );
    assert!(
        matches!(events[1], TurnEvent::TurnStarted { ref thread_id, ref turn_id } if thread_id == "thr_42" && turn_id == "turn_1")
    );
    assert!(
        matches!(events[2], TurnEvent::AgentMessageDelta { ref delta, .. } if delta == "Hello ")
    );
    match &events[4] {
        TurnEvent::TokenUsage { input_tokens, output_tokens, .. } => {
            assert_eq!(*input_tokens, 42);
            assert_eq!(*output_tokens, 7);
        }
        other => panic!("expected TokenUsage, got {other:?}"),
    }
    assert!(matches!(events[5], TurnEvent::TurnCompleted { ref turn_id, .. } if turn_id == "turn_1"));
}

#[test]
fn replay_fixture_failed_turn() {
    let events = parse_stream(FAILED_TURN_JSONL);
    assert_eq!(events.len(), 3);
    match &events[2] {
        TurnEvent::Error { thread_id, turn_id, message, will_retry } => {
            assert_eq!(thread_id, "thr_43");
            assert_eq!(turn_id, "turn_2");
            assert_eq!(message, "upstream timeout");
            assert!(will_retry);
        }
        other => panic!("expected Error, got {other:?}"),
    }
}

#[test]
fn unknown_event_passes_through_as_other() {
    let events = parse_stream(SUCCESSFUL_TURN_WITH_RATE_LIMITS_AND_UNKNOWN);
    let unknown = events
        .iter()
        .find(|e| matches!(e, TurnEvent::Other { .. }))
        .expect("expected an Other event");
    match unknown {
        TurnEvent::Other { method, .. } => assert_eq!(method, "future/unknown/event"),
        _ => unreachable!(),
    }
}

#[test]
fn rate_limits_classified_as_rate_limits_updated() {
    let events = parse_stream(SUCCESSFUL_TURN_WITH_RATE_LIMITS_AND_UNKNOWN);
    let rl = events
        .iter()
        .find(|e| matches!(e, TurnEvent::RateLimitsUpdated { .. }))
        .expect("expected RateLimitsUpdated");
    match rl {
        TurnEvent::RateLimitsUpdated { params } => {
            assert!(
                params.get("rateLimits").is_some(),
                "params should carry rateLimits envelope: {params:?}",
            );
        }
        _ => unreachable!(),
    }
}

#[test]
fn rate_limits_with_missing_envelope_is_typed_error() {
    let line = r#"{"jsonrpc":"2.0","method":"account/rateLimits/updated","params":{}}"#;
    let err = parse_notification_line(line).unwrap_err();
    assert!(matches!(err, EventStreamError::Json(_)), "got {err:?}");
}

#[test]
fn token_usage_with_missing_last_breakdown_is_typed_error() {
    let line = r#"{"jsonrpc":"2.0","method":"thread/tokenUsage/updated","params":{"threadId":"t","turnId":"u","tokenUsage":{"total":{"totalTokens":1,"inputTokens":1,"cachedInputTokens":0,"outputTokens":0,"reasoningOutputTokens":0},"modelContextWindow":null}}}"#;
    let err = parse_notification_line(line).unwrap_err();
    assert!(matches!(err, EventStreamError::Json(_)), "got {err:?}");
}

#[test]
fn turn_started_missing_nullable_required_key_is_typed_error() {
    let line = r#"{"jsonrpc":"2.0","method":"turn/started","params":{"threadId":"t","turn":{"id":"u","status":"running","items":[],"itemsView":{},"startedAt":null,"completedAt":null}}}"#;
    let err = parse_notification_line(line).unwrap_err();
    assert!(matches!(err, EventStreamError::Json(_)), "got {err:?}");
}

#[test]
fn turn_started_with_status_but_no_items_is_typed_error() {
    let line = r#"{"jsonrpc":"2.0","method":"turn/started","params":{"threadId":"t","turn":{"id":"u","status":"running"}}}"#;
    let err = parse_notification_line(line).unwrap_err();
    assert!(matches!(err, EventStreamError::Json(_)), "got {err:?}");
}

#[test]
fn malformed_json_returns_typed_error() {
    let err = parse_notification_line("{not json").unwrap_err();
    assert!(matches!(err, EventStreamError::Json(_)));
}

#[test]
fn missing_method_returns_typed_error() {
    let err = parse_notification_line(r#"{"jsonrpc":"2.0","params":{}}"#).unwrap_err();
    assert!(matches!(err, EventStreamError::MissingMethod), "got {err:?}");
}

#[test]
fn token_usage_with_missing_nested_breakdown_is_typed_error() {
    let line = r#"{"jsonrpc":"2.0","method":"thread/tokenUsage/updated","params":{"threadId":"t","turnId":"u","tokenUsage":{}}}"#;
    let err = parse_notification_line(line).unwrap_err();
    assert!(matches!(err, EventStreamError::Json(_)), "got {err:?}");
}

#[test]
fn token_usage_extracts_total_breakdown_not_last() {
    let line = r#"{"jsonrpc":"2.0","method":"thread/tokenUsage/updated","params":{"threadId":"t","turnId":"u","tokenUsage":{"total":{"totalTokens":150,"inputTokens":100,"cachedInputTokens":0,"outputTokens":50,"reasoningOutputTokens":0},"last":{"totalTokens":30,"inputTokens":20,"cachedInputTokens":0,"outputTokens":10,"reasoningOutputTokens":0},"modelContextWindow":128000}}}"#;
    match parse_notification_line(line).unwrap() {
        TurnEvent::TokenUsage { input_tokens, output_tokens, .. } => {
            assert_eq!(input_tokens, 100, "expected total.inputTokens (100), not last.inputTokens");
            assert_eq!(output_tokens, 50, "expected total.outputTokens (50), not last.outputTokens");
        }
        other => panic!("got {other:?}"),
    }
}

#[test]
fn turn_started_with_missing_status_is_typed_error() {
    let line = r#"{"jsonrpc":"2.0","method":"turn/started","params":{"threadId":"t","turn":{"id":"u"}}}"#;
    let err = parse_notification_line(line).unwrap_err();
    assert!(matches!(err, EventStreamError::Json(_)), "got {err:?}");
}

// Edge cases of the decoder.

#[test]
fn surrounding_whitespace_is_trimmed_before_parsing() {
    let line = "  {\"method\":\"thread/started\",\"params\":{\"thread\":{\"id\":\"t1\"}}}\r\n";
    assert!(matches!(parse_notification_line(line).unwrap(), TurnEvent::ThreadStarted { ref thread_id } if thread_id == "t1"));
}

#[test]
fn null_method_is_missing_method() {
    let err = parse_notification_line(r#"{"method":null}"#).unwrap_err();
    assert!(matches!(err, EventStreamError::MissingMethod));
}

#[test]
fn non_string_method_or_jsonrpc_is_a_json_error() {
    assert!(matches!(parse_notification_line(r#"{"method":7}"#), Err(EventStreamError::Json(_))));
    assert!(matches!(
        parse_notification_line(r#"{"jsonrpc":2,"method":"x"}"#),
        Err(EventStreamError::Json(_))
    ));
    assert!(matches!(parse_notification_line("[1,2]"), Err(EventStreamError::Json(_))));
}

#[test]
fn unknown_method_without_params_carries_null() {
    match parse_notification_line(r#"{"method":"ping"}"#).unwrap() {
        TurnEvent::Other { method, params } => {
            assert_eq!(method, "ping");
            assert!(matches!(params, cadenza::json::JsonValue::Null));
        }
        other => panic!("got {other:?}"),
    }
}

#[test]
fn token_counts_must_be_unsigned_integers_in_range() {
    let with = |n: &str| {
        format!(
            r#"{{"method":"thread/tokenUsage/updated","params":{{"threadId":"t","turnId":"u","tokenUsage":{{"total":{{"inputTokens":{n},"outputTokens":1}},"last":{{"inputTokens":1,"outputTokens":1}}}}}}}}"#
        )
    };
    assert!(matches!(
        parse_notification_line(&with("18446744073709551615")).unwrap(),
        TurnEvent::TokenUsage { input_tokens: 18446744073709551615, output_tokens: 1, .. }
    ));
    for bad in ["18446744073709551616", "-1", "1.5", "\"3\""] {
        assert!(matches!(parse_notification_line(&with(bad)), Err(EventStreamError::Json(_))), "{bad}");
    }
}

#[test]
fn error_notification_requires_boolean_will_retry() {
    let line = r#"{"method":"error","params":{"threadId":"a","turnId":"b","error":{"message":"m"},"willRetry":"yes"}}"#;
    assert!(matches!(parse_notification_line(line), Err(EventStreamError::Json(_))));
}

#[test]
fn envelope_in_array_form_decodes_by_position() {
    let line = r#"["2.0","thread/started",{"thread":{"id":"t"}}]"#;
    assert!(matches!(parse_notification_line(line).unwrap(), TurnEvent::ThreadStarted { ref thread_id } if thread_id == "t"));
    match parse_notification_line(r#"[null,"ping"]"#).unwrap() {
        TurnEvent::Other { method, params } => {
            assert_eq!(method, "ping");
            assert!(matches!(params, cadenza::json::JsonValue::Null));
        }
        other => panic!("got {other:?}"),
    }
    assert!(matches!(parse_notification_line(r#"["2.0",null,{}]"#), Err(EventStreamError::MissingMethod)));
    for bad in [r#"["2.0"]"#, r#"["2.0","ping",{},1]"#, r#"[1,"ping"]"#] {
        assert!(matches!(parse_notification_line(bad), Err(EventStreamError::Json(_))), "{bad}");
    }
}

#[test]
fn params_in_array_form_need_every_field_in_order() {
    let line = r#"{"method":"turn/started","params":["th",["tu","running",[],{},null,null,null]]}"#;
    assert!(matches!(parse_notification_line(line).unwrap(), TurnEvent::TurnStarted { ref thread_id, ref turn_id } if thread_id == "th" && turn_id == "tu"));
    let usage = r#"{"method":"thread/tokenUsage/updated","params":["a","b",[[5,6],[1,1],null]]}"#;
    assert!(matches!(
        parse_notification_line(usage).unwrap(),
        TurnEvent::TokenUsage { input_tokens: 5, output_tokens: 6, .. }
    ));
    // In array form the optional `modelContextWindow` is a required position.
    let short = r#"{"method":"thread/tokenUsage/updated","params":["a","b",[[5,6],[1,1]]]}"#;
    assert!(matches!(parse_notification_line(short), Err(EventStreamError::Json(_))));
    let error = r#"{"method":"error","params":["a","b",["boom"],false]}"#;
    assert!(matches!(parse_notification_line(error).unwrap(), TurnEvent::Error { ref message, will_retry: false, .. } if message == "boom"));
    let rl = r#"{"method":"account/rateLimits/updated","params":[null]}"#;
    assert!(matches!(parse_notification_line(rl).unwrap(), TurnEvent::RateLimitsUpdated { .. }));
    let long = r#"{"method":"thread/started","params":[["t"],1]}"#;
    assert!(matches!(parse_notification_line(long), Err(EventStreamError::Json(_))));
}

use cadenza::wasm_host::{classify_instantiate, classify_trap, GuestFailure};
use cadenza::capabilities::{conclude_transport_wait, finish_linear_call, TransportWait};
use cadenza::wasm_host::{call_record, guest_log_record, LogLevel};
use cadenza::capabilities::{
    check_linear_response, linear_audit, map_transport_failure, prepare_linear_call,
    query_fingerprint, read_window, secret_exists, truncate_for_audit, LinearEndpointPolicy,
};
use cadenza::scrubber::Scrubber;
use cadenza::strmap::StringSet;
use cadenza::wasm_host::{
    check_component_identity, check_declared_resource_counts, HostClock, HostError, HostLogRecord,
    LinearHttpResult, LinearMode, LinearTransportError, LogSink, RequestContext, RuntimeLimiter,
    WasmComponentRef, WasmHostError, WasmRuntimeLimits,
};
use cadenza::workspace::{map_workspace_error, WorkspaceError};
use cadenza::capabilities::IoErrorKind;

fn win(data: &[u8], offset: Option<u64>, limit: Option<u64>, cap: u64) -> (Vec<u8>, bool) {
    read_window(data, offset, limit, cap)
}

const BIG_CAP: u64 = u64::MAX;

#[test]
fn read_window_no_limit_returns_all_within_cap() {
    let (bytes, truncated) = win(b"hello", None, None, BIG_CAP);
    assert_eq!(bytes, b"hello");
    assert!(!truncated);
}

#[test]
fn read_window_limit_below_length_truncates() {
    let (bytes, truncated) = win(b"hello", None, Some(3), BIG_CAP);
    assert_eq!(bytes, b"hel");
    assert!(truncated);
}

#[test]
fn read_window_limit_equal_length_is_not_truncated() {
    let (bytes, truncated) = win(b"hello", None, Some(5), BIG_CAP);
    assert_eq!(bytes, b"hello");
    assert!(!truncated);
}

#[test]
fn read_window_offset_then_limit() {
    let (bytes, truncated) = win(b"hello world", Some(6), Some(3), BIG_CAP);
    assert_eq!(bytes, b"wor");
    assert!(truncated);
}

#[test]
fn read_window_offset_at_eof_is_empty_not_truncated() {
    let (bytes, truncated) = win(b"hello", Some(5), None, BIG_CAP);
    assert!(bytes.is_empty());
    assert!(!truncated);
}

#[test]
fn read_window_offset_past_eof_clamps() {
    let (bytes, truncated) = win(b"hello", Some(99), Some(4), BIG_CAP);
    assert!(bytes.is_empty());
    assert!(!truncated);
}

#[test]
fn read_window_caps_unbounded_request() {
    let (bytes, truncated) = win(b"0123456789", None, None, 4);
    assert_eq!(bytes, b"0123");
    assert!(truncated);
}

#[test]
fn read_window_limit_above_cap_is_capped() {
    let (bytes, truncated) = win(b"0123456789", None, Some(999), 4);
    assert_eq!(bytes, b"0123");
    assert!(truncated);
}

#[test]
fn workspace_error_escape_maps_to_outside_root() {
    let err = WorkspaceError::OutsideRoot { root: "/r".into(), candidate: "/etc".into() };
    assert!(matches!(map_workspace_error(err), HostError::OutsideRoot));
    let traversal = WorkspaceError::Traversal { candidate: "/..".into() };
    assert!(matches!(map_workspace_error(traversal), HostError::OutsideRoot));
}

#[test]
fn workspace_error_absolute_segment_is_invalid_argument() {
    let err = WorkspaceError::AbsoluteSegment { segment: "/etc/passwd".into() };
    assert!(matches!(map_workspace_error(err), HostError::InvalidArgument(_)));
}

#[test]
fn workspace_error_missing_canonicalize_target_is_not_found() {
    let err = WorkspaceError::Canonicalize {
        path: "x".into(),
        kind: IoErrorKind::NotFound,
        message: "entity not found".into(),
    };
    assert!(matches!(map_workspace_error(err), HostError::NotFound(_)));
}

#[test]
fn query_fingerprint_is_deterministic_and_distinguishes_queries() {
    let a = query_fingerprint("query { viewer { id } }");
    let b = query_fingerprint("query { viewer { id } }");
    let c = query_fingerprint("mutation { x }");
    assert_eq!(a, b, "fingerprint must be deterministic");
    assert_ne!(a, c, "different queries must differ");
    assert!(a.starts_with("fnv1a64:"));
}

#[test]
fn query_fingerprint_matches_reference_fnv1a64() {
    assert_eq!(query_fingerprint(""), "fnv1a64:cbf29ce484222325");
    assert_eq!(query_fingerprint("a"), "fnv1a64:af63dc4c8601ec8c");
}

#[test]
fn limiter_allows_at_cap_and_denies_above_cap() {
    let limits = WasmRuntimeLimits { max_memory_bytes: 1_024, ..Default::default() };
    let mut limiter = RuntimeLimiter::new(&limits);
    assert!(limiter.memory_growing(0, 1_024, None));
    assert_eq!(limiter.denied_growth(), 0);
    assert!(!limiter.memory_growing(0, 1_025, None));
    assert_eq!(limiter.denied_growth(), 1);
}

#[test]
fn limiter_table_cap_paired_edges() {
    let limits = WasmRuntimeLimits { max_tables: 4, ..Default::default() };
    let mut limiter = RuntimeLimiter::new(&limits);
    assert!(limiter.table_growing(0, 4, None));
    assert!(!limiter.table_growing(0, 5, None));
    assert_eq!(limiter.denied_growth(), 1);
}

#[test]
fn epoch_budget_uses_configured_timeout() {
    let limits = WasmRuntimeLimits { epoch_timeout_ms: 7_500, ..Default::default() };
    assert_eq!(limits.epoch_budget_ticks(), 7_500);
}

#[test]
fn epoch_budget_zero_clamps_to_one() {
    let limits = WasmRuntimeLimits { epoch_timeout_ms: 0, ..Default::default() };
    assert_eq!(limits.epoch_budget_ticks(), 1);
}

#[test]
fn request_context_has_no_raw_secret_field() {
    let _ = RequestContext::default();
}

fn record() -> HostLogRecord {
    HostLogRecord {
        op: "host-time.now-millis".to_string(),
        issue_id: None,
        plugin_name: None,
        level: None,
        message: None,
        fields_json: None,
    }
}

#[test]
fn log_sink_is_bounded_and_counts_drops() {
    let mut sink = LogSink::with_capacity(2);
    for _ in 0..5 {
        sink.push(record());
    }
    assert_eq!(sink.records().len(), 2);
    assert_eq!(sink.dropped(), 3);
}

#[test]
fn default_limits_match_documented_caps() {
    let l = WasmRuntimeLimits::default();
    assert_eq!(l.max_memory_bytes, 64 * 1024 * 1024);
    assert_eq!(l.max_tables, 64);
    assert_eq!(l.max_instances, 16);
    assert_eq!(l.epoch_timeout_ms, 5_000);
    assert_eq!(l.max_http_body_bytes, 2 * 1024 * 1024);
}

#[test]
fn fixed_clock_reads_its_value() {
    assert_eq!(HostClock::Fixed(42).now_millis(), 42);
}

#[test]
fn component_identity_is_checked_package_first() {
    let good = WasmComponentRef {
        name: "p".into(),
        path: "/x.wasm".into(),
        wit_package: "cadenza:runtime@0.2.0".into(),
        wit_world: "tool-runtime".into(),
    };
    assert!(check_component_identity(&good).is_ok());
    let bad_both = WasmComponentRef { wit_package: "x".into(), wit_world: "y".into(), ..good.clone() };
    assert!(matches!(
        check_component_identity(&bad_both),
        Err(WasmHostError::WitPackageMismatch { .. })
    ));
    let bad_world = WasmComponentRef { wit_world: "y".into(), ..good };
    assert!(matches!(
        check_component_identity(&bad_world),
        Err(WasmHostError::WitWorldMismatch { .. })
    ));
}

#[test]
fn declared_counts_over_cap_are_limit_breaches() {
    match check_declared_resource_counts(17, None, 64, 10_000, 16) {
        Err(WasmHostError::LimitBreached(m)) => assert_eq!(
            m,
            "component declares 17 core instances, exceeding the host cap of 16"
        ),
        other => panic!("got {other:?}"),
    }
    match check_declared_resource_counts(1, Some((65, 1)), 64, 10_000, 16) {
        Err(WasmHostError::LimitBreached(m)) => {
            assert_eq!(m, "component declares 65 tables, exceeding the host cap of 64")
        }
        other => panic!("got {other:?}"),
    }
    assert!(check_declared_resource_counts(16, Some((64, 2)), 64, 10_000, 16).is_ok());
}

#[test]
fn linear_call_is_denied_without_capability_or_allowlisted_endpoint() {
    let err = prepare_linear_call(None, None, "query { x }", "", LinearMode::Read, 10, 5).unwrap_err();
    assert!(matches!(err.guest, HostError::Denied(_)));
    assert_eq!(err.audit_detail, "denied: linear capability not configured");
    let policy = LinearEndpointPolicy::new("https://evil.example", vec!["https://api.linear.app/graphql".into()]);
    let err = prepare_linear_call(Some(&policy), None, "q", "", LinearMode::Read, 10, 5).unwrap_err();
    assert_eq!(err.audit_detail, "denied: linear endpoint is not on the allowlist");
}

#[test]
fn linear_call_validates_query_and_variables() {
    let policy = LinearEndpointPolicy::with_default_allowlist();
    let err = prepare_linear_call(Some(&policy), None, "   ", "", LinearMode::Read, 10, 5).unwrap_err();
    assert!(matches!(err.guest, HostError::InvalidArgument(_)));
    let call = prepare_linear_call(Some(&policy), Some("Op"), "query { x }", "  ", LinearMode::Write, 10, 5).unwrap();
    assert_eq!(call.variables_json, "{}");
    assert_eq!(call.endpoint, "https://api.linear.app/graphql");
    assert_eq!(call.max_response_bytes, 10);
    let err = prepare_linear_call(Some(&policy), None, "q", "[1]", LinearMode::Read, 10, 5).unwrap_err();
    assert_eq!(err.audit_detail, "invalid-argument: variables-json must be a JSON object");
    let err = prepare_linear_call(Some(&policy), None, "q", "{", LinearMode::Read, 10, 5).unwrap_err();
    assert!(err.audit_detail.starts_with("invalid-argument: variables-json is not valid JSON: "));
    let call = prepare_linear_call(Some(&policy), None, "q", " {\"a\":1} ", LinearMode::Read, 10, 5).unwrap();
    assert_eq!(call.variables_json, "{\"a\":1}");
}

#[test]
fn oversized_linear_body_is_refused() {
    let ok = check_linear_response(LinearHttpResult { status: 200, body_json: "{}".into() }, 2).unwrap();
    assert_eq!(ok.body_json, "{}");
    let err = check_linear_response(LinearHttpResult { status: 200, body_json: "{ }".into() }, 2).unwrap_err();
    assert_eq!(err.audit_detail, "response body exceeds limit of 2 bytes");
}

#[test]
fn transport_failures_never_forward_upstream_text() {
    let s = Scrubber::with_secrets(vec!["tok_123".into()]);
    let f = map_transport_failure(&s, LinearTransportError::Upstream("bad tok_123".into()));
    assert_eq!(f.guest, HostError::Upstream("linear upstream error".into()));
    assert_eq!(f.audit_detail, "upstream: bad ***REDACTED***");
    let f = map_transport_failure(&s, LinearTransportError::RateLimited(Some(30)));
    assert_eq!(f.guest, HostError::RateLimited(Some(30)));
    assert_eq!(f.audit_detail, "rate-limited: retry after 30s");
}

#[test]
fn audit_detail_is_truncated_on_a_char_boundary() {
    let short = "x".repeat(512);
    assert_eq!(truncate_for_audit(&short), short);
    let long = "é".repeat(300);
    let cut = truncate_for_audit(&long);
    assert_eq!(cut, format!("{}…[truncated]", "é".repeat(256)));
}

#[test]
fn linear_audit_scrubs_operation_and_error() {
    let s = Scrubber::empty();
    let a = linear_audit(&s, Some("Op"), "fnv1a64:00", 7, LinearMode::Write, Some("token=abc"));
    assert_eq!(a.operation_name.as_deref(), Some("Op"));
    assert_eq!(a.graphql_mode, "write");
    assert_eq!(a.error.as_deref(), Some("token=[REDACTED]"));
}

#[test]
fn secret_presence_only() {
    let mut names = StringSet::new();
    names.insert("LINEAR_API_KEY".to_string());
    assert_eq!(secret_exists(&names, "LINEAR_API_KEY"), Ok(true));
    assert_eq!(secret_exists(&names, "OTHER"), Ok(false));
    assert!(matches!(secret_exists(&names, ""), Err(HostError::InvalidArgument(_))));
}

#[test]
fn transport_wait_outcomes_fail_closed() {
    let s = Scrubber::empty();
    let err = conclude_transport_wait(&s, TransportWait::Saturated, 5).unwrap_err();
    assert_eq!(err.guest, HostError::RateLimited(None));
    assert_eq!(err.audit_detail, "rate-limited: 64 linear transport workers already in flight");
    let err = conclude_transport_wait(&s, TransportWait::TimedOut, 250).unwrap_err();
    assert_eq!(err.guest, HostError::Timeout);
    assert_eq!(err.audit_detail, "timeout: transport exceeded 250 ms deadline");
    let err = conclude_transport_wait(&s, TransportWait::Vanished, 5).unwrap_err();
    assert_eq!(err.guest, HostError::Io("linear transport io error".into()));
    assert_eq!(err.audit_detail, "io: transport worker terminated before returning");
    let err = conclude_transport_wait(&s, TransportWait::SpawnFailed("no threads".into()), 5).unwrap_err();
    assert_eq!(err.audit_detail, "io: failed to spawn transport worker: no threads");
    let ok = finish_linear_call(
        &s,
        TransportWait::Answered(Ok(LinearHttpResult { status: 200, body_json: "{}".into() })),
        5,
        2,
    )
    .unwrap();
    assert_eq!((ok.status, ok.body_json.as_str()), (200, "{}"));
    let err = finish_linear_call(
        &s,
        TransportWait::Answered(Ok(LinearHttpResult { status: 200, body_json: "{ }".into() })),
        5,
        2,
    )
    .unwrap_err();
    assert_eq!(err.guest, HostError::Upstream("linear response body too large".into()));
    let err = finish_linear_call(
        &s,
        TransportWait::Answered(Err(LinearTransportError::Io("reset".into()))),
        5,
        2,
    )
    .unwrap_err();
    assert_eq!(err.audit_detail, "io: reset");
}

#[test]
fn host_call_records_carry_the_request_context() {
    let ctx = RequestContext {
        issue_id: Some("CAD-1".into()),
        plugin_name: Some("linear".into()),
        workspace_path: None,
    };
    let r = call_record(&ctx, "host-time.now-millis", None, None, None);
    assert_eq!(r.op, "host-time.now-millis");
    assert_eq!(r.issue_id.as_deref(), Some("CAD-1"));
    assert_eq!(r.plugin_name.as_deref(), Some("linear"));
    assert!(r.level.is_none() && r.message.is_none() && r.fields_json.is_none());
    let s = Scrubber::with_secrets(vec!["tok_9".into()]);
    let r = guest_log_record(&s, &ctx, LogLevel::Warn, "using tok_9", Some("{}".into()));
    assert_eq!(r.op, "host-log.log");
    assert_eq!(r.level.as_deref(), Some("warn"));
    assert_eq!(r.message.as_deref(), Some("using ***REDACTED***"));
    assert_eq!(r.fields_json.as_deref(), Some("{}"));
}

#[test]
fn guest_failures_are_classified_by_cause() {
    assert!(matches!(classify_instantiate(GuestFailure::Other("unknown import: missing".into())),
        WasmHostError::Link(m) if m == "instantiate: unknown import: missing"));
    assert!(matches!(classify_instantiate(GuestFailure::Interrupted), WasmHostError::Timeout));
    assert!(matches!(classify_instantiate(GuestFailure::Trap("unreachable".into())),
        WasmHostError::LimitBreached(m) if m == "guest trap: unreachable"));
    assert!(matches!(classify_instantiate(GuestFailure::LimitBreach("too many tables".into())),
        WasmHostError::LimitBreached(m) if m == "too many tables"));
    assert!(matches!(classify_trap(GuestFailure::DeferredCall("host-http#fetch".into())),
        WasmHostError::CapabilityDenied(m) if m == "host-http#fetch"));
    assert!(matches!(classify_trap(GuestFailure::Other("boom".into())),
        WasmHostError::LimitBreached(m) if m == "boom"));
}

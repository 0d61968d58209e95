use cadenza::linear_http::{
    disposition, graphql_outcome, linear_body_result, linear_rate_limited, linear_request_failure,
    linear_status_error, parse_u32_exec, tracker_rate_limited, tracker_status_error, HttpDisposition,
};
use cadenza::tracker::TrackerError;
use cadenza::wasm_host::LinearTransportError;

fn parse(s: &str) -> Option<u32> {
    let cs: Vec<char> = s.chars().collect();
    parse_u32_exec(&cs)
}

#[test]
fn status_codes_are_classified() {
    assert_eq!(disposition(429), HttpDisposition::RateLimited);
    assert_eq!(disposition(200), HttpDisposition::ReadBody);
    assert_eq!(disposition(299), HttpDisposition::ReadBody);
    assert_eq!(disposition(300), HttpDisposition::Failed);
    assert_eq!(disposition(199), HttpDisposition::Failed);
    assert_eq!(disposition(503), HttpDisposition::Failed);
}

#[test]
fn u32_parsing_matches_std() {
    for s in ["0", "7", "+7", "007", "4294967295", "4294967296", "", "+", "-1", "1a", " 1", "99999999999"] {
        assert_eq!(parse(s), s.parse::<u32>().ok(), "input {s:?}");
    }
}

#[test]
fn rate_limited_status_carries_integer_retry_hint() {
    assert!(matches!(linear_rate_limited(Some(" 17 ")), LinearTransportError::RateLimited(Some(17))));
    assert!(matches!(
        linear_rate_limited(Some("Wed, 21 Oct 2015 07:28:00 GMT")),
        LinearTransportError::RateLimited(None)
    ));
    assert!(matches!(linear_rate_limited(None), LinearTransportError::RateLimited(None)));
}

#[test]
fn server_error_names_only_the_status() {
    match linear_status_error(502) {
        LinearTransportError::Upstream(m) => assert_eq!(m, "HTTP 502 from linear endpoint"),
        other => panic!("unexpected: {other:?}"),
    }
}

#[test]
fn body_over_the_cap_is_refused() {
    let body = vec![b'x'; 11];
    match linear_body_result(200, &body, 10) {
        Err(LinearTransportError::Upstream(m)) => assert_eq!(m, "linear response body too large"),
        other => panic!("unexpected: {other:?}"),
    }
    let ok = linear_body_result(200, &body[..10], 10).unwrap();
    assert_eq!(ok.status, 200);
    assert_eq!(ok.body_json, "xxxxxxxxxx");
}

#[test]
fn body_that_is_not_utf8_is_an_io_failure() {
    match linear_body_result(200, &[0xff, 0xfe], 10) {
        Err(LinearTransportError::Io(m)) => assert_eq!(m, "response body is not valid utf-8"),
        other => panic!("unexpected: {other:?}"),
    }
    let ok = linear_body_result(201, "{\"data\":\"é\"}".as_bytes(), 64).unwrap();
    assert_eq!(ok.body_json, "{\"data\":\"é\"}");
}

#[test]
fn request_failures_use_static_messages() {
    assert!(matches!(linear_request_failure(true), LinearTransportError::Io(m) if m == "linear transport request timed out"));
    assert!(matches!(linear_request_failure(false), LinearTransportError::Io(m) if m == "linear transport request failed"));
}

#[test]
fn tracker_rate_limit_keeps_the_raw_hint() {
    assert!(matches!(tracker_rate_limited(Some("30")), TrackerError::RateLimited(h) if h == "30"));
    assert!(matches!(tracker_rate_limited(None), TrackerError::RateLimited(h) if h == "unspecified"));
}

#[test]
fn tracker_status_error_keeps_at_most_300_characters() {
    let long = "é".repeat(400);
    match tracker_status_error("500 Internal Server Error", &long) {
        TrackerError::Upstream(m) => {
            assert!(m.starts_with("HTTP 500 Internal Server Error from Linear: "));
            assert_eq!(m.chars().count(), "HTTP 500 Internal Server Error from Linear: ".len() + 300);
        }
        other => panic!("unexpected: {other:?}"),
    }
    match tracker_status_error("404 Not Found", "nope") {
        TrackerError::Upstream(m) => assert_eq!(m, "HTTP 404 Not Found from Linear: nope"),
        other => panic!("unexpected: {other:?}"),
    }
}

#[test]
fn graphql_errors_are_joined_and_data_is_required() {
    let r: Result<u8, TrackerError> =
        graphql_outcome(Some(1), Some(vec!["a".to_string(), "b".to_string()]));
    assert!(matches!(r, Err(TrackerError::Upstream(m)) if m == "a; b"));
    let r: Result<u8, TrackerError> = graphql_outcome(Some(1), Some(vec![]));
    assert_eq!(r.unwrap(), 1);
    let r: Result<u8, TrackerError> = graphql_outcome(None, None);
    assert!(matches!(r, Err(TrackerError::InvalidResponse(m)) if m == "missing GraphQL `data` envelope"));
}

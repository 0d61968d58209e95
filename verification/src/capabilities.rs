//! Policy of the host capabilities a guest component can call: the Linear
//! GraphQL gate and its audit trail, secret presence, workspace-read
//! windows, and the error mapping towards the guest.
//!
//! Running the transport under a deadline, reading files and linking the
//! capabilities into the engine are done by the caller; every value they
//! hand to the guest or to the audit log is decided here.
use vstd::prelude::*;

use vstd::utf8::encode_utf8;

use crate::scrubber::{utf8_len, utf8_len_exec, Scrubber};
use crate::json::{parse_json_document, serde_json_document, JsonValue};
use crate::strmap::StringSet;
use crate::text::{
    chars_of, decimal, decimal_chars, extend_chars, extend_str, string_from, trim, trim_vec,
};
use crate::wasm_host::{HostError, LinearCall, LinearHttpResult, LinearMode, LinearTransportError};

verus! {

// ---------------------------------------------------------------------------
// Audit text helpers
// ---------------------------------------------------------------------------

/// Most bytes of failure detail kept in the audit log for one call.
pub const MAX_AUDIT_ERROR_BYTES: usize = 512;

/// Number of UTF-8 bytes of the character `c`.
pub open spec fn char_width(c: char) -> nat {
    if (c as u32) < 0x80 {
        1
    } else if (c as u32) < 0x800 {
        2
    } else if (c as u32) < 0x10000 {
        3
    } else {
        4
    }
}

/// How many leading characters of `s` fit in `budget` UTF-8 bytes.
pub open spec fn fitting_prefix(s: Seq<char>, budget: int) -> nat
    decreases s.len(),
{
    if s.len() == 0 || char_width(s[0]) > budget {
        0
    } else {
        1 + fitting_prefix(s.drop_first(), budget - char_width(s[0]))
    }
}

/// The audit form of failure detail: unchanged when it fits in
/// `MAX_AUDIT_ERROR_BYTES` UTF-8 bytes, otherwise its longest prefix that
/// fits (cut on a character boundary) followed by `…[truncated]`.
pub open spec fn audit_text(s: Seq<char>) -> Seq<char> {
    if utf8_len(s) <= MAX_AUDIT_ERROR_BYTES {
        s
    } else {
        s.take(fitting_prefix(s, MAX_AUDIT_ERROR_BYTES as int) as int) + "\u{2026}[truncated]"@
    }
}

proof fn lemma_fitting_prefix_bound(s: Seq<char>, budget: int)
    ensures
        fitting_prefix(s, budget) <= s.len(),
    decreases s.len(),
{
    if s.len() > 0 && char_width(s[0]) <= budget {
        lemma_fitting_prefix_bound(s.drop_first(), budget - char_width(s[0]));
    }
}

fn width_exec(c: char) -> (w: u64)
    ensures
        w == char_width(c),
{
    if (c as u32) < 0x80 {
        1
    } else if (c as u32) < 0x800 {
        2
    } else if (c as u32) < 0x10000 {
        3
    } else {
        4
    }
}

/// Truncate failure detail for the audit log (see `audit_text`).
pub fn truncate_for_audit(text: &str) -> (r: String)
    ensures
        r@ == audit_text(text@),
{
    let chars = chars_of(text);
    if utf8_len_exec(chars.as_slice()) <= MAX_AUDIT_ERROR_BYTES as u128 {
        return text.to_owned();
    }
    let mut budget: u64 = MAX_AUDIT_ERROR_BYTES as u64;
    let mut k: usize = 0;
    proof {
        lemma_fitting_prefix_bound(chars@, budget as int);
        assert(chars@.skip(0) =~= chars@);
    }
    while k < chars.len() && width_exec(chars[k]) as u64 <= budget
        invariant
            k <= chars@.len(),
            budget <= MAX_AUDIT_ERROR_BYTES,
            fitting_prefix(chars@, MAX_AUDIT_ERROR_BYTES as int) == k + fitting_prefix(
                chars@.skip(k as int),
                budget as int,
            ),
        decreases chars.len() - k,
    {
        let w = width_exec(chars[k]);
        proof {
            assert(chars@.skip(k as int)[0] == chars@[k as int]);
            assert(chars@.skip(k as int).drop_first() =~= chars@.skip(k + 1));
        }
        budget = budget - w;
        k = k + 1;
    }
    proof {
        assert(fitting_prefix(chars@.skip(k as int), budget as int) == 0) by {
            if k < chars@.len() {
                assert(chars@.skip(k as int)[0] == chars@[k as int]);
            }
        }
    }
    let mut v: Vec<char> = Vec::new();
    let mut i: usize = 0;
    while i < k
        invariant
            i <= k <= chars@.len(),
            v@ == chars@.take(i as int),
        decreases k - i,
    {
        v.push(chars[i]);
        assert(v@ =~= chars@.take(i + 1));
        i = i + 1;
    }
    extend_str(&mut v, "\u{2026}[truncated]");
    string_from(v.as_slice())
}

/// FNV-1a-64 over the first `n` bytes.
pub open spec fn fnv1a64(bytes: Seq<u8>, n: int) -> u64
    decreases n,
{
    if n <= 0 {
        0xcbf29ce484222325u64
    } else {
        (fnv1a64(bytes, n - 1) ^ (bytes[n - 1] as u64)).wrapping_mul(0x100000001b3u64)
    }
}

/// The hexadecimal digit for `d < 16`, lower case.
pub open spec fn hex_digit(d: nat) -> char {
    if d < 10 {
        crate::text::digit_char(d)
    } else if d == 10 {
        'a'
    } else if d == 11 {
        'b'
    } else if d == 12 {
        'c'
    } else if d == 13 {
        'd'
    } else if d == 14 {
        'e'
    } else {
        'f'
    }
}

/// The last `n` hexadecimal digits of `h`, zero-padded.
pub open spec fn hex_digits(h: nat, n: nat) -> Seq<char>
    decreases n,
{
    if n == 0 {
        Seq::empty()
    } else {
        hex_digits(h / 16, (n - 1) as nat).push(hex_digit(h % 16))
    }
}

fn hex_digit_exec(d: u64) -> (c: char)
    requires
        d < 16,
    ensures
        c == hex_digit(d as nat),
{
    if d < 10 {
        let v = decimal_chars(d);
        v[0]
    } else if d == 10 {
        'a'
    } else if d == 11 {
        'b'
    } else if d == 12 {
        'c'
    } else if d == 13 {
        'd'
    } else if d == 14 {
        'e'
    } else {
        'f'
    }
}

fn hex_digits_exec(h: u64, n: u64) -> (v: Vec<char>)
    ensures
        v@ == hex_digits(h as nat, n as nat),
    decreases n,
{
    if n == 0 {
        Vec::new()
    } else {
        let mut v = hex_digits_exec(h / 16, n - 1);
        v.push(hex_digit_exec(h % 16));
        v
    }
}

/// Non-cryptographic fingerprint of a GraphQL query: `fnv1a64:` and the
/// FNV-1a-64 hash of its UTF-8 bytes as 16 lower-case hex digits. Lets the
/// audit correlate identical operations without recording the query.
pub fn query_fingerprint(query: &str) -> (r: String)
    ensures
        r@ == "fnv1a64:"@ + hex_digits(
            fnv1a64(encode_utf8(query@), encode_utf8(query@).len() as int) as nat,
            16,
        ),
{
    let bytes = query.as_bytes();
    let mut hash: u64 = 0xcbf29ce484222325u64;
    let mut i: usize = 0;
    while i < bytes.len()
        invariant
            i <= bytes@.len(),
            bytes@ == encode_utf8(query@),
            hash == fnv1a64(bytes@, i as int),
        decreases bytes.len() - i,
    {
        hash = hash ^ (bytes[i] as u64);
        hash = hash.wrapping_mul(0x100000001b3u64);
        i = i + 1;
    }
    let mut v: Vec<char> = Vec::new();
    extend_str(&mut v, "fnv1a64:");
    let digits = hex_digits_exec(hash, 16);
    extend_chars(&mut v, digits.as_slice());
    string_from(v.as_slice())
}

// ---------------------------------------------------------------------------
// Linear GraphQL capability
// ---------------------------------------------------------------------------

/// The host-configured Linear endpoint and the allowlist it is checked
/// against.
#[derive(Debug)]
pub struct LinearEndpointPolicy {
    pub endpoint: String,
    pub allowed_endpoints: StringSet,
}

impl LinearEndpointPolicy {
    /// The production Linear GraphQL endpoint.
    pub const DEFAULT_ENDPOINT: &'static str = "https://api.linear.app/graphql";

    pub fn new(endpoint: &str, allowed_endpoints: Vec<String>) -> (p: LinearEndpointPolicy)
        ensures
            p.endpoint@ == endpoint@,
            p.allowed_endpoints@ == crate::strmap::string_views(allowed_endpoints@).to_set(),
    {
        LinearEndpointPolicy {
            endpoint: endpoint.to_owned(),
            allowed_endpoints: StringSet::from_strings(allowed_endpoints.as_slice()),
        }
    }

    /// The default endpoint, alone on its allowlist.
    pub fn with_default_allowlist() -> (p: LinearEndpointPolicy)
        ensures
            p.endpoint@ == LinearEndpointPolicy::DEFAULT_ENDPOINT@,
            p.allowed_endpoints@ == set![LinearEndpointPolicy::DEFAULT_ENDPOINT@],
    {
        let mut allowed: Vec<String> = Vec::new();
        allowed.push(LinearEndpointPolicy::DEFAULT_ENDPOINT.to_owned());
        let p = LinearEndpointPolicy::new(LinearEndpointPolicy::DEFAULT_ENDPOINT, allowed);
        proof {
            assert(crate::strmap::string_views(allowed@) =~= seq![LinearEndpointPolicy::DEFAULT_ENDPOINT@]);
            assert(seq![LinearEndpointPolicy::DEFAULT_ENDPOINT@].to_set() =~= set![LinearEndpointPolicy::DEFAULT_ENDPOINT@]) by {
                assert(seq![LinearEndpointPolicy::DEFAULT_ENDPOINT@][0] == LinearEndpointPolicy::DEFAULT_ENDPOINT@);
            }
        }
        p
    }

    pub fn endpoint(&self) -> (e: &str)
        ensures
            e@ == self.endpoint@,
    {
        self.endpoint.as_str()
    }

    /// Whether the configured endpoint is on the allowlist.
    pub fn endpoint_allowed(&self) -> (b: bool)
        ensures
            b == self.allowed_endpoints@.contains(self.endpoint@),
    {
        self.allowed_endpoints.contains(self.endpoint.as_str())
    }
}

/// A failed `linear-graphql` call: what the guest sees (a typed variant with
/// a generic message) and what the host-side audit keeps.
#[derive(Debug)]
pub struct LinearFailure {
    pub guest: HostError,
    pub audit_detail: String,
}

/// The GraphQL response handed back to the guest.
#[derive(Debug, Clone, PartialEq, Eq)]
pub struct GraphqlResponse {
    pub status: u16,
    pub body_json: String,
}

pub open spec fn denied_failure(f: LinearFailure, message: Seq<char>) -> bool {
    &&& f.guest matches HostError::Denied(m) && m@ == message
    &&& f.audit_detail@ == "denied: "@ + message
}

pub open spec fn invalid_failure(f: LinearFailure, message: Seq<char>) -> bool {
    &&& f.guest matches HostError::InvalidArgument(m) && m@ == message
    &&& f.audit_detail@ == "invalid-argument: "@ + message
}

impl LinearFailure {
    pub fn denied(message: &str) -> (f: LinearFailure)
        ensures
            denied_failure(f, message@),
    {
        let mut v: Vec<char> = Vec::new();
        extend_str(&mut v, "denied: ");
        extend_str(&mut v, message);
        LinearFailure {
            guest: HostError::Denied(message.to_owned()),
            audit_detail: string_from(v.as_slice()),
        }
    }

    pub fn invalid(message: String) -> (f: LinearFailure)
        ensures
            invalid_failure(f, message@),
    {
        let mut v: Vec<char> = Vec::new();
        extend_str(&mut v, "invalid-argument: ");
        extend_str(&mut v, message.as_str());
        LinearFailure { audit_detail: string_from(v.as_slice()), guest: HostError::InvalidArgument(message) }
    }

    /// The transport missed its deadline; the audit names only the deadline.
    pub fn timeout(deadline_ms: u64) -> (f: LinearFailure)
        ensures
            f.guest == HostError::Timeout,
            f.audit_detail@ == "timeout: transport exceeded "@ + decimal(deadline_ms as nat)
                + " ms deadline"@,
    {
        let mut v: Vec<char> = Vec::new();
        extend_str(&mut v, "timeout: transport exceeded ");
        let d = decimal_chars(deadline_ms);
        extend_chars(&mut v, d.as_slice());
        extend_str(&mut v, " ms deadline");
        LinearFailure { guest: HostError::Timeout, audit_detail: string_from(v.as_slice()) }
    }
}

/// The variables a valid call carries: `{}` for blank input, else the
/// trimmed input (which must be a JSON object).
pub open spec fn variables_outcome(variables_json: Seq<char>) -> Result<Seq<char>, Seq<char>> {
    let t = trim(variables_json);
    if t.len() == 0 {
        Ok("{}"@)
    } else {
        match serde_json_document(t) {
            Ok(doc) => if doc is Object {
                Ok(t)
            } else {
                Err("variables-json must be a JSON object"@)
            },
            Err(e) => Err("variables-json is not valid JSON: "@ + e),
        }
    }
}

/// Validate a guest's `linear-graphql` request against host policy and
/// build the call for the transport, checking in order: a capability is
/// configured, its endpoint is on the allowlist, the query is not blank,
/// the variables are blank or a JSON object.
pub fn prepare_linear_call(
    policy: Option<&LinearEndpointPolicy>,
    operation_name: Option<&str>,
    query: &str,
    variables_json: &str,
    mode: LinearMode,
    http_body_limit: usize,
    timeout_ms: u64,
) -> (r: Result<LinearCall, LinearFailure>)
    ensures
        match policy {
            None => r matches Err(f) && denied_failure(f, "linear capability not configured"@),
            Some(p) => if !p.allowed_endpoints@.contains(p.endpoint@) {
                r matches Err(f) && denied_failure(f, "linear endpoint is not on the allowlist"@)
            } else if trim(query@).len() == 0 {
                r matches Err(f) && invalid_failure(f, "query must not be empty"@)
            } else {
                match variables_outcome(variables_json@) {
                    Err(m) => r matches Err(f) && invalid_failure(f, m),
                    Ok(vars) => r matches Ok(call) && {
                        &&& call.operation_name matches Some(o) ==> operation_name matches Some(
                            x,
                        ) && o@ == x@
                        &&& call.operation_name is None ==> operation_name is None
                        &&& call.query@ == query@
                        &&& call.variables_json@ == vars
                        &&& call.mode == mode
                        &&& call.endpoint@ == p.endpoint@
                        &&& call.max_response_bytes == http_body_limit
                        &&& call.timeout_ms == timeout_ms
                    },
                }
            },
        },
{
    let p = match policy {
        None => {
            return Err(LinearFailure::denied("linear capability not configured"));
        },
        Some(p) => p,
    };
    if !p.endpoint_allowed() {
        return Err(LinearFailure::denied("linear endpoint is not on the allowlist"));
    }
    let q = chars_of(query);
    let qt = trim_vec(q.as_slice());
    if qt.len() == 0 {
        return Err(LinearFailure::invalid("query must not be empty".to_owned()));
    }
    let vc = chars_of(variables_json);
    let vt = trim_vec(vc.as_slice());
    let normalised: String = if vt.len() == 0 {
        "{}".to_owned()
    } else {
        let trimmed = string_from(vt.as_slice());
        match parse_json_document(trimmed.as_str()) {
            Err(e) => {
                let mut m: Vec<char> = Vec::new();
                extend_str(&mut m, "variables-json is not valid JSON: ");
                extend_str(&mut m, e.as_str());
                return Err(LinearFailure::invalid(string_from(m.as_slice())));
            },
            Ok(doc) => {
                let is_object = match doc {
                    JsonValue::Object(_) => true,
                    _ => false,
                };
                if !is_object {
                    return Err(LinearFailure::invalid("variables-json must be a JSON object".to_owned()));
                }
                trimmed
            },
        }
    };
    let op: Option<String> = match operation_name {
        Some(o) => Some(o.to_owned()),
        None => None,
    };
    Ok(
        LinearCall {
            operation_name: op,
            query: query.to_owned(),
            variables_json: normalised,
            mode,
            endpoint: p.endpoint.clone(),
            max_response_bytes: http_body_limit,
            timeout_ms,
        },
    )
}

/// `r` is what the guest gets for the transport answer `res`: the answer
/// itself, unless its body exceeds `limit` UTF-8 bytes.
pub open spec fn response_checked(
    res: LinearHttpResult,
    limit: usize,
    r: Result<GraphqlResponse, LinearFailure>,
) -> bool {
    &&& utf8_len(res.body_json@) > limit ==> (r matches Err(f) && f.guest matches HostError::Upstream(m)
        && m@ == "linear response body too large"@ && f.audit_detail@
        == "response body exceeds limit of "@ + decimal(limit as nat) + " bytes"@)
    &&& utf8_len(res.body_json@) <= limit ==> (r matches Ok(g) && g.status == res.status
        && g.body_json == res.body_json)
}

/// Refuse to hand the guest a response body larger than `limit` UTF-8
/// bytes.
pub fn check_linear_response(res: LinearHttpResult, limit: usize) -> (r: Result<
    GraphqlResponse,
    LinearFailure,
>)
    ensures
        response_checked(res, limit, r),
{
    let body = chars_of(res.body_json.as_str());
    if utf8_len_exec(body.as_slice()) > limit as u128 {
        let mut v: Vec<char> = Vec::new();
        extend_str(&mut v, "response body exceeds limit of ");
        let d = decimal_chars(limit as u64);
        extend_chars(&mut v, d.as_slice());
        extend_str(&mut v, " bytes");
        return Err(
            LinearFailure {
                guest: HostError::Upstream("linear response body too large".to_owned()),
                audit_detail: string_from(v.as_slice()),
            },
        );
    }
    Ok(GraphqlResponse { status: res.status, body_json: res.body_json })
}

/// `"{kind}: "` and the scrubbed, audit-truncated detail.
pub open spec fn transport_detail(scrubber: Scrubber, kind: Seq<char>, msg: Seq<char>) -> Seq<char> {
    kind + ": "@ + audit_text(scrubber.scrubbed(msg))
}

fn detail(scrubber: &Scrubber, kind: &str, msg: &str) -> (r: String)
    requires
        scrubber.can_scrub(msg@),
    ensures
        r@ == transport_detail(*scrubber, kind@, msg@),
{
    let scrubbed = scrubber.scrub_text(msg);
    let cut = truncate_for_audit(scrubbed.as_str());
    let mut v: Vec<char> = Vec::new();
    extend_str(&mut v, kind);
    extend_str(&mut v, ": ");
    extend_str(&mut v, cut.as_str());
    string_from(v.as_slice())
}

/// The transport's message can pass the scrubber.
pub open spec fn transport_error_scrubbable(scrubber: Scrubber, err: LinearTransportError) -> bool {
    match err {
        LinearTransportError::RateLimited(_) => true,
        LinearTransportError::Upstream(m) => scrubber.can_scrub(m@),
        LinearTransportError::Io(m) => scrubber.can_scrub(m@),
    }
}

/// `f` is what a transport failure `err` becomes for the guest and the
/// audit.
pub open spec fn transport_failure(scrubber: Scrubber, err: LinearTransportError, f: LinearFailure) -> bool {
    match err {
        LinearTransportError::RateLimited(hint) => {
            &&& f.guest == HostError::RateLimited(hint)
            &&& f.audit_detail@ == match hint {
                Some(secs) => "rate-limited: retry after "@ + decimal(secs as nat) + "s"@,
                None => "rate-limited"@,
            }
        },
        LinearTransportError::Upstream(m) => {
            &&& f.guest matches HostError::Upstream(g) && g@ == "linear upstream error"@
            &&& f.audit_detail@ == transport_detail(scrubber, "upstream"@, m@)
        },
        LinearTransportError::Io(m) => {
            &&& f.guest matches HostError::Io(g) && g@ == "linear transport io error"@
            &&& f.audit_detail@ == transport_detail(scrubber, "io"@, m@)
        },
    }
}

/// Map a transport failure for the guest and the audit. The guest gets a
/// fixed generic message (upstream text never crosses, so a token echoed by
/// the upstream cannot reach guest memory); the audit keeps the detail,
/// scrubbed and capped.
pub fn map_transport_failure(scrubber: &Scrubber, err: LinearTransportError) -> (f: LinearFailure)
    requires
        transport_error_scrubbable(*scrubber, err),
    ensures
        transport_failure(*scrubber, err, f),
{
    match err {
        LinearTransportError::RateLimited(hint) => {
            let audit_detail = match hint {
                Some(secs) => {
                    let mut v: Vec<char> = Vec::new();
                    extend_str(&mut v, "rate-limited: retry after ");
                    let d = decimal_chars(secs as u64);
                    extend_chars(&mut v, d.as_slice());
                    extend_str(&mut v, "s");
                    string_from(v.as_slice())
                },
                None => "rate-limited".to_owned(),
            };
            LinearFailure { guest: HostError::RateLimited(hint), audit_detail }
        },
        LinearTransportError::Upstream(msg) => LinearFailure {
            guest: HostError::Upstream("linear upstream error".to_owned()),
            audit_detail: detail(scrubber, "upstream", msg.as_str()),
        },
        LinearTransportError::Io(msg) => LinearFailure {
            guest: HostError::Io("linear transport io error".to_owned()),
            audit_detail: detail(scrubber, "io", msg.as_str()),
        },
    }
}

/// Process-wide ceiling on transport workers in flight; past it a call
/// fails closed as rate-limited instead of starting another worker.
pub const MAX_INFLIGHT_LINEAR_WORKERS: usize = 64;

/// How waiting for the transport worker of one call ended.
#[derive(Debug)]
pub enum TransportWait {
    /// Every worker slot was taken, so no worker was started.
    Saturated,
    /// The worker could not be started; the spawn error's text.
    SpawnFailed(String),
    /// The worker answered within the deadline.
    Answered(Result<LinearHttpResult, LinearTransportError>),
    /// The deadline passed first; the worker is left to finish alone.
    TimedOut,
    /// The worker ended without answering.
    Vanished,
}

/// Every text `conclude_transport_wait` scrubs can be scrubbed.
pub open spec fn wait_scrubbable(scrubber: Scrubber, wait: TransportWait) -> bool {
    match wait {
        TransportWait::Answered(Err(e)) => transport_error_scrubbable(scrubber, e),
        _ => true,
    }
}

/// What a call that waited `deadline_ms` for its transport worker gets.
pub open spec fn wait_outcome(
    scrubber: Scrubber,
    wait: TransportWait,
    deadline_ms: u64,
    r: Result<LinearHttpResult, LinearFailure>,
) -> bool {
    match wait {
        TransportWait::Saturated => r matches Err(f) && f.guest == HostError::RateLimited(None)
            && f.audit_detail@ == "rate-limited: "@ + decimal(MAX_INFLIGHT_LINEAR_WORKERS as nat)
            + " linear transport workers already in flight"@,
        TransportWait::SpawnFailed(e) => r matches Err(f) && f.guest matches HostError::Io(g) && g@
            == "linear transport io error"@ && f.audit_detail@
            == "io: failed to spawn transport worker: "@ + e@,
        TransportWait::Answered(Ok(res)) => r == Ok::<LinearHttpResult, LinearFailure>(res),
        TransportWait::Answered(Err(e)) => r matches Err(f) && transport_failure(scrubber, e, f),
        TransportWait::TimedOut => r matches Err(f) && f.guest == HostError::Timeout
            && f.audit_detail@ == "timeout: transport exceeded "@ + decimal(deadline_ms as nat)
            + " ms deadline"@,
        TransportWait::Vanished => r matches Err(f) && f.guest matches HostError::Io(g) && g@
            == "linear transport io error"@ && f.audit_detail@
            == "io: transport worker terminated before returning"@,
    }
}

/// Turn the end of the wait for a transport worker into the call's result.
pub fn conclude_transport_wait(scrubber: &Scrubber, wait: TransportWait, deadline_ms: u64) -> (r:
    Result<LinearHttpResult, LinearFailure>)
    requires
        wait_scrubbable(*scrubber, wait),
    ensures
        wait_outcome(*scrubber, wait, deadline_ms, r),
{
    match wait {
        TransportWait::Saturated => {
            let mut v: Vec<char> = Vec::new();
            extend_str(&mut v, "rate-limited: ");
            let d = decimal_chars(MAX_INFLIGHT_LINEAR_WORKERS as u64);
            extend_chars(&mut v, d.as_slice());
            extend_str(&mut v, " linear transport workers already in flight");
            Err(LinearFailure { guest: HostError::RateLimited(None), audit_detail: string_from(v.as_slice()) })
        },
        TransportWait::SpawnFailed(e) => {
            let mut v: Vec<char> = Vec::new();
            extend_str(&mut v, "io: failed to spawn transport worker: ");
            extend_str(&mut v, e.as_str());
            Err(
                LinearFailure {
                    guest: HostError::Io("linear transport io error".to_owned()),
                    audit_detail: string_from(v.as_slice()),
                },
            )
        },
        TransportWait::Answered(Ok(res)) => Ok(res),
        TransportWait::Answered(Err(e)) => Err(map_transport_failure(scrubber, e)),
        TransportWait::TimedOut => Err(LinearFailure::timeout(deadline_ms)),
        TransportWait::Vanished => Err(
            LinearFailure {
                guest: HostError::Io("linear transport io error".to_owned()),
                audit_detail: "io: transport worker terminated before returning".to_owned(),
            },
        ),
    }
}

/// The rest of a `linear-graphql` call once its transport wait has ended:
/// the wait's outcome, then the body-size backstop.
pub fn finish_linear_call(scrubber: &Scrubber, wait: TransportWait, deadline_ms: u64, limit: usize) -> (r:
    Result<GraphqlResponse, LinearFailure>)
    requires
        wait_scrubbable(*scrubber, wait),
    ensures
        match wait {
            TransportWait::Answered(Ok(res)) => response_checked(res, limit, r),
            _ => r matches Err(f) && wait_outcome(
                *scrubber,
                wait,
                deadline_ms,
                Err::<LinearHttpResult, LinearFailure>(f),
            ),
        },
{
    match conclude_transport_wait(scrubber, wait, deadline_ms) {
        Ok(res) => check_linear_response(res, limit),
        Err(f) => Err(f),
    }
}

/// The fields of one `linear-graphql` audit entry: never the raw query,
/// only its fingerprint, the scrubbed operation name, the duration, the
/// mode and, on failure, the scrubbed detail.
#[derive(Debug, Clone, PartialEq, Eq)]
pub struct LinearAudit {
    pub operation_name: Option<String>,
    pub query_fingerprint: String,
    pub duration_ms: u64,
    pub graphql_mode: String,
    pub error: Option<String>,
}

/// Assemble the audit entry of one call.
pub fn linear_audit(
    scrubber: &Scrubber,
    operation_name: Option<&str>,
    fingerprint: &str,
    duration_ms: u64,
    mode: LinearMode,
    error_detail: Option<&str>,
) -> (a: LinearAudit)
    requires
        operation_name matches Some(n) ==> scrubber.can_scrub(n@),
        error_detail matches Some(d) ==> scrubber.can_scrub(d@),
    ensures
        match operation_name {
            Some(n) => a.operation_name matches Some(x) && x@ == scrubber.scrubbed(n@),
            None => a.operation_name is None,
        },
        a.query_fingerprint@ == fingerprint@,
        a.duration_ms == duration_ms,
        a.graphql_mode@ == (match mode {
            LinearMode::Read => "read"@,
            LinearMode::Write => "write"@,
        }),
        match error_detail {
            Some(d) => a.error matches Some(x) && x@ == scrubber.scrubbed(d@),
            None => a.error is None,
        },
{
    let op = match operation_name {
        Some(n) => Some(scrubber.scrub_text(n)),
        None => None,
    };
    let error = match error_detail {
        Some(d) => Some(scrubber.scrub_text(d)),
        None => None,
    };
    LinearAudit {
        operation_name: op,
        query_fingerprint: fingerprint.to_owned(),
        duration_ms,
        graphql_mode: mode.label().to_owned(),
        error,
    }
}

// ---------------------------------------------------------------------------
// Secrets, workspace reads, error mapping
// ---------------------------------------------------------------------------

/// `secret-exists`: presence only; an empty name is invalid.
pub fn secret_exists(secret_names: &StringSet, name: &str) -> (r: Result<bool, HostError>)
    ensures
        name@.len() == 0 ==> (r matches Err(HostError::InvalidArgument(m)) && m@
            == "secret name must not be empty"@),
        name@.len() > 0 ==> r == Ok::<bool, HostError>(secret_names@.contains(name@)),
{
    if name.is_empty() {
        return Err(HostError::InvalidArgument("secret name must not be empty".to_owned()));
    }
    Ok(secret_names.contains(name))
}

/// Hard cap on one `workspace-read` without an explicit limit.
pub const MAX_WORKSPACE_READ_BYTES: u64 = 4194304;

/// Where a read of `total_len` bytes starts and how many bytes it may take:
/// the offset (default 0) clamped to the length, and the limit (default
/// `cap`) clamped to `cap`.
pub fn window_bounds(total_len: u64, offset: Option<u64>, limit: Option<u64>, cap: u64) -> (r: (
    u64,
    u64,
))
    ensures
        r.0 == (match offset {
            Some(o) => if o < total_len {
                o
            } else {
                total_len
            },
            None => 0,
        }),
        r.1 == (match limit {
            Some(l) => if l < cap {
                l
            } else {
                cap
            },
            None => cap,
        }),
{
    let start = match offset {
        Some(o) => if o < total_len {
            o
        } else {
            total_len
        },
        None => 0,
    };
    let window = match limit {
        Some(l) => if l < cap {
            l
        } else {
            cap
        },
        None => cap,
    };
    (start, window)
}

/// The `offset`/`limit` window of `data`, capped at `cap` bytes, and whether
/// bytes remain past it. An offset beyond the end gives an empty,
/// non-truncated read.
pub fn read_window(data: &[u8], offset: Option<u64>, limit: Option<u64>, cap: u64) -> (r: (
    Vec<u8>,
    bool,
))
    ensures
        ({
            let start: int = match offset {
                Some(o) => if o < data@.len() {
                    o as int
                } else {
                    data@.len() as int
                },
                None => 0,
            };
            let window: int = match limit {
                Some(l) => if l < cap {
                    l as int
                } else {
                    cap as int
                },
                None => cap as int,
            };
            let end: int = if start + window < data@.len() {
                start + window
            } else {
                data@.len() as int
            };
            &&& r.0@ == data@.subrange(start, end)
            &&& r.1 == (end < data@.len())
        }),
{
    let (start, window) = window_bounds(data.len() as u64, offset, limit, cap);
    let s: usize = start as usize;
    let room: u64 = (data.len() - s) as u64;
    let take: usize = if window < room {
        window as usize
    } else {
        data.len() - s
    };
    let mut buf: Vec<u8> = Vec::new();
    let mut i: usize = 0;
    while i < take
        invariant
            s + take <= data.len(),
            i <= take,
            buf@ == data@.subrange(s as int, s + i),
        decreases take - i,
    {
        buf.push(data[s + i]);
        assert(buf@ =~= data@.subrange(s as int, s + i + 1));
        i = i + 1;
    }
    let truncated = (data.len() - s) as u64 > take as u64;
    (buf, truncated)
}

/// The I/O error kinds the guest-facing mapping distinguishes.
#[derive(Debug, Clone, Copy, PartialEq, Eq)]
pub enum IoErrorKind {
    NotFound,
    PermissionDenied,
    Other,
}

/// An I/O failure as the guest sees it; host paths are never echoed.
pub fn map_io_error(kind: IoErrorKind, message: String) -> (e: HostError)
    ensures
        kind == IoErrorKind::NotFound ==> (e matches HostError::NotFound(m) && m@
            == "path not found in workspace"@),
        kind == IoErrorKind::PermissionDenied ==> (e matches HostError::Denied(m) && m@
            == "permission denied"@),
        kind == IoErrorKind::Other ==> e == HostError::Io(message),
{
    match kind {
        IoErrorKind::NotFound => HostError::NotFound("path not found in workspace".to_owned()),
        IoErrorKind::PermissionDenied => HostError::Denied("permission denied".to_owned()),
        IoErrorKind::Other => HostError::Io(message),
    }
}

} // verus!

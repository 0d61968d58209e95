//! Codex turn lifecycle notifications, decoded from the app-server's
//! JSONL stdout stream.
//!
//! Each line is a JSON-RPC notification. The narrow set of methods the
//! orchestrator acts on is decoded into typed variants, and every key the
//! v2 schema requires of them must be present (with its JSON type), so a
//! truncated payload fails closed. Any other method passes through as
//! `TurnEvent::Other`, so a schema bump never makes decoding fail.
//!
//! The envelope and each params struct are read the way `serde`'s derived
//! `Deserialize` reads a struct: from an object by member name, or from an
//! array holding the fields in declaration order. Decoding works on the
//! document `serde_json` parsed, in which a key repeated in one object
//! keeps its last value; a repeated field is therefore not refused, and a
//! params mismatch is reported with this module's own message.
use vstd::prelude::*;

use crate::json::{
    field, item, lemma_items_model, parse_json_document, serde_json_document, slot, JsonModel,
    JsonValue,
};
use crate::strmap::str_eq;
use crate::text::{chars_of, decimal, digit_char, is_ascii_digit, string_from, trim, trim_vec};

verus! {

/// Why a notification line was not decoded.
#[derive(Debug)]
pub enum EventStreamError {
    /// The line is not JSON, or its shape does not match the schema; the
    /// text says which.
    Json(String),
    /// The envelope carries no `method`.
    MissingMethod,
}

/// Narrowly-typed view of a Codex server notification, scoped to what
/// orchestration needs.
#[derive(Debug)]
pub enum TurnEvent {
    ThreadStarted { thread_id: String },
    TurnStarted { thread_id: String, turn_id: String },
    TurnCompleted { thread_id: String, turn_id: String },
    /// Server-side error during a turn; `will_retry` carries Codex's own
    /// retry signal.
    Error { thread_id: String, turn_id: String, message: String, will_retry: bool },
    /// Cumulative (`total`) token usage of the thread.
    TokenUsage { thread_id: String, turn_id: String, input_tokens: u64, output_tokens: u64 },
    AgentMessageDelta { thread_id: String, turn_id: String, delta: String },
    /// Account-scope rate-limit observation, passed through raw.
    RateLimitsUpdated { params: JsonValue },
    /// Any other method, with its params.
    Other { method: String, params: JsonValue },
}

/// The value of a `TurnEvent`.
pub enum TurnEventModel {
    ThreadStarted { thread_id: Seq<char> },
    TurnStarted { thread_id: Seq<char>, turn_id: Seq<char> },
    TurnCompleted { thread_id: Seq<char>, turn_id: Seq<char> },
    Error { thread_id: Seq<char>, turn_id: Seq<char>, message: Seq<char>, will_retry: bool },
    TokenUsage { thread_id: Seq<char>, turn_id: Seq<char>, input_tokens: u64, output_tokens: u64 },
    AgentMessageDelta { thread_id: Seq<char>, turn_id: Seq<char>, delta: Seq<char> },
    RateLimitsUpdated { params: JsonModel },
    Other { method: Seq<char>, params: JsonModel },
}

/// The value of an `EventStreamError`.
pub enum EventErrorModel {
    Json(Seq<char>),
    MissingMethod,
}

impl View for TurnEvent {
    type V = TurnEventModel;

    open spec fn view(&self) -> TurnEventModel {
        match self {
            TurnEvent::ThreadStarted { thread_id } => TurnEventModel::ThreadStarted {
                thread_id: thread_id@,
            },
            TurnEvent::TurnStarted { thread_id, turn_id } => TurnEventModel::TurnStarted {
                thread_id: thread_id@,
                turn_id: turn_id@,
            },
            TurnEvent::TurnCompleted { thread_id, turn_id } => TurnEventModel::TurnCompleted {
                thread_id: thread_id@,
                turn_id: turn_id@,
            },
            TurnEvent::Error { thread_id, turn_id, message, will_retry } => TurnEventModel::Error {
                thread_id: thread_id@,
                turn_id: turn_id@,
                message: message@,
                will_retry: *will_retry,
            },
            TurnEvent::TokenUsage { thread_id, turn_id, input_tokens, output_tokens } =>
                TurnEventModel::TokenUsage {
                thread_id: thread_id@,
                turn_id: turn_id@,
                input_tokens: *input_tokens,
                output_tokens: *output_tokens,
            },
            TurnEvent::AgentMessageDelta { thread_id, turn_id, delta } =>
                TurnEventModel::AgentMessageDelta {
                thread_id: thread_id@,
                turn_id: turn_id@,
                delta: delta@,
            },
            TurnEvent::RateLimitsUpdated { params } => TurnEventModel::RateLimitsUpdated {
                params: params@,
            },
            TurnEvent::Other { method, params } => TurnEventModel::Other {
                method: method@,
                params: params@,
            },
        }
    }
}

impl View for EventStreamError {
    type V = EventErrorModel;

    open spec fn view(&self) -> EventErrorModel {
        match self {
            EventStreamError::Json(m) => EventErrorModel::Json(m@),
            EventStreamError::MissingMethod => EventErrorModel::MissingMethod,
        }
    }
}

/// The value of a decoding outcome.
pub open spec fn outcome_view(r: Result<TurnEvent, EventStreamError>) -> Result<
    TurnEventModel,
    EventErrorModel,
> {
    match r {
        Ok(e) => Ok(e@),
        Err(e) => Err(e@),
    }
}

// ---------------------------------------------------------------------------
// The notification schema
// ---------------------------------------------------------------------------

/// Field `key` (`i`-th of `n`) of the struct held by `v`, when it is a
/// string.
pub open spec fn str_slot(v: JsonModel, key: Seq<char>, i: int, n: int) -> Option<Seq<char>> {
    match slot(v, key, i, n) {
        Some(JsonModel::Str(t)) => Some(t),
        _ => None,
    }
}

/// The struct held by `v` has field `key` (`i`-th of `n`), whatever its
/// value (`null` included).
pub open spec fn has_slot(v: JsonModel, key: Seq<char>, i: int, n: int) -> bool {
    slot(v, key, i, n) is Some
}

/// Every character of `t` is an ASCII digit.
pub open spec fn all_digits(t: Seq<char>) -> bool {
    forall|i: int| 0 <= i < t.len() ==> is_ascii_digit(#[trigger] t[i])
}

/// The integer that the decimal digits `t` spell.
pub open spec fn digits_value(t: Seq<char>) -> int
    decreases t.len(),
{
    if t.len() == 0 {
        0
    } else {
        digits_value(t.drop_last()) * 10 + (t.last() as int - '0' as int)
    }
}

/// The `u64` a JSON number text denotes, when it is a non-negative integer
/// in range (the numbers `serde_json` prints as bare digits).
pub open spec fn number_u64(t: Seq<char>) -> Option<u64> {
    if t.len() > 0 && all_digits(t) && digits_value(t) <= u64::MAX {
        Some(digits_value(t) as u64)
    } else {
        None
    }
}

/// Field `key` (`i`-th of `n`) of the struct held by `v`, when it is a
/// number that fits a `u64`.
pub open spec fn u64_slot(v: JsonModel, key: Seq<char>, i: int, n: int) -> Option<u64> {
    match slot(v, key, i, n) {
        Some(JsonModel::Number(t)) => number_u64(t),
        _ => None,
    }
}

/// An optional string member: absent, `null`, or a string.
pub open spec fn optional_string_ok(f: Option<JsonModel>) -> bool {
    match f {
        None => true,
        Some(JsonModel::Null) => true,
        Some(JsonModel::Str(_)) => true,
        _ => false,
    }
}

/// An optional `u64` member: absent, `null`, or a number in range.
pub open spec fn optional_u64_ok(f: Option<JsonModel>) -> bool {
    match f {
        None => true,
        Some(JsonModel::Null) => true,
        Some(JsonModel::Number(t)) => number_u64(t) is Some,
        _ => false,
    }
}

/// A `Turn` (fields `id`, `status`, `items`, `itemsView`, `error`,
/// `startedAt`, `completedAt`): a string `id`, the others present (each may
/// be `null`).
pub open spec fn turn_ok(t: JsonModel) -> bool {
    &&& str_slot(t, "id"@, 0, 7) is Some
    &&& has_slot(t, "status"@, 1, 7)
    &&& has_slot(t, "items"@, 2, 7)
    &&& has_slot(t, "itemsView"@, 3, 7)
    &&& has_slot(t, "error"@, 4, 7)
    &&& has_slot(t, "startedAt"@, 5, 7)
    &&& has_slot(t, "completedAt"@, 6, 7)
}

/// A `TokenUsageBreakdown` (fields `inputTokens`, `outputTokens`): both in
/// range.
pub open spec fn breakdown_ok(b: JsonModel) -> bool {
    u64_slot(b, "inputTokens"@, 0, 2) is Some && u64_slot(b, "outputTokens"@, 1, 2) is Some
}

/// A `ThreadTokenUsage` (fields `total`, `last`, `modelContextWindow`):
/// two breakdowns and an optional count.
pub open spec fn token_usage_ok(u: JsonModel) -> bool {
    &&& slot(u, "total"@, 0, 3) matches Some(t) && breakdown_ok(t)
    &&& slot(u, "last"@, 1, 3) matches Some(l) && breakdown_ok(l)
    &&& optional_u64_ok(slot(u, "modelContextWindow"@, 2, 3))
}

/// The string fields `threadId` and `turnId`, declared first and second of
/// the `n` fields of the params struct.
pub open spec fn thread_turn(p: JsonModel, n: int) -> Option<(Seq<char>, Seq<char>)> {
    match (str_slot(p, "threadId"@, 0, n), str_slot(p, "turnId"@, 1, n)) {
        (Some(th), Some(tu)) => Some((th, tu)),
        _ => None,
    }
}

/// The thread id and the turn's id of a `turn/started` or `turn/completed`
/// payload (fields `threadId`, `turn`).
pub open spec fn turn_ids(p: JsonModel) -> Option<(Seq<char>, Seq<char>)> {
    match (str_slot(p, "threadId"@, 0, 2), slot(p, "turn"@, 1, 2)) {
        (Some(th), Some(t)) => if turn_ok(t) {
            match str_slot(t, "id"@, 0, 7) {
                Some(tu) => Some((th, tu)),
                None => None,
            }
        } else {
            None
        },
        _ => None,
    }
}

/// The envelope (fields `jsonrpc`, `method`, `params`; `jsonrpc` and
/// `params` may be left out) is an object whose `jsonrpc` and `method` are
/// each absent, `null` or a string, or an array of two or three elements
/// whose first two are each `null` or a string.
pub open spec fn envelope_ok(doc: JsonModel) -> bool {
    match doc {
        JsonModel::Object(_) => optional_string_ok(field(doc, "jsonrpc"@)) && optional_string_ok(
            field(doc, "method"@),
        ),
        JsonModel::Array(items) => 2 <= items.len() <= 3 && optional_string_ok(Some(items[0]))
            && optional_string_ok(Some(items[1])),
        _ => false,
    }
}

/// The envelope's `method`.
pub open spec fn method_of(doc: JsonModel) -> Option<JsonModel> {
    match doc {
        JsonModel::Array(_) => item(doc, 1),
        _ => field(doc, "method"@),
    }
}

/// The envelope's `params`, `null` when absent.
pub open spec fn params_of(doc: JsonModel) -> JsonModel {
    match doc {
        JsonModel::Array(_) => match item(doc, 2) {
            Some(p) => p,
            None => JsonModel::Null,
        },
        _ => match field(doc, "params"@) {
            Some(p) => p,
            None => JsonModel::Null,
        },
    }
}

/// The message of a malformed envelope.
pub open spec fn envelope_error() -> Seq<char> {
    "notification envelope is not a JSON-RPC object"@
}

/// The message of params that do not match their method's schema.
pub open spec fn params_error() -> Seq<char> {
    "notification params do not match the method's schema"@
}

/// What a notification of `method` with params `p` decodes to. Each params
/// struct is read as `slot` reads a struct: from an object by name, or from
/// an array holding exactly its fields in declaration order.
pub open spec fn method_outcome(method: Seq<char>, p: JsonModel) -> Result<
    TurnEventModel,
    EventErrorModel,
> {
    let bad = Err(EventErrorModel::Json(params_error()));
    if method == "thread/started"@ {
        match slot(p, "thread"@, 0, 1) {
            Some(t) => match str_slot(t, "id"@, 0, 1) {
                Some(id) => Ok(TurnEventModel::ThreadStarted { thread_id: id }),
                None => bad,
            },
            None => bad,
        }
    } else if method == "turn/started"@ {
        match turn_ids(p) {
            Some((th, tu)) => Ok(TurnEventModel::TurnStarted { thread_id: th, turn_id: tu }),
            None => bad,
        }
    } else if method == "turn/completed"@ {
        match turn_ids(p) {
            Some((th, tu)) => Ok(TurnEventModel::TurnCompleted { thread_id: th, turn_id: tu }),
            None => bad,
        }
    } else if method == "error"@ {
        match (thread_turn(p, 4), slot(p, "error"@, 2, 4), slot(p, "willRetry"@, 3, 4)) {
            (Some((th, tu)), Some(e), Some(JsonModel::Bool(w))) => match str_slot(
                e,
                "message"@,
                0,
                1,
            ) {
                Some(m) => Ok(
                    TurnEventModel::Error { thread_id: th, turn_id: tu, message: m, will_retry: w },
                ),
                None => bad,
            },
            _ => bad,
        }
    } else if method == "thread/tokenUsage/updated"@ {
        match (thread_turn(p, 3), slot(p, "tokenUsage"@, 2, 3)) {
            (Some((th, tu)), Some(u)) => if token_usage_ok(u) {
                match slot(u, "total"@, 0, 3) {
                    Some(t) => match (
                        u64_slot(t, "inputTokens"@, 0, 2),
                        u64_slot(t, "outputTokens"@, 1, 2),
                    ) {
                        (Some(i), Some(o)) => Ok(
                            TurnEventModel::TokenUsage {
                                thread_id: th,
                                turn_id: tu,
                                input_tokens: i,
                                output_tokens: o,
                            },
                        ),
                        _ => bad,
                    },
                    None => bad,
                }
            } else {
                bad
            },
            _ => bad,
        }
    } else if method == "item/agentMessage/delta"@ {
        match (thread_turn(p, 3), str_slot(p, "delta"@, 2, 3)) {
            (Some((th, tu)), Some(d)) => Ok(
                TurnEventModel::AgentMessageDelta { thread_id: th, turn_id: tu, delta: d },
            ),
            _ => bad,
        }
    } else if method == "account/rateLimits/updated"@ {
        if has_slot(p, "rateLimits"@, 0, 1) {
            Ok(TurnEventModel::RateLimitsUpdated { params: p })
        } else {
            bad
        }
    } else {
        Ok(TurnEventModel::Other { method, params: p })
    }
}

/// What a parsed notification document decodes to.
pub open spec fn notification_outcome(doc: JsonModel) -> Result<TurnEventModel, EventErrorModel> {
    if !envelope_ok(doc) {
        Err(EventErrorModel::Json(envelope_error()))
    } else {
        match method_of(doc) {
            Some(JsonModel::Str(m)) => method_outcome(m, params_of(doc)),
            _ => Err(EventErrorModel::MissingMethod),
        }
    }
}

/// What a line of the stream decodes to: the trimmed line is parsed as a
/// JSON document, then decoded.
pub open spec fn line_outcome(line: Seq<char>) -> Result<TurnEventModel, EventErrorModel> {
    match serde_json_document(trim(line)) {
        Err(m) => Err(EventErrorModel::Json(m)),
        Ok(doc) => notification_outcome(doc),
    }
}

// ---------------------------------------------------------------------------
// Laws of the decoder
// ---------------------------------------------------------------------------

/// `doc` is a JSON-RPC notification object for `method` with params `p`:
/// its `jsonrpc`, if any, is a string or `null`.
pub open spec fn notification(doc: JsonModel, method: Seq<char>, p: JsonModel) -> bool {
    &&& doc is Object
    &&& field(doc, "method"@) == Some(JsonModel::Str(method))
    &&& field(doc, "params"@) == Some(p)
    &&& match field(doc, "jsonrpc"@) {
        None => true,
        Some(JsonModel::Null) => true,
        Some(JsonModel::Str(_)) => true,
        _ => false,
    }
}

proof fn lemma_digit_char_value(d: nat)
    requires
        d < 10,
    ensures
        is_ascii_digit(digit_char(d)),
        digit_char(d) as int - '0' as int == d,
{
}

proof fn lemma_decimal_digits(n: nat)
    ensures
        decimal(n).len() > 0,
        all_digits(decimal(n)),
        digits_value(decimal(n)) == n,
    decreases n,
{
    if n >= 10 {
        lemma_decimal_digits(n / 10);
        lemma_digit_char_value(n % 10);
        assert(n == (n / 10) * 10 + n % 10) by (nonlinear_arith);
        let d = decimal(n);
        assert(d.drop_last() =~= decimal(n / 10));
        assert(d.last() == digit_char(n % 10));
        assert(digits_value(d) == digits_value(decimal(n / 10)) * 10 + (n % 10));
        assert forall|i: int| 0 <= i < d.len() implies is_ascii_digit(#[trigger] d[i]) by {
            if i < d.len() - 1 {
                assert(d[i] == decimal(n / 10)[i]);
            }
        }
    } else {
        lemma_digit_char_value(n);
        assert(decimal(n).drop_last() =~= Seq::<char>::empty());
        assert(digits_value(decimal(n).drop_last()) == 0);
        assert(decimal(n).last() == digit_char(n));
    }
}

/// The decimal text of a `u64`, as a JSON number, denotes that `u64`: a
/// token count is read as the number written.
pub proof fn lemma_number_reads_decimal(n: u64)
    ensures
        number_u64(decimal(n as nat)) == Some(n),
{
    lemma_decimal_digits(n as nat);
}

/// The decoded method names differ from one another.
proof fn lemma_methods_distinct()
    ensures
        "thread/started"@ != "turn/started"@,
        "thread/started"@ != "turn/completed"@,
        "thread/started"@ != "error"@,
        "thread/started"@ != "thread/tokenUsage/updated"@,
        "thread/started"@ != "item/agentMessage/delta"@,
        "thread/started"@ != "account/rateLimits/updated"@,
        "turn/started"@ != "turn/completed"@,
        "turn/started"@ != "error"@,
        "turn/started"@ != "thread/tokenUsage/updated"@,
        "turn/started"@ != "item/agentMessage/delta"@,
        "turn/started"@ != "account/rateLimits/updated"@,
        "turn/completed"@ != "error"@,
        "turn/completed"@ != "thread/tokenUsage/updated"@,
        "turn/completed"@ != "item/agentMessage/delta"@,
        "turn/completed"@ != "account/rateLimits/updated"@,
        "error"@ != "thread/tokenUsage/updated"@,
        "error"@ != "item/agentMessage/delta"@,
        "error"@ != "account/rateLimits/updated"@,
        "thread/tokenUsage/updated"@ != "item/agentMessage/delta"@,
        "thread/tokenUsage/updated"@ != "account/rateLimits/updated"@,
        "item/agentMessage/delta"@ != "account/rateLimits/updated"@,
{
    reveal_strlit("thread/started");
    reveal_strlit("turn/started");
    reveal_strlit("turn/completed");
    reveal_strlit("error");
    reveal_strlit("thread/tokenUsage/updated");
    reveal_strlit("item/agentMessage/delta");
    reveal_strlit("account/rateLimits/updated");
    assert("thread/started"@[1] != "turn/started"@[1]);
    assert("thread/started"@[1] != "turn/completed"@[1]);
    assert("thread/started"@[0] != "error"@[0]);
    assert("thread/started"@[7] != "thread/tokenUsage/updated"@[7]);
    assert("thread/started"@[0] != "item/agentMessage/delta"@[0]);
    assert("thread/started"@[0] != "account/rateLimits/updated"@[0]);
    assert("turn/started"@[5] != "turn/completed"@[5]);
    assert("turn/started"@[0] != "error"@[0]);
    assert("turn/started"@[1] != "thread/tokenUsage/updated"@[1]);
    assert("turn/started"@[0] != "item/agentMessage/delta"@[0]);
    assert("turn/started"@[0] != "account/rateLimits/updated"@[0]);
    assert("turn/completed"@[0] != "error"@[0]);
    assert("turn/completed"@[1] != "thread/tokenUsage/updated"@[1]);
    assert("turn/completed"@[0] != "item/agentMessage/delta"@[0]);
    assert("turn/completed"@[0] != "account/rateLimits/updated"@[0]);
    assert("error"@[0] != "thread/tokenUsage/updated"@[0]);
    assert("error"@[0] != "item/agentMessage/delta"@[0]);
    assert("error"@[0] != "account/rateLimits/updated"@[0]);
    assert("thread/tokenUsage/updated"@[0] != "item/agentMessage/delta"@[0]);
    assert("thread/tokenUsage/updated"@[0] != "account/rateLimits/updated"@[0]);
    assert("item/agentMessage/delta"@[0] != "account/rateLimits/updated"@[0]);
}

/// An agent message delta carries the params' `threadId` as its thread,
/// the params' `turnId` as its turn, and the params' `delta` as its text.
pub proof fn lemma_delta_fields(doc: JsonModel, p: JsonModel, th: Seq<char>, tu: Seq<char>, d: Seq<char>)
    requires
        notification(doc, "item/agentMessage/delta"@, p),
        p is Object,
        field(p, "threadId"@) == Some(JsonModel::Str(th)),
        field(p, "turnId"@) == Some(JsonModel::Str(tu)),
        field(p, "delta"@) == Some(JsonModel::Str(d)),
    ensures
        notification_outcome(doc) == Ok::<TurnEventModel, EventErrorModel>(
            TurnEventModel::AgentMessageDelta { thread_id: th, turn_id: tu, delta: d },
        ),
{
    lemma_methods_distinct();
}

/// A started thread carries the id of the params' `thread` object.
pub proof fn lemma_thread_started_fields(doc: JsonModel, p: JsonModel, t: JsonModel, id: Seq<char>)
    requires
        notification(doc, "thread/started"@, p),
        p is Object,
        t is Object,
        field(p, "thread"@) == Some(t),
        field(t, "id"@) == Some(JsonModel::Str(id)),
    ensures
        notification_outcome(doc) == Ok::<TurnEventModel, EventErrorModel>(
            TurnEventModel::ThreadStarted { thread_id: id },
        ),
{
}

/// A complete `Turn` object: a string `id` and the six other keys present.
pub open spec fn full_turn(t: JsonModel, id: Seq<char>) -> bool {
    &&& t is Object
    &&& field(t, "id"@) == Some(JsonModel::Str(id))
    &&& field(t, "status"@) is Some
    &&& field(t, "items"@) is Some
    &&& field(t, "itemsView"@) is Some
    &&& field(t, "error"@) is Some
    &&& field(t, "startedAt"@) is Some
    &&& field(t, "completedAt"@) is Some
}

/// A started or completed turn carries the params' `threadId` as its
/// thread and the id of the params' `turn` as its turn.
pub proof fn lemma_turn_fields(
    doc: JsonModel,
    method: Seq<char>,
    p: JsonModel,
    t: JsonModel,
    th: Seq<char>,
    tu: Seq<char>,
)
    requires
        method == "turn/started"@ || method == "turn/completed"@,
        notification(doc, method, p),
        p is Object,
        field(p, "threadId"@) == Some(JsonModel::Str(th)),
        field(p, "turn"@) == Some(t),
        full_turn(t, tu),
    ensures
        method == "turn/started"@ ==> notification_outcome(doc) == Ok::<
            TurnEventModel,
            EventErrorModel,
        >(TurnEventModel::TurnStarted { thread_id: th, turn_id: tu }),
        method == "turn/completed"@ ==> notification_outcome(doc) == Ok::<
            TurnEventModel,
            EventErrorModel,
        >(TurnEventModel::TurnCompleted { thread_id: th, turn_id: tu }),
{
    lemma_methods_distinct();
}

/// A turn leaving out any key of the `Turn` schema fails closed.
pub proof fn lemma_truncated_turn_fails(
    doc: JsonModel,
    p: JsonModel,
    t: JsonModel,
    key: Seq<char>,
)
    requires
        notification(doc, "turn/started"@, p),
        p is Object,
        field(p, "turn"@) == Some(t),
        t is Object,
        key == "id"@ || key == "status"@ || key == "items"@ || key == "itemsView"@ || key
            == "error"@ || key == "startedAt"@ || key == "completedAt"@,
        field(t, key) is None,
    ensures
        notification_outcome(doc) matches Err(EventErrorModel::Json(_)),
{
    lemma_methods_distinct();
}

/// An error notification carries the params' thread, turn, the `message`
/// of its `error` object and its `willRetry` flag.
pub proof fn lemma_error_fields(
    doc: JsonModel,
    p: JsonModel,
    e: JsonModel,
    th: Seq<char>,
    tu: Seq<char>,
    m: Seq<char>,
    w: bool,
)
    requires
        notification(doc, "error"@, p),
        p is Object,
        e is Object,
        field(p, "threadId"@) == Some(JsonModel::Str(th)),
        field(p, "turnId"@) == Some(JsonModel::Str(tu)),
        field(p, "error"@) == Some(e),
        field(e, "message"@) == Some(JsonModel::Str(m)),
        field(p, "willRetry"@) == Some(JsonModel::Bool(w)),
    ensures
        notification_outcome(doc) == Ok::<TurnEventModel, EventErrorModel>(
            TurnEventModel::Error { thread_id: th, turn_id: tu, message: m, will_retry: w },
        ),
{
    lemma_methods_distinct();
}

/// A token-usage breakdown object with the given counts.
pub open spec fn breakdown_of(b: JsonModel, i: u64, o: u64) -> bool {
    &&& b is Object
    &&& field(b, "inputTokens"@) matches Some(JsonModel::Number(t)) && number_u64(t) == Some(i)
    &&& field(b, "outputTokens"@) matches Some(JsonModel::Number(t)) && number_u64(t) == Some(o)
}

/// A token-usage notification reports the counts of `total`, not of
/// `last`, with the params' thread and turn.
pub proof fn lemma_token_usage_fields(
    doc: JsonModel,
    p: JsonModel,
    u: JsonModel,
    total: JsonModel,
    last: JsonModel,
    th: Seq<char>,
    tu: Seq<char>,
    i: u64,
    o: u64,
    li: u64,
    lo: u64,
)
    requires
        notification(doc, "thread/tokenUsage/updated"@, p),
        p is Object,
        u is Object,
        field(p, "threadId"@) == Some(JsonModel::Str(th)),
        field(p, "turnId"@) == Some(JsonModel::Str(tu)),
        field(p, "tokenUsage"@) == Some(u),
        field(u, "total"@) == Some(total),
        field(u, "last"@) == Some(last),
        field(u, "modelContextWindow"@) is None,
        breakdown_of(total, i, o),
        breakdown_of(last, li, lo),
    ensures
        notification_outcome(doc) == Ok::<TurnEventModel, EventErrorModel>(
            TurnEventModel::TokenUsage { thread_id: th, turn_id: tu, input_tokens: i, output_tokens: o },
        ),
{
    lemma_methods_distinct();
}

/// A method outside the decoded set passes through with its params.
pub proof fn lemma_other_passes_through(doc: JsonModel, method: Seq<char>, p: JsonModel)
    requires
        notification(doc, method, p),
        method != "thread/started"@,
        method != "turn/started"@,
        method != "turn/completed"@,
        method != "error"@,
        method != "thread/tokenUsage/updated"@,
        method != "item/agentMessage/delta"@,
        method != "account/rateLimits/updated"@,
    ensures
        notification_outcome(doc) == Ok::<TurnEventModel, EventErrorModel>(
            TurnEventModel::Other { method, params: p },
        ),
{
}

/// An object envelope without a method (or with a `null` one) is refused as
/// missing its method, whatever else it holds.
pub proof fn lemma_missing_method(doc: JsonModel)
    requires
        doc is Object,
        field(doc, "method"@) is None || field(doc, "method"@) == Some(JsonModel::Null),
        match field(doc, "jsonrpc"@) {
            None => true,
            Some(JsonModel::Null) => true,
            Some(JsonModel::Str(_)) => true,
            _ => false,
        },
    ensures
        notification_outcome(doc) == Err::<TurnEventModel, EventErrorModel>(
            EventErrorModel::MissingMethod,
        ),
{
}

// ---------------------------------------------------------------------------
// Decoding
// ---------------------------------------------------------------------------

proof fn lemma_digits_nonneg(t: Seq<char>)
    requires
        all_digits(t),
    ensures
        digits_value(t) >= 0,
    decreases t.len(),
{
    if t.len() > 0 {
        assert(all_digits(t.drop_last())) by {
            assert forall|i: int| 0 <= i < t.drop_last().len() implies is_ascii_digit(
                #[trigger] t.drop_last()[i],
            ) by {
                assert(t.drop_last()[i] == t[i]);
            }
        }
        lemma_digits_nonneg(t.drop_last());
        assert(is_ascii_digit(t[t.len() - 1]));
    }
}

/// Appending digits never makes the value smaller.
proof fn lemma_digits_prefix(t: Seq<char>, k: int)
    requires
        all_digits(t),
        0 <= k <= t.len(),
    ensures
        digits_value(t.take(k)) <= digits_value(t),
    decreases t.len() - k,
{
    if k < t.len() {
        lemma_digits_prefix(t, k + 1);
        assert(t.take(k + 1).drop_last() =~= t.take(k));
        assert(all_digits(t.take(k))) by {
            assert forall|i: int| 0 <= i < t.take(k).len() implies is_ascii_digit(
                #[trigger] t.take(k)[i],
            ) by {
                assert(t.take(k)[i] == t[i]);
            }
        }
        lemma_digits_nonneg(t.take(k));
        assert(is_ascii_digit(t[k]));
    } else {
        assert(t.take(k) =~= t);
    }
}

/// The `u64` a number text denotes (`number_u64`).
pub fn number_value(t: &str) -> (r: Option<u64>)
    ensures
        r == number_u64(t@),
{
    let cs = chars_of(t);
    if cs.len() == 0 {
        return None;
    }
    let mut acc: u64 = 0;
    let mut i: usize = 0;
    while i < cs.len()
        invariant
            i <= cs.len(),
            cs@ == t@,
            cs@.len() > 0,
            all_digits(cs@.take(i as int)),
            acc == digits_value(cs@.take(i as int)),
        decreases cs.len() - i,
    {
        let c = cs[i];
        proof {
            assert(cs@.take(i as int + 1).drop_last() =~= cs@.take(i as int));
            assert(cs@.take(i as int + 1).last() == c);
        }
        if !('0' <= c && c <= '9') {
            proof {
                assert(!is_ascii_digit(cs@[i as int]));
                assert(!all_digits(t@));
            }
            return None;
        }
        let d: u64 = (c as u32 - '0' as u32) as u64;
        if acc > (u64::MAX - d) / 10 {
            proof {
                assert(digits_value(cs@.take(i as int + 1)) > u64::MAX);
                if all_digits(t@) {
                    lemma_digits_prefix(t@, i as int + 1);
                }
            }
            return None;
        }
        acc = acc * 10 + d;
        proof {
            assert forall|j: int| 0 <= j < cs@.take(i as int + 1).len() implies is_ascii_digit(
                #[trigger] cs@.take(i as int + 1)[j],
            ) by {
                if j < i {
                    assert(cs@.take(i as int + 1)[j] == cs@.take(i as int)[j]);
                }
            }
        }
        i = i + 1;
    }
    proof {
        assert(cs@.take(i as int) =~= t@);
    }
    Some(acc)
}

/// Field `key` (`i`-th of `n`) of the struct held by `v`, when it is a
/// string.
pub fn str_member(v: &JsonValue, key: &str, i: usize, n: usize) -> (r: Option<String>)
    ensures
        match r {
            Some(t) => str_slot(v@, key@, i as int, n as int) == Some(t@),
            None => str_slot(v@, key@, i as int, n as int) is None,
        },
{
    match v.slot(key, i, n) {
        Some(JsonValue::Str(t)) => Some(t.clone()),
        _ => None,
    }
}

fn u64_member(v: &JsonValue, key: &str, i: usize, n: usize) -> (r: Option<u64>)
    ensures
        r == u64_slot(v@, key@, i as int, n as int),
{
    match v.slot(key, i, n) {
        Some(JsonValue::Number(t)) => number_value(t.as_str()),
        _ => None,
    }
}

fn has_member(v: &JsonValue, key: &str, i: usize, n: usize) -> (b: bool)
    ensures
        b == has_slot(v@, key@, i as int, n as int),
{
    v.slot(key, i, n).is_some()
}

/// Whether an optional string field holds an allowed value.
pub fn optional_string_value(f: Option<&JsonValue>) -> (b: bool)
    ensures
        b == optional_string_ok(
            match f {
                Some(x) => Some(x@),
                None => None,
            },
        ),
{
    match f {
        None => true,
        Some(JsonValue::Null) => true,
        Some(JsonValue::Str(_)) => true,
        Some(_) => false,
    }
}

fn breakdown_tokens(b: &JsonValue) -> (r: Option<(u64, u64)>)
    ensures
        match r {
            Some((i, o)) => u64_slot(b@, "inputTokens"@, 0, 2) == Some(i) && u64_slot(
                b@,
                "outputTokens"@,
                1,
                2,
            ) == Some(o),
            None => !breakdown_ok(b@),
        },
{
    match (u64_member(b, "inputTokens", 0, 2), u64_member(b, "outputTokens", 1, 2)) {
        (Some(i), Some(o)) => Some((i, o)),
        _ => None,
    }
}

/// The `total` counters of a valid `ThreadTokenUsage`.
fn token_usage_totals(u: &JsonValue) -> (r: Option<(u64, u64)>)
    ensures
        match r {
            Some((i, o)) => token_usage_ok(u@) && (slot(u@, "total"@, 0, 3) matches Some(t)
                && u64_slot(t, "inputTokens"@, 0, 2) == Some(i) && u64_slot(
                t,
                "outputTokens"@,
                1,
                2,
            ) == Some(o)),
            None => !token_usage_ok(u@),
        },
{
    let total = match u.slot("total", 0, 3) {
        Some(t) => breakdown_tokens(t),
        None => None,
    };
    let last_ok = match u.slot("last", 1, 3) {
        Some(l) => breakdown_tokens(l).is_some(),
        None => false,
    };
    let window_ok = match u.slot("modelContextWindow", 2, 3) {
        None => true,
        Some(JsonValue::Null) => true,
        Some(JsonValue::Number(t)) => number_value(t.as_str()).is_some(),
        Some(_) => false,
    };
    if last_ok && window_ok {
        total
    } else {
        None
    }
}

fn thread_turn_members(p: &JsonValue, n: usize) -> (r: Option<(String, String)>)
    requires
        n >= 2,
    ensures
        match r {
            Some((th, tu)) => thread_turn(p@, n as int) == Some((th@, tu@)),
            None => thread_turn(p@, n as int) is None,
        },
{
    match (str_member(p, "threadId", 0, n), str_member(p, "turnId", 1, n)) {
        (Some(th), Some(tu)) => Some((th, tu)),
        _ => None,
    }
}

fn turn_ok_exec(t: &JsonValue) -> (b: bool)
    ensures
        b == turn_ok(t@),
{
    str_member(t, "id", 0, 7).is_some() && has_member(t, "status", 1, 7) && has_member(
        t,
        "items",
        2,
        7,
    ) && has_member(t, "itemsView", 3, 7) && has_member(t, "error", 4, 7) && has_member(
        t,
        "startedAt",
        5,
        7,
    ) && has_member(t, "completedAt", 6, 7)
}

fn turn_id_members(p: &JsonValue) -> (r: Option<(String, String)>)
    ensures
        match r {
            Some((th, tu)) => turn_ids(p@) == Some((th@, tu@)),
            None => turn_ids(p@) is None,
        },
{
    let th = match str_member(p, "threadId", 0, 2) {
        Some(th) => th,
        None => return None,
    };
    let t = match p.slot("turn", 1, 2) {
        Some(t) => t,
        None => return None,
    };
    if !turn_ok_exec(t) {
        return None;
    }
    match str_member(t, "id", 0, 7) {
        Some(tu) => Some((th, tu)),
        None => None,
    }
}

fn params_failure() -> (e: EventStreamError)
    ensures
        e@ == EventErrorModel::Json(params_error()),
{
    EventStreamError::Json("notification params do not match the method's schema".to_owned())
}

/// Decode the params of a notification of `method`.
pub fn event_of_method(method: String, params: JsonValue) -> (r: Result<TurnEvent, EventStreamError>)
    ensures
        outcome_view(r) == method_outcome(method@, params@),
{
    if str_eq(method.as_str(), "thread/started") {
        let id = match params.slot("thread", 0, 1) {
            Some(t) => str_member(t, "id", 0, 1),
            None => None,
        };
        match id {
            Some(thread_id) => Ok(TurnEvent::ThreadStarted { thread_id }),
            None => Err(params_failure()),
        }
    } else if str_eq(method.as_str(), "turn/started") {
        match turn_id_members(&params) {
            Some((thread_id, turn_id)) => Ok(TurnEvent::TurnStarted { thread_id, turn_id }),
            None => Err(params_failure()),
        }
    } else if str_eq(method.as_str(), "turn/completed") {
        match turn_id_members(&params) {
            Some((thread_id, turn_id)) => Ok(TurnEvent::TurnCompleted { thread_id, turn_id }),
            None => Err(params_failure()),
        }
    } else if str_eq(method.as_str(), "error") {
        let ids = thread_turn_members(&params, 4);
        let message = match params.slot("error", 2, 4) {
            Some(e) => str_member(e, "message", 0, 1),
            None => None,
        };
        let will_retry = match params.slot("willRetry", 3, 4) {
            Some(JsonValue::Bool(w)) => Some(*w),
            _ => None,
        };
        match (ids, message, will_retry) {
            (Some((thread_id, turn_id)), Some(message), Some(will_retry)) => Ok(
                TurnEvent::Error { thread_id, turn_id, message, will_retry },
            ),
            _ => Err(params_failure()),
        }
    } else if str_eq(method.as_str(), "thread/tokenUsage/updated") {
        let ids = thread_turn_members(&params, 3);
        let totals = match params.slot("tokenUsage", 2, 3) {
            Some(u) => token_usage_totals(u),
            None => None,
        };
        match (ids, totals) {
            (Some((thread_id, turn_id)), Some((input_tokens, output_tokens))) => Ok(
                TurnEvent::TokenUsage { thread_id, turn_id, input_tokens, output_tokens },
            ),
            _ => Err(params_failure()),
        }
    } else if str_eq(method.as_str(), "item/agentMessage/delta") {
        match (thread_turn_members(&params, 3), str_member(&params, "delta", 2, 3)) {
            (Some((thread_id, turn_id)), Some(delta)) => Ok(
                TurnEvent::AgentMessageDelta { thread_id, turn_id, delta },
            ),
            _ => Err(params_failure()),
        }
    } else if str_eq(method.as_str(), "account/rateLimits/updated") {
        if has_member(&params, "rateLimits", 0, 1) {
            Ok(TurnEvent::RateLimitsUpdated { params })
        } else {
            Err(params_failure())
        }
    } else {
        Ok(TurnEvent::Other { method, params })
    }
}

/// Decode a parsed notification document: the envelope as an object, or
/// as an array `[jsonrpc, method]` or `[jsonrpc, method, params]`.
pub fn turn_event_of(doc: JsonValue) -> (r: Result<TurnEvent, EventStreamError>)
    ensures
        outcome_view(r) == notification_outcome(doc@),
{
    let shape_ok = match &doc {
        JsonValue::Object(_) => optional_string_value(doc.get("jsonrpc")) && optional_string_value(
            doc.get("method"),
        ),
        JsonValue::Array(items) => {
            let n = items.len();
            2 <= n && n <= 3 && optional_string_value(doc.get_item(0)) && optional_string_value(
                doc.get_item(1),
            )
        },
        _ => false,
    };
    proof {
        if doc@ is Array {
            assert(doc->Array_0@.len() == doc@->Array_0.len()) by {
                lemma_items_model(doc->Array_0@, doc->Array_0@.len());
            }
        }
    }
    if !shape_ok {
        return Err(
            EventStreamError::Json("notification envelope is not a JSON-RPC object".to_owned()),
        );
    }
    let is_array = match &doc {
        JsonValue::Array(_) => true,
        _ => false,
    };
    let method_value = if is_array {
        doc.get_item(1)
    } else {
        doc.get("method")
    };
    let method = match method_value {
        Some(JsonValue::Str(m)) => m.clone(),
        _ => {
            return Err(EventStreamError::MissingMethod);
        },
    };
    let params = if is_array {
        doc.take_item(2)
    } else {
        doc.take_member("params")
    };
    event_of_method(method, params)
}

/// Parse a single JSONL line from the Codex stdout stream: the trimmed line
/// is parsed as a JSON document, then decoded.
pub fn parse_notification_line(line: &str) -> (r: Result<TurnEvent, EventStreamError>)
    ensures
        outcome_view(r) == line_outcome(line@),
{
    let cs = chars_of(line);
    let trimmed_chars = trim_vec(cs.as_slice());
    let trimmed = string_from(trimmed_chars.as_slice());
    match parse_json_document(trimmed.as_str()) {
        Err(m) => Err(EventStreamError::Json(m)),
        Ok(doc) => turn_event_of(doc),
    }
}

} // verus!

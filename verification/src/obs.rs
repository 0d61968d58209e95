//! Observability: the structured-log field contract and key-shape redaction.
//!
//! Field names are a stable contract: every log site uses these constants so
//! downstream filters can rely on canonical names. `redact_value` keeps
//! secret-shaped fields out of every projection.
use vstd::prelude::*;

use crate::text::{
    ascii_lower_seq, ascii_lower_vec, chars_of, contains, contains_exec, ends_with,
    ends_with_exec,
};

verus! {

pub const FIELD_ISSUE_ID: &'static str = "issue_id";
pub const FIELD_ISSUE_IDENTIFIER: &'static str = "issue_identifier";
pub const FIELD_SESSION_ID: &'static str = "session_id";
pub const FIELD_THREAD_ID: &'static str = "thread_id";
pub const FIELD_TURN_ID: &'static str = "turn_id";
pub const FIELD_ATTEMPT: &'static str = "attempt";
pub const FIELD_COMPONENT: &'static str = "component";
pub const FIELD_PLUGIN_NAME: &'static str = "plugin_name";
pub const FIELD_TOOL_NAME: &'static str = "tool_name";
pub const FIELD_SCHEMA_SHA256: &'static str = "codex_schema_sha256";
pub const FIELD_WIT_PACKAGE: &'static str = "wit_package";
pub const FIELD_WIT_WORLD: &'static str = "wit_world";
pub const FIELD_SKIP_REASON: &'static str = "skip_reason";
pub const FIELD_WORKFLOW_VERSION: &'static str = "workflow_version";
pub const FIELD_RETRY_DUE_AT_MS: &'static str = "retry_due_at_ms";
/// Host-mediated `linear-graphql` audit fields. The raw query is never
/// logged; `FIELD_QUERY_FINGERPRINT` carries a fingerprint of it instead.
pub const FIELD_OPERATION_NAME: &'static str = "operation_name";
pub const FIELD_QUERY_FINGERPRINT: &'static str = "query_fingerprint";
pub const FIELD_DURATION_MS: &'static str = "duration_ms";
pub const FIELD_GRAPHQL_MODE: &'static str = "graphql_mode";
pub const FIELD_ERROR: &'static str = "error";

/// A key is secret-shaped when, ASCII-lowercased, it contains `token`,
/// `secret`, `password`, `authorization` or `cookie`, or ends with `_key`.
pub open spec fn secret_shaped(key: Seq<char>) -> bool {
    let k = ascii_lower_seq(key);
    ||| contains(k, "token"@)
    ||| contains(k, "secret"@)
    ||| contains(k, "password"@)
    ||| contains(k, "authorization"@)
    ||| contains(k, "cookie"@)
    ||| ends_with(k, "_key"@)
}

fn contains_word(hay: &[char], word: &str) -> (b: bool)
    ensures
        b == contains(hay@, word@),
{
    let w = chars_of(word);
    contains_exec(hay, w.as_slice())
}

/// Case-insensitive secret-key check.
pub fn looks_secret(key: &str) -> (b: bool)
    ensures
        b == secret_shaped(key@),
{
    let chars = chars_of(key);
    let k = ascii_lower_vec(chars.as_slice());
    let suffix = chars_of("_key");
    contains_word(k.as_slice(), "token") || contains_word(k.as_slice(), "secret")
        || contains_word(k.as_slice(), "password") || contains_word(k.as_slice(), "authorization")
        || contains_word(k.as_slice(), "cookie") || ends_with_exec(k.as_slice(), suffix.as_slice())
}

/// Redact a single field by key: `"[REDACTED]"` for a secret-shaped key,
/// the value unchanged otherwise.
pub fn redact_value(key: &str, value: &str) -> (r: String)
    ensures
        r@ == if secret_shaped(key@) {
            "[REDACTED]"@
        } else {
            value@
        },
{
    if looks_secret(key) {
        "[REDACTED]".to_owned()
    } else {
        value.to_owned()
    }
}

} // verus!

//! Codex app-server configuration, the MVP configuration check, the
//! schema-mirrored types of the `initialize` handshake, and what each line
//! read while waiting for its reply means.
use vstd::prelude::*;

use crate::events::{
    number_u64, number_value, optional_string_ok, optional_string_value, str_member, str_slot,
};
use crate::json::{parse_json_document, serde_json_document, slot, JsonModel, JsonValue};
use crate::text::{chars_of, slice_vec, string_from, trim, trim_vec};

verus! {

/// How Cadenza talks to the Codex app-server.
#[derive(Debug, Clone, PartialEq, Eq)]
pub enum CodexTransport {
    Stdio,
    UnixSocket { path: Option<String> },
    WebSocket { url: String },
    Off,
}

#[derive(Debug, Clone, PartialEq, Eq)]
pub struct CodexAppServerConfig {
    pub command: String,
    pub args: Vec<String>,
    pub transport: CodexTransport,
    pub schema_sha256: Option<String>,
}

impl Default for CodexAppServerConfig {
    /// `codex app-server --listen stdio://` over stdio, no schema hash.
    fn default() -> (c: CodexAppServerConfig)
        ensures
            c.command@ == "codex"@,
            c.args@.len() == 3,
            c.args@[0]@ == "app-server"@,
            c.args@[1]@ == "--listen"@,
            c.args@[2]@ == "stdio://"@,
            c.transport == CodexTransport::Stdio,
            c.schema_sha256 is None,
    {
        let mut args: Vec<String> = Vec::new();
        args.push("app-server".to_owned());
        args.push("--listen".to_owned());
        args.push("stdio://".to_owned());
        CodexAppServerConfig {
            command: "codex".to_owned(),
            args,
            transport: CodexTransport::Stdio,
            schema_sha256: None,
        }
    }
}

/// Why a configuration is not usable for the MVP.
#[derive(Debug)]
pub enum CodexError {
    /// Only the stdio transport is supported.
    UnsupportedTransport(CodexTransport),
    /// The app-server schema hash is not pinned.
    MissingSchemaHash,
}

impl CodexError {
    /// The operator-facing message.
    pub fn message(&self) -> (m: String)
        ensures
            m@ == match self {
                CodexError::UnsupportedTransport(_) => "unsupported transport for MVP"@,
                CodexError::MissingSchemaHash => "schema hash is not pinned"@,
            },
    {
        match self {
            CodexError::UnsupportedTransport(_) => "unsupported transport for MVP".to_owned(),
            CodexError::MissingSchemaHash => "schema hash is not pinned".to_owned(),
        }
    }
}

/// The MVP accepts only the stdio transport with a pinned, non-empty schema
/// hash; the transport is checked first.
pub fn validate_mvp_config(config: &CodexAppServerConfig) -> (r: Result<(), CodexError>)
    ensures
        config.transport != CodexTransport::Stdio ==> (r matches Err(
            CodexError::UnsupportedTransport(t),
        ) && t == config.transport),
        config.transport == CodexTransport::Stdio ==> match config.schema_sha256 {
            Some(h) => if h@.len() == 0 {
                r matches Err(CodexError::MissingSchemaHash)
            } else {
                r is Ok
            },
            None => r matches Err(CodexError::MissingSchemaHash),
        },
{
    match &config.transport {
        CodexTransport::Stdio => {},
        CodexTransport::UnixSocket { path } => {
            return Err(
                CodexError::UnsupportedTransport(
                    CodexTransport::UnixSocket { path: crate::domain::dup_opt_string(path) },
                ),
            );
        },
        CodexTransport::WebSocket { url } => {
            return Err(
                CodexError::UnsupportedTransport(CodexTransport::WebSocket { url: url.clone() }),
            );
        },
        CodexTransport::Off => {
            return Err(CodexError::UnsupportedTransport(CodexTransport::Off));
        },
    }
    match &config.schema_sha256 {
        Some(h) => {
            if h.as_str().is_empty() {
                return Err(CodexError::MissingSchemaHash);
            }
        },
        None => {
            return Err(CodexError::MissingSchemaHash);
        },
    }
    Ok(())
}

/// `clientInfo` of the `initialize` request.
#[derive(Debug, Clone)]
pub struct ClientInfo {
    pub name: String,
    pub title: Option<String>,
    pub version: String,
}

/// `capabilities` of the `initialize` request.
#[derive(Debug, Clone, Default)]
pub struct InitializeCapabilities {
    pub experimental_api: bool,
    pub request_attestation: bool,
    pub opt_out_notification_methods: Option<Vec<String>>,
}

/// Parameters of the `initialize` request.
#[derive(Debug, Clone)]
pub struct InitializeParams {
    pub client_info: ClientInfo,
    pub capabilities: Option<InitializeCapabilities>,
}

/// Result of a successful `initialize`.
#[derive(Debug, Clone, PartialEq, Eq)]
pub struct InitializeResponse {
    pub user_agent: String,
    pub codex_home: String,
    pub platform_family: String,
    pub platform_os: String,
}

/// JSON-RPC error object.
#[derive(Debug)]
pub struct JsonRpcError {
    pub code: i64,
    pub message: String,
}

// ---------------------------------------------------------------------------
// The `initialize` reply
// ---------------------------------------------------------------------------

/// What the launcher does with one line read while waiting for the reply
/// to `initialize`.
#[derive(Debug)]
pub enum HandshakeStep {
    /// A blank line: read the next one.
    ReadMore,
    /// Stdout closed before any reply.
    EarlyExit,
    /// The server answered with a JSON-RPC error.
    Protocol { code: i64, message: String },
    /// The reply is not a JSON-RPC response carrying an `initialize`
    /// result; the text says why.
    Decode(String),
    /// The handshake succeeded.
    Initialized(InitializeResponse),
}

/// The value of a `HandshakeStep`; the response as its four fields.
pub enum HandshakeStepModel {
    ReadMore,
    EarlyExit,
    Protocol { code: i64, message: Seq<char> },
    Decode(Seq<char>),
    Initialized(Seq<char>, Seq<char>, Seq<char>, Seq<char>),
}

impl View for HandshakeStep {
    type V = HandshakeStepModel;

    open spec fn view(&self) -> HandshakeStepModel {
        match self {
            HandshakeStep::ReadMore => HandshakeStepModel::ReadMore,
            HandshakeStep::EarlyExit => HandshakeStepModel::EarlyExit,
            HandshakeStep::Protocol { code, message } => HandshakeStepModel::Protocol {
                code: *code,
                message: message@,
            },
            HandshakeStep::Decode(m) => HandshakeStepModel::Decode(m@),
            HandshakeStep::Initialized(r) => HandshakeStepModel::Initialized(
                r.user_agent@,
                r.codex_home@,
                r.platform_family@,
                r.platform_os@,
            ),
        }
    }
}

/// The `i64` a JSON number text denotes: an optional `-` and decimal
/// digits, in range.
pub open spec fn number_i64(t: Seq<char>) -> Option<i64> {
    if t.len() > 0 && t[0] == '-' {
        match number_u64(t.skip(1)) {
            Some(v) => if v <= 0x8000_0000_0000_0000u64 {
                Some((-(v as int)) as i64)
            } else {
                None
            },
            None => None,
        }
    } else {
        match number_u64(t) {
            Some(v) => if v <= i64::MAX {
                Some(v as i64)
            } else {
                None
            },
            None => None,
        }
    }
}

/// The message of a reply that does not match the JSON-RPC schema.
pub open spec fn reply_schema_error() -> Seq<char> {
    "initialize reply does not match the JSON-RPC response schema"@
}

/// What a parsed reply document means. The response (fields `jsonrpc`,
/// `id`, `result`, `error`) is read as `slot` reads a struct: an object, or
/// an array of exactly four elements. Its optional `jsonrpc` must be a
/// string; its optional `error` (unless `null`) must be an error object
/// (fields `code`, an integer, and `message`, a string). An error wins;
/// else the `result` must be present and carry the four string fields of
/// the response (`userAgent`, `codexHome`, `platformFamily`, `platformOs`).
pub open spec fn reply_outcome(doc: JsonModel) -> HandshakeStepModel {
    let bad = HandshakeStepModel::Decode(reply_schema_error());
    let shape_ok = match doc {
        JsonModel::Object(_) => true,
        JsonModel::Array(items) => items.len() == 4,
        _ => false,
    };
    if !shape_ok || !optional_string_ok(slot(doc, "jsonrpc"@, 0, 4)) {
        bad
    } else {
        match slot(doc, "error"@, 3, 4) {
            Some(e) if !(e is Null) => {
                let code = match slot(e, "code"@, 0, 2) {
                    Some(JsonModel::Number(t)) => number_i64(t),
                    _ => None,
                };
                match (code, str_slot(e, "message"@, 1, 2)) {
                    (Some(c), Some(m)) => HandshakeStepModel::Protocol { code: c, message: m },
                    _ => bad,
                }
            },
            _ => match slot(doc, "result"@, 2, 4) {
                Some(r) => if r is Null {
                    HandshakeStepModel::Decode("missing result"@)
                } else {
                    match (
                        str_slot(r, "userAgent"@, 0, 4),
                        str_slot(r, "codexHome"@, 1, 4),
                        str_slot(r, "platformFamily"@, 2, 4),
                        str_slot(r, "platformOs"@, 3, 4),
                    ) {
                        (Some(a), Some(h), Some(f), Some(o)) => HandshakeStepModel::Initialized(
                            a,
                            h,
                            f,
                            o,
                        ),
                        _ => bad,
                    }
                },
                None => HandshakeStepModel::Decode("missing result"@),
            },
        }
    }
}

/// What one read means: `None` when stdout closed, else the line read.
pub open spec fn handshake_outcome(line: Option<Seq<char>>) -> HandshakeStepModel {
    match line {
        None => HandshakeStepModel::EarlyExit,
        Some(l) => if trim(l).len() == 0 {
            HandshakeStepModel::ReadMore
        } else {
            match serde_json_document(trim(l)) {
                Err(m) => HandshakeStepModel::Decode(m),
                Ok(doc) => reply_outcome(doc),
            }
        },
    }
}

/// The `i64` a number text denotes (`number_i64`).
fn number_i64_value(t: &str) -> (r: Option<i64>)
    ensures
        r == number_i64(t@),
{
    let cs = chars_of(t);
    if cs.len() > 0 && cs[0] == '-' {
        let rest = string_from(slice_vec(cs.as_slice(), 1, cs.len()).as_slice());
        proof {
            assert(rest@ =~= t@.skip(1));
        }
        match number_value(rest.as_str()) {
            Some(v) => if v <= 0x8000_0000_0000_0000u64 {
                if v == 0x8000_0000_0000_0000u64 {
                    Some(i64::MIN)
                } else {
                    let w: i64 = v as i64;
                    Some(-w)
                }
            } else {
                None
            },
            None => None,
        }
    } else {
        match number_value(t) {
            Some(v) => if v <= 0x7fff_ffff_ffff_ffffu64 {
                Some(v as i64)
            } else {
                None
            },
            None => None,
        }
    }
}

fn schema_failure() -> (s: HandshakeStep)
    ensures
        s@ == HandshakeStepModel::Decode(reply_schema_error()),
{
    HandshakeStep::Decode("initialize reply does not match the JSON-RPC response schema".to_owned())
}

/// Read a parsed reply document (`reply_outcome`).
pub fn reply_step(doc: &JsonValue) -> (s: HandshakeStep)
    ensures
        s@ == reply_outcome(doc@),
{
    let shape_ok = match doc {
        JsonValue::Object(_) => true,
        JsonValue::Array(_) => match doc.item_count() {
            Some(n) => n == 4,
            None => false,
        },
        _ => false,
    };
    if !shape_ok || !optional_string_value(doc.slot("jsonrpc", 0, 4)) {
        return schema_failure();
    }
    match doc.slot("error", 3, 4) {
        Some(e) if !matches!(e, JsonValue::Null) => {
            let code = match e.slot("code", 0, 2) {
                Some(JsonValue::Number(t)) => number_i64_value(t.as_str()),
                _ => None,
            };
            return match (code, str_member(e, "message", 1, 2)) {
                (Some(code), Some(message)) => HandshakeStep::Protocol { code, message },
                _ => schema_failure(),
            };
        },
        _ => {},
    }
    match doc.slot("result", 2, 4) {
        Some(r) => if matches!(r, JsonValue::Null) {
            HandshakeStep::Decode("missing result".to_owned())
        } else {
            match (
                str_member(r, "userAgent", 0, 4),
                str_member(r, "codexHome", 1, 4),
                str_member(r, "platformFamily", 2, 4),
                str_member(r, "platformOs", 3, 4),
            ) {
                (Some(user_agent), Some(codex_home), Some(platform_family), Some(platform_os)) => {
                    HandshakeStep::Initialized(
                        InitializeResponse { user_agent, codex_home, platform_family, platform_os },
                    )
                },
                _ => schema_failure(),
            }
        },
        None => HandshakeStep::Decode("missing result".to_owned()),
    }
}

/// Decide on one read while waiting for the `initialize` reply: `None`
/// when stdout closed, else the line read (its surrounding whitespace is
/// ignored; a blank line is skipped).
pub fn handshake_step(line: Option<&str>) -> (s: HandshakeStep)
    ensures
        s@ == handshake_outcome(
            match line {
                Some(l) => Some(l@),
                None => None,
            },
        ),
{
    match line {
        None => HandshakeStep::EarlyExit,
        Some(l) => {
            let cs = chars_of(l);
            let t = trim_vec(cs.as_slice());
            if t.len() == 0 {
                return HandshakeStep::ReadMore;
            }
            let text = string_from(t.as_slice());
            match parse_json_document(text.as_str()) {
                Err(m) => HandshakeStep::Decode(m),
                Ok(doc) => reply_step(&doc),
            }
        },
    }
}

} // verus!

//! Wasm component host boundary: resource limits, host-call logging, the
//! clock, and the policy of the host-mediated Linear GraphQL capability.
//!
//! The Wasmtime engine, linker and stores are driven by the caller; this
//! module holds every decision they make: which component identity is
//! accepted, which growth is denied, what a guest call may do and what the
//! audit log records of it.
use vstd::prelude::*;

use crate::obs::secret_shaped;
use crate::scrubber::{utf8_len, Scrubber};
use crate::strmap::StringSet;
use crate::text::{
    chars_of, decimal, decimal_chars, extend_chars, extend_str, string_from, trim, trim_vec,
};

verus! {

/// Frozen WIT identity of the host; plugins must declare the same.
pub const WIT_PACKAGE: &'static str = "cadenza:runtime@0.2.0";
pub const WIT_WORLD: &'static str = "tool-runtime";

#[derive(Debug, Clone, PartialEq, Eq)]
pub struct WasmRuntimeLimits {
    pub max_memory_bytes: usize,
    pub max_tables: usize,
    pub max_instances: usize,
    pub epoch_timeout_ms: u64,
    pub max_http_body_bytes: usize,
}

impl Default for WasmRuntimeLimits {
    /// 64 MiB of memory, 64 tables, 16 instances, 5 s epoch budget, 2 MiB
    /// response bodies.
    fn default() -> (l: WasmRuntimeLimits)
        ensures
            l.max_memory_bytes == 67108864,
            l.max_tables == 64,
            l.max_instances == 16,
            l.epoch_timeout_ms == 5000,
            l.max_http_body_bytes == 2097152,
    {
        WasmRuntimeLimits {
            max_memory_bytes: 67108864,
            max_tables: 64,
            max_instances: 16,
            epoch_timeout_ms: 5000,
            max_http_body_bytes: 2097152,
        }
    }
}

impl WasmRuntimeLimits {
    /// Epoch deadline in ticks: the configured budget, with zero clamped to
    /// one so an unsupervised store still traps.
    pub fn epoch_budget_ticks(&self) -> (t: u64)
        ensures
            t == if self.epoch_timeout_ms == 0 {
                1
            } else {
                self.epoch_timeout_ms
            },
    {
        if self.epoch_timeout_ms == 0 {
            1
        } else {
            self.epoch_timeout_ms
        }
    }
}

#[derive(Debug, Clone, PartialEq, Eq)]
pub struct WasmComponentRef {
    pub name: String,
    pub path: String,
    pub wit_package: String,
    pub wit_world: String,
}

#[derive(Debug)]
pub enum WasmHostError {
    WitPackageMismatch { expected: String, actual: String },
    WitWorldMismatch { expected: String, actual: String },
    CapabilityDenied(String),
    Link(String),
    NotFound { path: String },
    Compile(String),
    LimitBreached(String),
    Timeout,
    Engine(String),
    Io { path: String, message: String },
}

/// What a failed instantiation or guest call was, as far as the host
/// tells causes apart.
#[derive(Debug)]
pub enum GuestFailure {
    /// The host limiter refused an allocation; its message.
    LimitBreach(String),
    /// The guest called an import the host does not grant; which one.
    DeferredCall(String),
    /// The epoch deadline interrupted the guest.
    Interrupted,
    /// Any other trap; its description.
    Trap(String),
    /// Anything else; its text.
    Other(String),
}

/// Map a guest-call failure: an interruption is the wall-clock timeout, a
/// call into a withheld import is a capability denial, everything else a
/// resource-limit breach.
pub fn classify_trap(f: GuestFailure) -> (e: WasmHostError)
    ensures
        match f {
            GuestFailure::Interrupted => e == WasmHostError::Timeout,
            GuestFailure::DeferredCall(d) => e == WasmHostError::CapabilityDenied(d),
            GuestFailure::Trap(t) => e matches WasmHostError::LimitBreached(m) && m@ == "guest trap: "@
                + t@,
            GuestFailure::LimitBreach(m) => e == WasmHostError::LimitBreached(m),
            GuestFailure::Other(m) => e == WasmHostError::LimitBreached(m),
        },
{
    match f {
        GuestFailure::Interrupted => WasmHostError::Timeout,
        GuestFailure::DeferredCall(d) => WasmHostError::CapabilityDenied(d),
        GuestFailure::Trap(t) => {
            let mut v: Vec<char> = Vec::new();
            extend_str(&mut v, "guest trap: ");
            extend_str(&mut v, t.as_str());
            WasmHostError::LimitBreached(string_from(v.as_slice()))
        },
        GuestFailure::LimitBreach(m) => WasmHostError::LimitBreached(m),
        GuestFailure::Other(m) => WasmHostError::LimitBreached(m),
    }
}

/// Map an instantiation failure: a typed limit breach keeps its message,
/// traps and withheld-import calls during guest initialisation go as for a
/// guest call, and anything else is a linking problem.
pub fn classify_instantiate(f: GuestFailure) -> (e: WasmHostError)
    ensures
        match f {
            GuestFailure::LimitBreach(m) => e == WasmHostError::LimitBreached(m),
            GuestFailure::Interrupted => e == WasmHostError::Timeout,
            GuestFailure::DeferredCall(d) => e == WasmHostError::CapabilityDenied(d),
            GuestFailure::Trap(t) => e matches WasmHostError::LimitBreached(m) && m@ == "guest trap: "@
                + t@,
            GuestFailure::Other(m) => e matches WasmHostError::Link(x) && x@ == "instantiate: "@ + m@,
        },
{
    match f {
        GuestFailure::Other(m) => {
            let mut v: Vec<char> = Vec::new();
            extend_str(&mut v, "instantiate: ");
            extend_str(&mut v, m.as_str());
            WasmHostError::Link(string_from(v.as_slice()))
        },
        other => classify_trap(other),
    }
}

/// A component may be loaded only when it declares the host's WIT package
/// and world; the package is checked first, before any file is read.
pub fn check_component_identity(component: &WasmComponentRef) -> (r: Result<(), WasmHostError>)
    ensures
        component.wit_package@ != WIT_PACKAGE@ ==> (r matches Err(
            WasmHostError::WitPackageMismatch { expected, actual },
        ) && expected@ == WIT_PACKAGE@ && actual == component.wit_package),
        component.wit_package@ == WIT_PACKAGE@ && component.wit_world@ != WIT_WORLD@ ==> (r matches Err(
            WasmHostError::WitWorldMismatch { expected, actual },
        ) && expected@ == WIT_WORLD@ && actual == component.wit_world),
        component.wit_package@ == WIT_PACKAGE@ && component.wit_world@ == WIT_WORLD@ ==> r is Ok,
{
    if !crate::strmap::str_eq(component.wit_package.as_str(), WIT_PACKAGE) {
        return Err(
            WasmHostError::WitPackageMismatch {
                expected: WIT_PACKAGE.to_owned(),
                actual: component.wit_package.clone(),
            },
        );
    }
    if !crate::strmap::str_eq(component.wit_world.as_str(), WIT_WORLD) {
        return Err(
            WasmHostError::WitWorldMismatch {
                expected: WIT_WORLD.to_owned(),
                actual: component.wit_world.clone(),
            },
        );
    }
    Ok(())
}

/// `"component declares {n} {what}, exceeding the host cap of {cap}"`.
pub open spec fn over_cap_message(n: nat, what: Seq<char>, cap: nat) -> Seq<char> {
    "component declares "@ + decimal(n) + " "@ + what + ", exceeding the host cap of "@ + decimal(
        cap,
    )
}

fn over_cap(n: u64, what: &str, cap: u64) -> (e: WasmHostError)
    ensures
        e matches WasmHostError::LimitBreached(m) && m@ == over_cap_message(
            n as nat,
            what@,
            cap as nat,
        ),
{
    let mut v: Vec<char> = Vec::new();
    extend_str(&mut v, "component declares ");
    let d = decimal_chars(n);
    extend_chars(&mut v, d.as_slice());
    extend_str(&mut v, " ");
    extend_str(&mut v, what);
    extend_str(&mut v, ", exceeding the host cap of ");
    let c = decimal_chars(cap);
    extend_chars(&mut v, c.as_slice());
    WasmHostError::LimitBreached(string_from(v.as_slice()))
}

/// Reject, before instantiation, a component whose declared core-instance,
/// table or memory count exceeds the host cap, in that order. `declared` is
/// the statically known `(tables, memories)` summary, when there is one.
pub fn check_declared_resource_counts(
    core_instance_count: u32,
    declared: Option<(u64, u64)>,
    table_cap: usize,
    memory_cap: usize,
    instance_cap: usize,
) -> (r: Result<(), WasmHostError>)
    ensures
        core_instance_count > instance_cap ==> (r matches Err(WasmHostError::LimitBreached(m))
            && m@ == over_cap_message(
            core_instance_count as nat,
            "core instances"@,
            instance_cap as nat,
        )),
        core_instance_count <= instance_cap ==> match declared {
            None => r is Ok,
            Some((tables, memories)) => if tables > table_cap {
                r matches Err(WasmHostError::LimitBreached(m)) && m@ == over_cap_message(
                    tables as nat,
                    "tables"@,
                    table_cap as nat,
                )
            } else if memories > memory_cap {
                r matches Err(WasmHostError::LimitBreached(m)) && m@ == over_cap_message(
                    memories as nat,
                    "memories"@,
                    memory_cap as nat,
                )
            } else {
                r is Ok
            },
        },
{
    if core_instance_count as usize > instance_cap {
        return Err(over_cap(core_instance_count as u64, "core instances", instance_cap as u64));
    }
    match declared {
        None => Ok(()),
        Some((tables, memories)) => {
            if tables > table_cap as u64 {
                return Err(over_cap(tables, "tables", table_cap as u64));
            }
            if memories > memory_cap as u64 {
                return Err(over_cap(memories, "memories", memory_cap as u64));
            }
            Ok(())
        },
    }
}

/// Caller-supplied identity stamped onto every log record. No secret
/// material belongs here.
#[derive(Debug, Default, Clone)]
pub struct RequestContext {
    pub issue_id: Option<String>,
    pub plugin_name: Option<String>,
    pub workspace_path: Option<String>,
}

/// Direction of a Linear GraphQL operation.
#[derive(Debug, Clone, Copy, PartialEq, Eq, Structural)]
pub enum LinearMode {
    Read,
    Write,
}

impl LinearMode {
    /// Lower-case label used in the audit log.
    pub fn label(self) -> (s: &'static str)
        ensures
            s@ == (match self {
                LinearMode::Read => "read"@,
                LinearMode::Write => "write"@,
            }),
    {
        match self {
            LinearMode::Read => "read",
            LinearMode::Write => "write",
        }
    }
}

/// A host-validated Linear GraphQL call handed to the transport.
#[derive(Debug, Clone)]
pub struct LinearCall {
    pub operation_name: Option<String>,
    pub query: String,
    /// Always a JSON object (empty input is normalised to `{}`).
    pub variables_json: String,
    pub mode: LinearMode,
    /// The host-configured endpoint, already checked against the allowlist.
    pub endpoint: String,
    /// The transport must not read more than this many response bytes.
    pub max_response_bytes: usize,
    /// The deadline the host enforces on the transport, in milliseconds.
    pub timeout_ms: u64,
}

/// Raw transport result: a completed HTTP exchange.
#[derive(Debug, Clone, PartialEq, Eq)]
pub struct LinearHttpResult {
    pub status: u16,
    pub body_json: String,
}

/// Transport-level failure of a Linear GraphQL call.
#[derive(Debug)]
pub enum LinearTransportError {
    RateLimited(Option<u32>),
    Upstream(String),
    Io(String),
}

/// The WIT `host-error` a guest call can fail with.
#[derive(Debug, Clone, PartialEq, Eq)]
pub enum HostError {
    Denied(String),
    InvalidArgument(String),
    NotFound(String),
    OutsideRoot,
    Io(String),
    Internal(String),
    Timeout,
    RateLimited(Option<u32>),
    Upstream(String),
}

/// The WIT log levels.
#[derive(Debug, Clone, Copy, PartialEq, Eq)]
pub enum LogLevel {
    Trace,
    Debug,
    Info,
    Warn,
    Error,
}

pub open spec fn level_text(level: LogLevel) -> Seq<char> {
    match level {
        LogLevel::Trace => "trace"@,
        LogLevel::Debug => "debug"@,
        LogLevel::Info => "info"@,
        LogLevel::Warn => "warn"@,
        LogLevel::Error => "error"@,
    }
}

pub fn level_label(level: LogLevel) -> (s: &'static str)
    ensures
        s@ == level_text(level),
{
    match level {
        LogLevel::Trace => "trace",
        LogLevel::Debug => "debug",
        LogLevel::Info => "info",
        LogLevel::Warn => "warn",
        LogLevel::Error => "error",
    }
}

// ---------------------------------------------------------------------------
// Clock
// ---------------------------------------------------------------------------

#[verifier::external_type_specification]
#[verifier::external_body]
pub struct ExSystemTime(std::time::SystemTime);

/// `SystemTime::now()`: the system clock's current time. Nothing is promised
/// of it.
#[verifier::external_body]
fn system_time_now() -> std::time::SystemTime {
    std::time::SystemTime::now()
}

/// `t.duration_since(UNIX_EPOCH)` in whole milliseconds, `None` for a time
/// before the epoch. The value depends on `t`, which is opaque here, so
/// nothing more is promised.
#[verifier::external_body]
fn millis_since_epoch(t: &std::time::SystemTime) -> Option<u128> {
    match t.duration_since(std::time::UNIX_EPOCH) {
        Ok(d) => Some(d.as_millis()),
        Err(_) => None,
    }
}

/// Clock source for `host-time.now-millis`: the system clock, or a fixed
/// value for deterministic runs.
#[derive(Debug, Clone, Default)]
pub enum HostClock {
    #[default]
    System,
    Fixed(u64),
}

impl HostClock {
    /// Milliseconds since the Unix epoch; a pre-epoch system clock reads 0.
    pub fn now_millis(&self) -> (t: u64)
        ensures
            self matches HostClock::Fixed(v) ==> t == v,
    {
        match self {
            HostClock::System => {
                let now = system_time_now();
                match millis_since_epoch(&now) {
                    Some(ms) => ms as u64,
                    None => 0,
                }
            },
            HostClock::Fixed(v) => *v,
        }
    }
}

// ---------------------------------------------------------------------------
// Host-call log
// ---------------------------------------------------------------------------

/// A captured host-call log entry.
#[derive(Debug, Clone, PartialEq, Eq)]
pub struct HostLogRecord {
    pub op: String,
    pub issue_id: Option<String>,
    pub plugin_name: Option<String>,
    pub level: Option<String>,
    pub message: Option<String>,
    pub fields_json: Option<String>,
}

impl HostLogRecord {
    pub fn duplicate(&self) -> (r: HostLogRecord)
        ensures
            r == *self,
    {
        HostLogRecord {
            op: self.op.clone(),
            issue_id: crate::domain::dup_opt_string(&self.issue_id),
            plugin_name: crate::domain::dup_opt_string(&self.plugin_name),
            level: crate::domain::dup_opt_string(&self.level),
            message: crate::domain::dup_opt_string(&self.message),
            fields_json: crate::domain::dup_opt_string(&self.fields_json),
        }
    }
}

/// The record of one host call made under `ctx`: the operation, the
/// issue and plugin the store serves, and what the call adds.
pub fn call_record(
    ctx: &RequestContext,
    op: &str,
    level: Option<&str>,
    message: Option<String>,
    fields_json: Option<String>,
) -> (r: HostLogRecord)
    ensures
        r.op@ == op@,
        r.issue_id == ctx.issue_id,
        r.plugin_name == ctx.plugin_name,
        match level {
            Some(l) => r.level matches Some(x) && x@ == l@,
            None => r.level is None,
        },
        r.message == message,
        r.fields_json == fields_json,
{
    HostLogRecord {
        op: op.to_owned(),
        issue_id: crate::domain::dup_opt_string(&ctx.issue_id),
        plugin_name: crate::domain::dup_opt_string(&ctx.plugin_name),
        level: match level {
            Some(l) => Some(l.to_owned()),
            None => None,
        },
        message,
        fields_json,
    }
}

/// The record of a guest `log` call: its level, its message through the
/// free-text scrub, and its fields as already scrubbed by the caller.
pub fn guest_log_record(
    scrubber: &Scrubber,
    ctx: &RequestContext,
    level: LogLevel,
    message: &str,
    scrubbed_fields: Option<String>,
) -> (r: HostLogRecord)
    requires
        scrubber.can_scrub(message@),
    ensures
        r.op@ == "host-log.log"@,
        r.issue_id == ctx.issue_id,
        r.plugin_name == ctx.plugin_name,
        r.level matches Some(l) && l@ == level_text(level),
        r.message matches Some(m) && m@ == scrubber.scrubbed(message@),
        r.fields_json == scrubbed_fields,
{
    let scrubbed = scrubber.scrub_text(message);
    call_record(ctx, "host-log.log", Some(level_label(level)), Some(scrubbed), scrubbed_fields)
}

/// Default cap on captured records.
pub const DEFAULT_LOG_CAPACITY: usize = 4096;

/// Bounded capture of host-call records: past `capacity`, records are
/// counted as dropped instead of stored.
#[derive(Debug)]
pub struct LogSink {
    records: Vec<HostLogRecord>,
    dropped: u64,
    capacity: usize,
}

impl LogSink {
    pub closed spec fn spec_records(&self) -> Seq<HostLogRecord> {
        self.records@
    }

    pub closed spec fn spec_dropped(&self) -> u64 {
        self.dropped
    }

    pub closed spec fn spec_capacity(&self) -> usize {
        self.capacity
    }

    /// The sink holds no more records than its capacity.
    pub closed spec fn bounded(&self) -> bool {
        self.records@.len() <= self.capacity
    }

    pub fn new() -> (s: LogSink)
        ensures
            s.spec_records().len() == 0,
            s.spec_dropped() == 0,
            s.spec_capacity() == DEFAULT_LOG_CAPACITY,
            s.bounded(),
    {
        LogSink::with_capacity(DEFAULT_LOG_CAPACITY)
    }

    /// A sink that keeps at most `capacity` records.
    pub fn with_capacity(capacity: usize) -> (s: LogSink)
        ensures
            s.spec_records().len() == 0,
            s.spec_dropped() == 0,
            s.spec_capacity() == capacity,
            s.bounded(),
    {
        LogSink { records: Vec::new(), dropped: 0, capacity }
    }

    /// The records captured so far, in order.
    pub fn records(&self) -> (v: Vec<HostLogRecord>)
        ensures
            v@ == self.spec_records(),
    {
        let mut v: Vec<HostLogRecord> = Vec::new();
        let mut i: usize = 0;
        while i < self.records.len()
            invariant
                i <= self.records@.len(),
                v@ == self.records@.take(i as int),
            decreases self.records.len() - i,
        {
            v.push(self.records[i].duplicate());
            assert(v@ =~= self.records@.take(i + 1));
            i = i + 1;
        }
        assert(self.records@.take(self.records@.len() as int) =~= self.records@);
        v
    }

    /// How many records were dropped after the capacity was reached.
    pub fn dropped(&self) -> (n: u64)
        ensures
            n == self.spec_dropped(),
    {
        self.dropped
    }

    /// Keep `record` if there is room; otherwise count it as dropped
    /// (saturating).
    pub fn push(&mut self, record: HostLogRecord)
        ensures
            final(self).spec_capacity() == old(self).spec_capacity(),
            old(self).bounded() ==> final(self).bounded(),
            old(self).spec_records().len() < old(self).spec_capacity() ==> {
                &&& final(self).spec_records() == old(self).spec_records().push(record)
                &&& final(self).spec_dropped() == old(self).spec_dropped()
            },
            old(self).spec_records().len() >= old(self).spec_capacity() ==> {
                &&& final(self).spec_records() == old(self).spec_records()
                &&& final(self).spec_dropped() == (if old(self).spec_dropped() == u64::MAX {
                    u64::MAX
                } else {
                    (old(self).spec_dropped() + 1) as u64
                })
            },
    {
        if self.records.len() >= self.capacity {
            self.dropped = self.dropped.saturating_add(1);
            return;
        }
        self.records.push(record);
    }
}

impl Default for LogSink {
    fn default() -> (s: LogSink)
        ensures
            s.spec_records().len() == 0,
            s.spec_dropped() == 0,
            s.spec_capacity() == DEFAULT_LOG_CAPACITY,
            s.bounded(),
    {
        LogSink::new()
    }
}

// ---------------------------------------------------------------------------
// Resource limiter
// ---------------------------------------------------------------------------

/// The caps the engine consults on memory/table growth and allocation, with
/// a count of denied growth requests.
#[derive(Debug, Clone)]
pub struct RuntimeLimiter {
    max_memory_bytes: usize,
    max_tables: usize,
    max_instances: usize,
    denied_growth: usize,
}

impl RuntimeLimiter {
    pub closed spec fn spec_denied(&self) -> usize {
        self.denied_growth
    }

    pub closed spec fn spec_max_memory_bytes(&self) -> usize {
        self.max_memory_bytes
    }

    pub closed spec fn spec_max_tables(&self) -> usize {
        self.max_tables
    }

    pub closed spec fn spec_max_instances(&self) -> usize {
        self.max_instances
    }

    pub fn new(limits: &WasmRuntimeLimits) -> (l: RuntimeLimiter)
        ensures
            l.spec_max_memory_bytes() == limits.max_memory_bytes,
            l.spec_max_tables() == limits.max_tables,
            l.spec_max_instances() == limits.max_instances,
            l.spec_denied() == 0,
    {
        RuntimeLimiter {
            max_memory_bytes: limits.max_memory_bytes,
            max_tables: limits.max_tables,
            max_instances: limits.max_instances,
            denied_growth: 0,
        }
    }

    pub fn denied_growth(&self) -> (n: usize)
        ensures
            n == self.spec_denied(),
    {
        self.denied_growth
    }

    pub fn max_memory_bytes(&self) -> (n: usize)
        ensures
            n == self.spec_max_memory_bytes(),
    {
        self.max_memory_bytes
    }

    pub fn max_tables(&self) -> (n: usize)
        ensures
            n == self.spec_max_tables(),
    {
        self.max_tables
    }

    pub fn max_instances(&self) -> (n: usize)
        ensures
            n == self.spec_max_instances(),
    {
        self.max_instances
    }

    /// Allow growing a memory to `desired` bytes iff that is within the cap;
    /// a denial is counted (saturating).
    pub fn memory_growing(&mut self, current: usize, desired: usize, maximum: Option<usize>) -> (ok:
        bool)
        ensures
            ok == (desired <= old(self).spec_max_memory_bytes()),
            final(self).spec_denied() == (if ok || old(self).spec_denied() == usize::MAX {
                old(self).spec_denied()
            } else {
                (old(self).spec_denied() + 1) as usize
            }),
            final(self).spec_max_memory_bytes() == old(self).spec_max_memory_bytes(),
            final(self).spec_max_tables() == old(self).spec_max_tables(),
            final(self).spec_max_instances() == old(self).spec_max_instances(),
    {
        if desired > self.max_memory_bytes {
            self.denied_growth = self.denied_growth.saturating_add(1);
            return false;
        }
        true
    }

    /// Allow growing a table to `desired` elements iff that is within the
    /// table cap; a denial is counted (saturating).
    pub fn table_growing(&mut self, current: usize, desired: usize, maximum: Option<usize>) -> (ok:
        bool)
        ensures
            ok == (desired <= old(self).spec_max_tables()),
            final(self).spec_denied() == (if ok || old(self).spec_denied() == usize::MAX {
                old(self).spec_denied()
            } else {
                (old(self).spec_denied() + 1) as usize
            }),
            final(self).spec_max_memory_bytes() == old(self).spec_max_memory_bytes(),
            final(self).spec_max_tables() == old(self).spec_max_tables(),
            final(self).spec_max_instances() == old(self).spec_max_instances(),
    {
        if desired > self.max_tables {
            self.denied_growth = self.denied_growth.saturating_add(1);
            return false;
        }
        true
    }

    /// Cap on component instances per store.
    pub fn instances(&self) -> (n: usize)
        ensures
            n == self.spec_max_instances(),
    {
        self.max_instances
    }

    /// Cap on the number of tables per store.
    pub fn tables(&self) -> (n: usize)
        ensures
            n == self.spec_max_tables(),
    {
        self.max_tables
    }
}

} // verus!

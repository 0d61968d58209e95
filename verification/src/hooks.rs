//! Shell hook boundary: runner configuration, bounded output capture and
//! secret redaction of what a hook printed.
//!
//! Spawning `sh -c <command>`, the wall-clock timeout and the reader
//! threads are process I/O and live with the caller.
use vstd::prelude::*;

use crate::scrubber::{apply_secrets, nonempty_prefix, replace_str};
use crate::strmap::string_views;
use crate::text::{extend_str, lossy_string, string_from, utf8_lossy};

verus! {

/// Per-stream byte cap; output beyond it is dropped and marked.
pub const DEFAULT_CAPTURE_BYTES: usize = 65536;

/// Why a hook could not be started.
#[derive(Debug)]
pub enum HookLaunchError {
    /// The per-issue workspace directory does not exist.
    WorkspaceMissing(String),
    /// The process could not be spawned or waited for.
    Spawn(String),
    /// Its stdio could not be captured.
    Capture(String),
}

#[derive(Debug, Clone)]
pub struct HookRunner {
    pub workspace: String,
    /// Values redacted from captured output, in order.
    pub secrets: Vec<String>,
    pub capture_bytes: usize,
}

impl HookRunner {
    pub fn new(workspace: &str) -> (r: HookRunner)
        ensures
            r.workspace@ == workspace@,
            r.secrets@.len() == 0,
            r.capture_bytes == DEFAULT_CAPTURE_BYTES,
    {
        HookRunner {
            workspace: workspace.to_owned(),
            secrets: Vec::new(),
            capture_bytes: DEFAULT_CAPTURE_BYTES,
        }
    }

    /// Register secret values; empty ones are dropped, the order is kept.
    pub fn with_secrets(self, secrets: Vec<String>) -> (r: HookRunner)
        ensures
            string_views(r.secrets@) == nonempty_prefix(
                string_views(secrets@),
                secrets@.len() as int,
            ),
            r.workspace == self.workspace,
            r.capture_bytes == self.capture_bytes,
    {
        let ghost input = string_views(secrets@);
        let mut kept: Vec<String> = Vec::new();
        let mut i: usize = 0;
        while i < secrets.len()
            invariant
                i <= secrets@.len(),
                input == string_views(secrets@),
                string_views(kept@) == nonempty_prefix(input, i as int),
            decreases secrets.len() - i,
        {
            assert(input[i as int] == secrets@[i as int]@);
            if !secrets[i].as_str().is_empty() {
                let ghost before = string_views(kept@);
                kept.push(secrets[i].clone());
                assert(string_views(kept@) =~= before.push(input[i as int]));
            }
            i = i + 1;
        }
        HookRunner { secrets: kept, ..self }
    }

    pub fn with_capture_bytes(self, bytes: usize) -> (r: HookRunner)
        ensures
            r == (HookRunner { capture_bytes: bytes, ..self }),
    {
        HookRunner { capture_bytes: bytes, ..self }
    }

    /// Every occurrence of every registered secret replaced by
    /// `***REDACTED***`, secrets in order.
    pub fn redact(&self, text: String) -> (r: String)
        ensures
            r@ == apply_secrets(text@, string_views(self.secrets@), self.secrets@.len() as int),
    {
        let mut out = text;
        let mut i: usize = 0;
        while i < self.secrets.len()
            invariant
                i <= self.secrets@.len(),
                out@ == apply_secrets(text@, string_views(self.secrets@), i as int),
            decreases self.secrets.len() - i,
        {
            let secret = &self.secrets[i];
            assert(string_views(self.secrets@)[i as int] == secret@);
            if !secret.as_str().is_empty() {
                out = replace_str(out.as_str(), secret.as_str(), "***REDACTED***");
            }
            i = i + 1;
        }
        out
    }
}

/// Capture buffer that keeps the first `cap` bytes of a stream and notes
/// whether anything beyond them was dropped.
#[derive(Debug)]
pub struct BoundedBuf {
    pub cap: usize,
    pub buf: Vec<u8>,
    pub overflowed: bool,
}

impl BoundedBuf {
    pub open spec fn wf(&self) -> bool {
        self.buf@.len() <= self.cap
    }

    pub fn new(cap: usize) -> (b: BoundedBuf)
        ensures
            b.wf(),
            b.cap == cap,
            b.buf@ == Seq::<u8>::empty(),
            !b.overflowed,
    {
        BoundedBuf { cap, buf: Vec::new(), overflowed: false }
    }

    /// Append what still fits of `chunk`. A chunk that does not fit whole,
    /// or any chunk once the buffer is full, sets the overflow flag.
    pub fn push(&mut self, chunk: &[u8])
        requires
            old(self).wf(),
        ensures
            final(self).wf(),
            final(self).cap == old(self).cap,
            final(self).buf@ == (old(self).buf@ + chunk@).take(
                if old(self).buf@.len() + chunk@.len() <= old(self).cap {
                    (old(self).buf@.len() + chunk@.len()) as int
                } else {
                    old(self).cap as int
                },
            ),
            final(self).overflowed == (old(self).overflowed || old(self).buf@.len()
                >= old(self).cap || old(self).buf@.len() + chunk@.len() > old(self).cap),
    {
        if self.buf.len() >= self.cap {
            self.overflowed = true;
            assert((old(self).buf@ + chunk@).take(old(self).cap as int) =~= old(self).buf@);
            return;
        }
        let room = self.cap - self.buf.len();
        let take: usize = if room < chunk.len() {
            room
        } else {
            chunk.len()
        };
        let ghost before = self.buf@;
        let mut i: usize = 0;
        while i < take
            invariant
                take <= chunk@.len(),
                i <= take,
                self.cap == old(self).cap,
                before == old(self).buf@,
                before.len() + take <= self.cap,
                self.buf@ == before + chunk@.take(i as int),
                self.overflowed == old(self).overflowed,
            decreases take - i,
        {
            self.buf.push(chunk[i]);
            assert(self.buf@ =~= before + chunk@.take(i + 1));
            i = i + 1;
        }
        if take < chunk.len() {
            self.overflowed = true;
        }
        assert(self.buf@ =~= (before + chunk@).take(before.len() + take));
    }

    /// The captured bytes decoded as UTF-8 (invalid sequences replaced),
    /// followed by a truncation note when output was dropped.
    pub fn finish(&self) -> (s: String)
        ensures
            s@ == utf8_lossy(self.buf@) + (if self.overflowed {
                "\n<truncated; output exceeded capture cap>"@
            } else {
                Seq::<char>::empty()
            }),
    {
        let text = lossy_string(self.buf.as_slice());
        if self.overflowed {
            let mut v: Vec<char> = Vec::new();
            extend_str(&mut v, text.as_str());
            extend_str(&mut v, "\n<truncated; output exceeded capture cap>");
            string_from(v.as_slice())
        } else {
            assert(text@ + Seq::<char>::empty() =~= text@);
            text
        }
    }
}

/// How a hook run ended.
#[derive(Debug, Clone, Copy, PartialEq, Eq, Structural)]
pub enum HookVerdict {
    /// Exited with status 0 within the timeout.
    Success,
    /// Exited with a non-zero status within the timeout.
    Failed,
    /// The timeout elapsed; the process group is killed.
    TimedOut,
}

/// What the runner does after polling the hook's process.
#[derive(Debug, Clone, Copy, PartialEq, Eq, Structural)]
pub enum HookStep {
    /// Still running within its deadline: poll again.
    Wait,
    /// The run is over with this verdict (for `TimedOut`, once the process
    /// group is killed).
    Finish(HookVerdict),
}

/// Decide after one poll of a hook's process: `exited` is its exit status
/// (`Some(true)` for success) once it has exited, and `deadline_passed`
/// whether the timeout has elapsed. An exit seen at the poll wins over the
/// deadline.
pub fn hook_step(exited: Option<bool>, deadline_passed: bool) -> (s: HookStep)
    ensures
        s == match exited {
            Some(true) => HookStep::Finish(HookVerdict::Success),
            Some(false) => HookStep::Finish(HookVerdict::Failed),
            None => if deadline_passed {
                HookStep::Finish(HookVerdict::TimedOut)
            } else {
                HookStep::Wait
            },
        },
{
    match exited {
        Some(true) => HookStep::Finish(HookVerdict::Success),
        Some(false) => HookStep::Finish(HookVerdict::Failed),
        None => if deadline_passed {
            HookStep::Finish(HookVerdict::TimedOut)
        } else {
            HookStep::Wait
        },
    }
}

} // verus!

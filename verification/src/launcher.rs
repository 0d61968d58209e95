//! Codex app-server launcher configuration, the bounded stderr capture and
//! its redaction.
//!
//! Spawning the child and the JSON-RPC handshake are I/O and live with the
//! caller; this module holds what they decide with.
use vstd::prelude::*;

use crate::codex::{ClientInfo, InitializeCapabilities};
use crate::scrubber::{apply_secrets, order_secrets, registered_form, replace_str};
use crate::strmap::string_views;
use crate::text::{chars_of, lossy_string, starts_with, starts_with_exec, utf8_lossy};

verus! {

/// Per-stream cap for captured stderr: enough for a post-mortem without
/// unbounded growth.
pub const DEFAULT_STDERR_CAP_BYTES: usize = 65536;

/// Version reported in `clientInfo`.
pub const CLIENT_VERSION: &'static str = "0.1.0";

/// Builder for spawning a Codex app-server.
#[derive(Debug, Clone)]
pub struct AppServerLauncher {
    /// Shell-style command, run through `bash -lc`.
    pub command: String,
    /// Per-issue workspace, the child's working directory.
    pub workspace: String,
    /// How long the `initialize` handshake may take, in milliseconds.
    pub startup_timeout_ms: u64,
    pub client_info: ClientInfo,
    pub capabilities: Option<InitializeCapabilities>,
    /// Values redacted from captured stderr, in the order they are applied.
    pub secrets: Vec<String>,
    pub stderr_cap_bytes: usize,
}

impl AppServerLauncher {
    /// Whether the workspace path is absolute, which a launch requires
    /// before anything is spawned: on Unix, the path starts at the root
    /// `/`.
    pub fn workspace_is_absolute(&self) -> (b: bool)
        ensures
            b == starts_with(self.workspace@, "/"@),
    {
        let cs = chars_of(self.workspace.as_str());
        let root = chars_of("/");
        starts_with_exec(cs.as_slice(), root.as_slice())
    }

    /// A launcher for `command` in `workspace`: 15 s startup timeout,
    /// `clientInfo` `cadenza` / "Cadenza orchestrator", no capabilities, no
    /// secrets, the default stderr cap.
    pub fn new(command: &str, workspace: &str) -> (l: AppServerLauncher)
        ensures
            l.command@ == command@,
            l.workspace@ == workspace@,
            l.startup_timeout_ms == 15_000,
            l.client_info.name@ == "cadenza"@,
            l.client_info.title matches Some(t) && t@ == "Cadenza orchestrator"@,
            l.client_info.version@ == CLIENT_VERSION@,
            l.capabilities is None,
            l.secrets@.len() == 0,
            l.stderr_cap_bytes == DEFAULT_STDERR_CAP_BYTES,
    {
        AppServerLauncher {
            command: command.to_owned(),
            workspace: workspace.to_owned(),
            startup_timeout_ms: 15_000,
            client_info: ClientInfo {
                name: "cadenza".to_owned(),
                title: Some("Cadenza orchestrator".to_owned()),
                version: CLIENT_VERSION.to_owned(),
            },
            capabilities: None,
            secrets: Vec::new(),
            stderr_cap_bytes: DEFAULT_STDERR_CAP_BYTES,
        }
    }

    pub fn with_startup_timeout(self, timeout_ms: u64) -> (l: AppServerLauncher)
        ensures
            l == (AppServerLauncher { startup_timeout_ms: timeout_ms, ..self }),
    {
        AppServerLauncher { startup_timeout_ms: timeout_ms, ..self }
    }

    pub fn with_client_info(self, info: ClientInfo) -> (l: AppServerLauncher)
        ensures
            l == (AppServerLauncher { client_info: info, ..self }),
    {
        AppServerLauncher { client_info: info, ..self }
    }

    pub fn with_capabilities(self, caps: InitializeCapabilities) -> (l: AppServerLauncher)
        ensures
            l == (AppServerLauncher { capabilities: Some(caps), ..self }),
    {
        AppServerLauncher { capabilities: Some(caps), ..self }
    }

    /// Register the values to redact from captured stderr: empty strings
    /// dropped, longest first, so a shorter prefix cannot leak the suffix of
    /// a longer secret.
    pub fn with_secrets(self, secrets: Vec<String>) -> (l: AppServerLauncher)
        ensures
            registered_form(string_views(l.secrets@), string_views(secrets@)),
            l.command == self.command,
            l.workspace == self.workspace,
            l.startup_timeout_ms == self.startup_timeout_ms,
            l.client_info == self.client_info,
            l.capabilities == self.capabilities,
            l.stderr_cap_bytes == self.stderr_cap_bytes,
    {
        let ordered = order_secrets(&secrets);
        AppServerLauncher { secrets: ordered, ..self }
    }

    pub fn with_stderr_cap_bytes(self, bytes: usize) -> (l: AppServerLauncher)
        ensures
            l == (AppServerLauncher { stderr_cap_bytes: bytes, ..self }),
    {
        AppServerLauncher { stderr_cap_bytes: bytes, ..self }
    }
}

/// Replace every occurrence of every secret in `text` by `***REDACTED***`,
/// secrets in the given order.
pub fn redact_text(text: String, secrets: &[String]) -> (r: String)
    ensures
        r@ == apply_secrets(text@, string_views(secrets@), secrets@.len() as int),
{
    let mut out = text;
    let mut i: usize = 0;
    while i < secrets.len()
        invariant
            i <= secrets@.len(),
            out@ == apply_secrets(text@, string_views(secrets@), i as int),
        decreases secrets.len() - i,
    {
        let secret = &secrets[i];
        assert(string_views(secrets@)[i as int] == secret@);
        if !secret.as_str().is_empty() {
            out = replace_str(out.as_str(), secret.as_str(), "***REDACTED***");
        }
        i = i + 1;
    }
    out
}

/// The last `cap` bytes of `s` (all of `s` when it is shorter).
pub open spec fn tail(s: Seq<u8>, cap: nat) -> Seq<u8> {
    if s.len() <= cap {
        s
    } else {
        s.skip(s.len() - cap)
    }
}

/// `a + b`, saturated at `u64::MAX`.
pub open spec fn sat_add_u64(a: u64, b: nat) -> u64 {
    if a + b > u64::MAX {
        u64::MAX
    } else {
        (a + b) as u64
    }
}

/// The chunks of `chunks` joined in order.
pub open spec fn concat(chunks: Seq<Seq<u8>>) -> Seq<u8>
    decreases chunks.len(),
{
    if chunks.len() == 0 {
        Seq::empty()
    } else {
        concat(chunks.drop_last()) + chunks.last()
    }
}

/// The ring, overflow flag and counter of a fresh `BoundedBuf` of capacity
/// `cap` after `chunks` are pushed in turn, each step as `push` states it.
pub open spec fn pushes(cap: nat, chunks: Seq<Seq<u8>>) -> (Seq<u8>, bool, u64)
    decreases chunks.len(),
{
    if chunks.len() == 0 {
        (Seq::empty(), false, 0)
    } else {
        let (b, o, t) = pushes(cap, chunks.drop_last());
        let c = chunks.last();
        (tail(b + c, cap), o || b.len() + c.len() > cap, sat_add_u64(t, c.len()))
    }
}

/// Whatever the chunking, a ring of capacity `cap` holds the last `cap`
/// bytes of everything pushed into it (so never more than `cap`), it has
/// overflowed exactly when more than `cap` bytes were pushed in all, and
/// its counter is the total number of bytes pushed, saturating.
pub proof fn lemma_pushes_keep_tail(cap: nat, chunks: Seq<Seq<u8>>)
    ensures
        pushes(cap, chunks) == (
            tail(concat(chunks), cap),
            concat(chunks).len() > cap,
            sat_add_u64(0, concat(chunks).len()),
        ),
        pushes(cap, chunks).0.len() <= cap,
    decreases chunks.len(),
{
    if chunks.len() > 0 {
        lemma_pushes_keep_tail(cap, chunks.drop_last());
        let a = concat(chunks.drop_last());
        let c = chunks.last();
        let ta = tail(a, cap);
        if a.len() > cap {
            assert(ta + c =~= (a + c).skip(a.len() - cap));
            assert(tail(ta + c, cap) =~= tail(a + c, cap));
        }
    }
}

/// `after` is the ring `before` once `chunk` is pushed (what `push`
/// states): same capacity, the last `cap` bytes of the old contents and the
/// chunk, the overflow flag set when they exceed `cap`, the counter moved
/// on by the chunk's length, saturating.
pub open spec fn pushed(before: BoundedBuf, chunk: Seq<u8>, after: BoundedBuf) -> bool {
    &&& after.cap == before.cap
    &&& after.buf@ == tail(before.buf@ + chunk, before.cap as nat)
    &&& after.overflowed == (before.overflowed || before.buf@.len() + chunk.len() > before.cap)
    &&& after.total_pushed == sat_add_u64(before.total_pushed, chunk.len())
}

/// Ring `k + 1` of `rings` is ring `k` with chunk `k` pushed.
pub open spec fn push_link(rings: Seq<BoundedBuf>, chunks: Seq<Seq<u8>>, k: int) -> bool {
    pushed(rings[k], chunks[k], rings[k + 1])
}

proof fn lemma_rings_follow_pushes(rings: Seq<BoundedBuf>, chunks: Seq<Seq<u8>>, n: int)
    requires
        rings.len() == chunks.len() + 1,
        0 <= n <= chunks.len(),
        rings[0].buf@.len() == 0,
        !rings[0].overflowed,
        rings[0].total_pushed == 0,
        forall|k: int| 0 <= k < chunks.len() ==> #[trigger] push_link(rings, chunks, k),
    ensures
        rings[n].cap == rings[0].cap,
        (rings[n].buf@, rings[n].overflowed, rings[n].total_pushed) == pushes(
            rings[0].cap as nat,
            chunks.take(n),
        ),
    decreases n,
{
    if n == 0 {
        assert(rings[0].buf@ =~= Seq::<u8>::empty());
    } else {
        lemma_rings_follow_pushes(rings, chunks, n - 1);
        assert(push_link(rings, chunks, n - 1));
        assert(chunks.take(n).drop_last() =~= chunks.take(n - 1));
    }
}

/// A ring filled by any sequence of pushes, starting empty (as `new` makes
/// it): it holds the last `cap` bytes of everything pushed, it has
/// overflowed exactly when more than `cap` bytes were pushed in all, and
/// its counter is the number of bytes pushed, saturating.
pub proof fn lemma_ring_after_pushes(rings: Seq<BoundedBuf>, chunks: Seq<Seq<u8>>)
    requires
        rings.len() == chunks.len() + 1,
        rings[0].buf@.len() == 0,
        !rings[0].overflowed,
        rings[0].total_pushed == 0,
        forall|k: int| 0 <= k < chunks.len() ==> #[trigger] push_link(rings, chunks, k),
    ensures
        rings.last().cap == rings[0].cap,
        rings.last().buf@ == tail(concat(chunks), rings[0].cap as nat),
        rings.last().buf@.len() <= rings[0].cap,
        rings.last().overflowed == (concat(chunks).len() > rings[0].cap),
        rings.last().total_pushed == sat_add_u64(0, concat(chunks).len()),
{
    let n = chunks.len() as int;
    lemma_rings_follow_pushes(rings, chunks, n);
    assert(chunks.take(n) =~= chunks);
    lemma_pushes_keep_tail(rings[0].cap as nat, chunks);
}

/// Ring buffer that keeps the most recent `cap` bytes: a failing child
/// usually prints its diagnostic line right before exiting.
#[derive(Debug)]
pub struct BoundedBuf {
    pub cap: usize,
    pub buf: std::collections::VecDeque<u8>,
    /// Some byte was ever dropped.
    pub overflowed: bool,
    /// Bytes pushed in all, saturating; keeps moving after the ring fills.
    pub total_pushed: u64,
}

impl BoundedBuf {
    /// The ring holds no more than `cap` bytes.
    pub open spec fn wf(&self) -> bool {
        self.buf@.len() <= self.cap
    }

    pub fn new(cap: usize) -> (b: BoundedBuf)
        ensures
            b.wf(),
            b.cap == cap,
            b.buf@ == Seq::<u8>::empty(),
            !b.overflowed,
            b.total_pushed == 0,
    {
        let initial: usize = if cap < 8192 {
            cap
        } else {
            8192
        };
        BoundedBuf {
            cap,
            buf: std::collections::VecDeque::with_capacity(initial),
            overflowed: false,
            total_pushed: 0,
        }
    }

    /// Append `chunk`, dropping the oldest bytes beyond the cap. With a zero
    /// cap nothing is kept, but the overflow flag and the counter still
    /// move.
    pub fn push(&mut self, chunk: &[u8])
        requires
            old(self).wf(),
        ensures
            final(self).wf(),
            pushed(*old(self), chunk@, *final(self)),
            final(self).cap == old(self).cap,
            final(self).buf@ == tail(old(self).buf@ + chunk@, old(self).cap as nat),
            final(self).overflowed == (old(self).overflowed || old(self).buf@.len() + chunk@.len()
                > old(self).cap),
            final(self).total_pushed == sat_add_u64(old(self).total_pushed, chunk@.len()),
    {
        if self.cap == 0 {
            if chunk.len() > 0 {
                self.overflowed = true;
                self.total_pushed = self.total_pushed.saturating_add(chunk.len() as u64);
            }
            proof {
                assert(old(self).buf@.len() == 0);
                assert(tail(old(self).buf@ + chunk@, 0) =~= Seq::<u8>::empty());
                assert(self.buf@ =~= Seq::<u8>::empty());
            }
            return;
        }
        let mut i: usize = 0;
        while i < chunk.len()
            invariant
                i <= chunk@.len(),
                self.cap == old(self).cap,
                self.cap > 0,
                self.buf@.len() <= self.cap,
                self.buf@ == tail(old(self).buf@ + chunk@.take(i as int), self.cap as nat),
                self.overflowed == (old(self).overflowed || old(self).buf@.len() + i > self.cap),
                self.total_pushed == sat_add_u64(old(self).total_pushed, i as nat),
            decreases chunk.len() - i,
        {
            let ghost all = old(self).buf@ + chunk@.take(i as int);
            let ghost all2 = old(self).buf@ + chunk@.take(i + 1);
            assert(all2 =~= all.push(chunk@[i as int]));
            if self.buf.len() == self.cap {
                self.buf.pop_front();
                self.overflowed = true;
            }
            self.buf.push_back(chunk[i]);
            self.total_pushed = self.total_pushed.saturating_add(1);
            proof {
                if all.len() < self.cap {
                    assert(self.buf@ =~= all2);
                } else {
                    assert(self.buf@ =~= all2.skip(all2.len() - self.cap));
                }
            }
            i = i + 1;
        }
        assert(chunk@.take(chunk@.len() as int) =~= chunk@);
    }

    /// The captured bytes decoded as UTF-8 (invalid sequences replaced),
    /// preceded by a truncation note when bytes were dropped.
    pub fn snapshot_string(&self) -> (s: String)
        ensures
            s@ == (if self.overflowed {
                "<truncated; stderr exceeded capture cap; keeping tail>\n"@
            } else {
                Seq::<char>::empty()
            }) + utf8_lossy(self.buf@),
    {
        let mut bytes: Vec<u8> = Vec::new();
        let mut i: usize = 0;
        while i < self.buf.len()
            invariant
                i <= self.buf@.len(),
                bytes@ == self.buf@.take(i as int),
            decreases self.buf.len() - i,
        {
            bytes.push(self.buf[i]);
            assert(bytes@ =~= self.buf@.take(i + 1));
            i = i + 1;
        }
        assert(self.buf@.take(self.buf@.len() as int) =~= self.buf@);
        let text = lossy_string(bytes.as_slice());
        if self.overflowed {
            let mut v: Vec<char> = Vec::new();
            crate::text::extend_str(&mut v, "<truncated; stderr exceeded capture cap; keeping tail>\n");
            crate::text::extend_str(&mut v, text.as_str());
            crate::text::string_from(v.as_slice())
        } else {
            proof {
                assert(Seq::<char>::empty() + text@ =~= text@);
            }
            text
        }
    }
}

} // verus!

//! Defensive `WORKFLOW.md` hot reload: the active definition, its version,
//! and a bounded history of reload events.
//!
//! Reading the file and decoding it belong to the caller, which hands each
//! reload attempt's result (and the clock reading) to `try_reload`. A failed
//! reload never replaces the last-known-good definition.
use vstd::prelude::*;

use crate::workflow::WorkflowDefinition;

verus! {

/// How many past reload events are kept for operator visibility.
pub const HISTORY_CAPACITY: usize = 16;

#[derive(Debug, Clone, PartialEq, Eq)]
pub enum ReloadOutcome {
    /// The reload succeeded; the active definition moved to this version.
    Loaded { version: u64 },
    /// The reload was rejected, with the rendered error.
    Rejected { reason: String },
}

#[derive(Debug, Clone, PartialEq, Eq)]
pub struct ReloadEvent {
    /// When the reload happened, in milliseconds since the Unix epoch.
    pub at_ms: u64,
    pub outcome: ReloadOutcome,
}

impl ReloadOutcome {
    pub fn duplicate(&self) -> (r: ReloadOutcome)
        ensures
            r == *self,
    {
        match self {
            ReloadOutcome::Loaded { version } => ReloadOutcome::Loaded { version: *version },
            ReloadOutcome::Rejected { reason } => ReloadOutcome::Rejected { reason: reason.clone() },
        }
    }
}

impl ReloadEvent {
    pub fn duplicate(&self) -> (r: ReloadEvent)
        ensures
            r == *self,
    {
        ReloadEvent { at_ms: self.at_ms, outcome: self.outcome.duplicate() }
    }
}

/// The history after one more event: the oldest is dropped once the
/// history is full, and the event joins at the end.
pub open spec fn history_step(h: Seq<ReloadEvent>, e: ReloadEvent) -> Seq<ReloadEvent> {
    (if h.len() == HISTORY_CAPACITY {
        h.drop_first()
    } else {
        h
    }).push(e)
}

/// The history of a source whose events, oldest first, were `events`: the
/// first from `loaded`, each later one from `try_reload`.
pub open spec fn history_after(events: Seq<ReloadEvent>) -> Seq<ReloadEvent>
    decreases events.len(),
{
    if events.len() <= 1 {
        events
    } else {
        history_step(history_after(events.drop_last()), events.last())
    }
}

/// The last `HISTORY_CAPACITY` of `events` (all of them when fewer).
pub open spec fn last_events(events: Seq<ReloadEvent>) -> Seq<ReloadEvent> {
    if events.len() <= HISTORY_CAPACITY {
        events
    } else {
        events.skip(events.len() - HISTORY_CAPACITY)
    }
}

/// After any number of reloads the history is exactly the most recent
/// `HISTORY_CAPACITY` events (the initial load among them while it is
/// recent enough), oldest first, and it ends with the last event.
pub proof fn lemma_history_keeps_last(events: Seq<ReloadEvent>)
    requires
        events.len() >= 1,
    ensures
        history_after(events) == last_events(events),
        history_after(events).len() <= HISTORY_CAPACITY,
        history_after(events).last() == events.last(),
    decreases events.len(),
{
    if events.len() > 1 {
        let prev = events.drop_last();
        lemma_history_keeps_last(prev);
        let e = events.last();
        if prev.len() >= HISTORY_CAPACITY {
            assert(last_events(prev).drop_first().push(e) =~= last_events(events));
        } else {
            assert(prev.push(e) =~= events);
        }
    }
}

/// The active workflow definition with its reload bookkeeping.
#[derive(Debug)]
pub struct WorkflowSource {
    path: String,
    current: WorkflowDefinition,
    version: u64,
    history: Vec<ReloadEvent>,
}

impl WorkflowSource {
    pub closed spec fn spec_path(&self) -> Seq<char> {
        self.path@
    }

    pub closed spec fn spec_current(&self) -> WorkflowDefinition {
        self.current
    }

    pub closed spec fn spec_version(&self) -> u64 {
        self.version
    }

    pub closed spec fn spec_last_event(&self) -> ReloadEvent {
        self.history@.last()
    }

    /// The recorded reload events, oldest first.
    pub closed spec fn spec_history(&self) -> Seq<ReloadEvent> {
        self.history@
    }

    /// The history holds at most `HISTORY_CAPACITY` events and ends with
    /// the last event.
    #[verifier::type_invariant]
    closed spec fn wf(&self) -> bool {
        &&& 0 < self.history@.len() <= HISTORY_CAPACITY
    }

    /// A source whose file at `path` was read and decoded into
    /// `definition` at `at_ms`: version 1, one `Loaded` event.
    pub fn loaded(path: &str, definition: WorkflowDefinition, at_ms: u64) -> (s: WorkflowSource)
        ensures
            s.spec_path() == path@,
            s.spec_current() == definition,
            s.spec_version() == 1,
            s.spec_last_event() == (ReloadEvent { at_ms, outcome: ReloadOutcome::Loaded { version: 1 } }),
            s.spec_history() == seq![s.spec_last_event()],
    {
        let event = ReloadEvent { at_ms, outcome: ReloadOutcome::Loaded { version: 1 } };
        let mut history: Vec<ReloadEvent> = Vec::new();
        history.push(event.duplicate());
        assert(history@ =~= seq![event]);
        WorkflowSource { path: path.to_owned(), current: definition, version: 1, history }
    }

    pub fn path(&self) -> (p: &str)
        ensures
            p@ == self.spec_path(),
    {
        self.path.as_str()
    }

    /// The last-known-good definition.
    pub fn current(&self) -> (d: &WorkflowDefinition)
        ensures
            *d == self.spec_current(),
    {
        &self.current
    }

    pub fn version(&self) -> (v: u64)
        ensures
            v == self.spec_version(),
    {
        self.version
    }

    pub fn last_event(&self) -> (e: ReloadEvent)
        ensures
            e == self.spec_last_event(),
    {
        proof {
            use_type_invariant(self);
        }
        self.history[self.history.len() - 1].duplicate()
    }

    /// The recorded reload events, oldest first.
    pub fn history(&self) -> (h: Vec<ReloadEvent>)
        ensures
            h@ == self.spec_history(),
            h@.len() <= HISTORY_CAPACITY,
    {
        proof {
            use_type_invariant(self);
        }
        let mut h: Vec<ReloadEvent> = Vec::new();
        let mut i: usize = 0;
        while i < self.history.len()
            invariant
                i <= self.history@.len(),
                h@ == self.history@.take(i as int),
            decreases self.history.len() - i,
        {
            h.push(self.history[i].duplicate());
            assert(h@ =~= self.history@.take(i + 1));
            i = i + 1;
        }
        assert(self.history@.take(self.history@.len() as int) =~= self.history@);
        h
    }

    /// Record the result of one reload attempt made at `at_ms`: `Ok` with
    /// the freshly decoded definition, or `Err` with the rendered reason.
    /// A success bumps the version (saturating) and swaps the definition in;
    /// a failure keeps the last-known-good definition and version. Either
    /// way the event becomes the last event and joins the history, whose
    /// oldest event is dropped once it holds `HISTORY_CAPACITY`.
    pub fn try_reload(&mut self, attempt: Result<WorkflowDefinition, String>, at_ms: u64) -> (o:
        ReloadOutcome)
        ensures
            match attempt {
                Ok(d) => {
                    &&& final(self).spec_current() == d
                    &&& final(self).spec_version() == (if old(self).spec_version() == u64::MAX {
                        u64::MAX
                    } else {
                        (old(self).spec_version() + 1) as u64
                    })
                    &&& o == ReloadOutcome::Loaded { version: final(self).spec_version() }
                },
                Err(reason) => {
                    &&& final(self).spec_current() == old(self).spec_current()
                    &&& final(self).spec_version() == old(self).spec_version()
                    &&& o == ReloadOutcome::Rejected { reason }
                },
            },
            final(self).spec_path() == old(self).spec_path(),
            final(self).spec_last_event() == (ReloadEvent { at_ms, outcome: o }),
            final(self).spec_history() == history_step(
                old(self).spec_history(),
                final(self).spec_last_event(),
            ),
            final(self).spec_history() == (if old(self).spec_history().len() == HISTORY_CAPACITY {
                old(self).spec_history().drop_first()
            } else {
                old(self).spec_history()
            }).push(final(self).spec_last_event()),
            final(self).spec_history().len() <= HISTORY_CAPACITY,
    {
        proof {
            use_type_invariant(&*self);
        }
        let outcome = match attempt {
            Ok(definition) => {
                self.version = self.version.saturating_add(1);
                self.current = definition;
                ReloadOutcome::Loaded { version: self.version }
            },
            Err(reason) => ReloadOutcome::Rejected { reason },
        };
        let event = ReloadEvent { at_ms, outcome: outcome.duplicate() };
        let ghost before = self.history@;
        let start: usize = if self.history.len() == HISTORY_CAPACITY {
            1
        } else {
            0
        };
        let mut history: Vec<ReloadEvent> = Vec::new();
        let mut i: usize = start;
        while i < self.history.len()
            invariant
                start <= i <= self.history@.len(),
                self.history@ == before,
                history@ == before.subrange(start as int, i as int),
            decreases self.history.len() - i,
        {
            history.push(self.history[i].duplicate());
            assert(history@ =~= before.subrange(start as int, i + 1));
            i = i + 1;
        }
        history.push(event);
        proof {
            if start == 1 {
                assert(before.subrange(1, before.len() as int) =~= before.drop_first());
            } else {
                assert(before.subrange(0, before.len() as int) =~= before);
            }
        }
        self.history = history;
        outcome
    }
}

/// Source `k + 1` of `sources` is source `k` after one `try_reload`, as
/// far as the history goes.
pub open spec fn reload_link(sources: Seq<WorkflowSource>, k: int) -> bool {
    sources[k + 1].spec_history() == history_step(
        sources[k].spec_history(),
        sources[k + 1].spec_last_event(),
    )
}

/// The last events of the sources, in turn.
pub open spec fn events_of(sources: Seq<WorkflowSource>) -> Seq<ReloadEvent> {
    Seq::new(sources.len(), |k: int| sources[k].spec_last_event())
}

proof fn lemma_sources_follow_events(sources: Seq<WorkflowSource>, n: int)
    requires
        0 <= n < sources.len(),
        sources[0].spec_history() == seq![sources[0].spec_last_event()],
        forall|k: int| 0 <= k < sources.len() - 1 ==> #[trigger] reload_link(sources, k),
    ensures
        sources[n].spec_history() == history_after(events_of(sources).take(n + 1)),
    decreases n,
{
    let ev = events_of(sources);
    if n == 0 {
        assert(ev.take(1) =~= seq![sources[0].spec_last_event()]);
    } else {
        lemma_sources_follow_events(sources, n - 1);
        assert(reload_link(sources, n - 1));
        assert(ev.take(n + 1).drop_last() =~= ev.take(n));
    }
}

/// A source loaded once and then reloaded any number of times (each step as
/// `loaded` and `try_reload` state it) keeps as its history exactly the
/// most recent `HISTORY_CAPACITY` of its events, oldest first, ending with
/// its last event.
pub proof fn lemma_history_after_reloads(sources: Seq<WorkflowSource>)
    requires
        sources.len() >= 1,
        sources[0].spec_history() == seq![sources[0].spec_last_event()],
        forall|k: int| 0 <= k < sources.len() - 1 ==> #[trigger] reload_link(sources, k),
    ensures
        sources.last().spec_history() == last_events(events_of(sources)),
        sources.last().spec_history().len() <= HISTORY_CAPACITY,
        sources.last().spec_history().last() == sources.last().spec_last_event(),
{
    let n = sources.len() - 1;
    lemma_sources_follow_events(sources, n);
    let ev = events_of(sources);
    assert(ev.take(n + 1) =~= ev);
    lemma_history_keeps_last(ev);
}

} // verus!

//! Runtime snapshot model served by the state API, and the free-text
//! `KEY=value` scrub that every payload goes through.
use vstd::prelude::*;

use crate::obs::{looks_secret, secret_shaped};
use crate::scrubber::char_free;
use crate::text::{
    chars_of, extend_chars, extend_str, find_char_from, find_char_from_exec, is_ascii_alnum, occurs_at,
    lemma_find_char_from_bounds, lemma_trim_end_len_bounds, slice_vec, string_from, trim_end,
    trim_end_len, trim_end_len_exec,
};

verus! {

#[derive(Debug, Clone, Default, PartialEq, Eq)]
pub struct RuntimeSnapshot {
    pub workflow_version: u64,
    pub max_concurrent_agents: usize,
    pub running: Vec<IssueRunningView>,
    pub retry: Vec<RetryView>,
    pub recent_skips: Vec<SkipReasonView>,
    pub last_reload: Option<LastReloadView>,
}

#[derive(Debug, Clone, PartialEq, Eq)]
pub struct IssueRunningView {
    pub issue_id: String,
    pub identifier: String,
    pub attempt: u32,
    pub thread_id: Option<String>,
    pub turn_id: Option<String>,
    pub last_event: Option<String>,
    pub started_at_ms: Option<u64>,
}

#[derive(Debug, Clone, PartialEq, Eq)]
pub struct RetryView {
    pub issue_id: String,
    pub identifier: String,
    pub attempt: u32,
    pub due_at_ms: u64,
    pub reason: Option<String>,
}

#[derive(Debug, Clone, PartialEq, Eq)]
pub struct SkipReasonView {
    pub issue_id: String,
    pub identifier: String,
    pub reason: String,
}

#[derive(Debug, Clone, PartialEq, Eq)]
pub struct LastReloadView {
    pub at_ms: u64,
    pub version: u64,
    pub outcome: String,
    pub error: Option<String>,
}

impl IssueRunningView {
    pub fn duplicate(&self) -> (r: IssueRunningView)
        ensures
            r == *self,
    {
        IssueRunningView {
            issue_id: self.issue_id.clone(),
            identifier: self.identifier.clone(),
            attempt: self.attempt,
            thread_id: crate::domain::dup_opt_string(&self.thread_id),
            turn_id: crate::domain::dup_opt_string(&self.turn_id),
            last_event: crate::domain::dup_opt_string(&self.last_event),
            started_at_ms: self.started_at_ms,
        }
    }
}

impl RetryView {
    pub fn duplicate(&self) -> (r: RetryView)
        ensures
            r == *self,
    {
        RetryView {
            issue_id: self.issue_id.clone(),
            identifier: self.identifier.clone(),
            attempt: self.attempt,
            due_at_ms: self.due_at_ms,
            reason: crate::domain::dup_opt_string(&self.reason),
        }
    }
}

/// What the per-issue state route answers with.
#[derive(Debug, Clone, PartialEq, Eq)]
pub enum IssueView {
    Running(IssueRunningView),
    Retry(RetryView),
}

pub open spec fn running_matches(r: IssueRunningView, id: Seq<char>) -> bool {
    r.identifier@ == id || r.issue_id@ == id
}

pub open spec fn retry_matches(r: RetryView, id: Seq<char>) -> bool {
    r.identifier@ == id || r.issue_id@ == id
}

/// Look an issue up by identifier or id: the first running entry that
/// matches, else the first retry entry that matches, else nothing.
pub fn find_issue(snapshot: &RuntimeSnapshot, identifier: &str) -> (r: Option<IssueView>)
    ensures
        match r {
            Some(IssueView::Running(v)) => exists|i: int|
                0 <= i < snapshot.running@.len() && v == snapshot.running@[i] && running_matches(
                    #[trigger] snapshot.running@[i],
                    identifier@,
                ) && forall|j: int|
                    0 <= j < i ==> !running_matches(#[trigger] snapshot.running@[j], identifier@),
            Some(IssueView::Retry(v)) => {
                &&& forall|j: int|
                    0 <= j < snapshot.running@.len() ==> !running_matches(
                        #[trigger] snapshot.running@[j],
                        identifier@,
                    )
                &&& exists|i: int|
                    0 <= i < snapshot.retry@.len() && v == snapshot.retry@[i] && retry_matches(
                        #[trigger] snapshot.retry@[i],
                        identifier@,
                    ) && forall|j: int|
                        0 <= j < i ==> !retry_matches(#[trigger] snapshot.retry@[j], identifier@)
            },
            None => {
                &&& forall|j: int|
                    0 <= j < snapshot.running@.len() ==> !running_matches(
                        #[trigger] snapshot.running@[j],
                        identifier@,
                    )
                &&& forall|j: int|
                    0 <= j < snapshot.retry@.len() ==> !retry_matches(
                        #[trigger] snapshot.retry@[j],
                        identifier@,
                    )
            },
        },
{
    let mut i: usize = 0;
    while i < snapshot.running.len()
        invariant
            i <= snapshot.running@.len(),
            forall|j: int|
                0 <= j < i ==> !running_matches(#[trigger] snapshot.running@[j], identifier@),
        decreases snapshot.running.len() - i,
    {
        let r = &snapshot.running[i];
        if crate::strmap::str_eq(r.identifier.as_str(), identifier) || crate::strmap::str_eq(
            r.issue_id.as_str(),
            identifier,
        ) {
            let v = r.duplicate();
            assert(running_matches(snapshot.running@[i as int], identifier@));
            return Some(IssueView::Running(v));
        }
        i = i + 1;
    }
    let mut k: usize = 0;
    while k < snapshot.retry.len()
        invariant
            k <= snapshot.retry@.len(),
            forall|j: int|
                0 <= j < snapshot.running@.len() ==> !running_matches(
                    #[trigger] snapshot.running@[j],
                    identifier@,
                ),
            forall|j: int| 0 <= j < k ==> !retry_matches(#[trigger] snapshot.retry@[j], identifier@),
        decreases snapshot.retry.len() - k,
    {
        let r = &snapshot.retry[k];
        if crate::strmap::str_eq(r.identifier.as_str(), identifier) || crate::strmap::str_eq(
            r.issue_id.as_str(),
            identifier,
        ) {
            let v = r.duplicate();
            assert(retry_matches(snapshot.retry@[k as int], identifier@));
            return Some(IssueView::Retry(v));
        }
        k = k + 1;
    }
    None
}

// ---------------------------------------------------------------------------
// The KEY=value scrub
// ---------------------------------------------------------------------------

/// Characters of a key run: ASCII letters, digits and `_`.
pub open spec fn is_key_run_char(c: char) -> bool {
    is_ascii_alnum(c) || c == '_'
}

/// Index of the last character before index `n` that cannot be part of a
/// key, or `-1`.
pub open spec fn last_non_key(s: Seq<char>, n: int) -> int
    decreases n,
{
    if n <= 0 || n > s.len() {
        -1
    } else if !is_key_run_char(s[n - 1]) {
        n - 1
    } else {
        last_non_key(s, n - 1)
    }
}

/// Index of the first character at or after `i` that is neither a space nor
/// a tab, or `s.len()`.
pub open spec fn skip_blanks(s: Seq<char>, i: int) -> int
    decreases s.len() - i,
{
    if i < 0 || i >= s.len() {
        s.len() as int
    } else if s[i] == ' ' || s[i] == '\t' {
        skip_blanks(s, i + 1)
    } else {
        i
    }
}

/// Index of the first `'\n'` or `'\r'` at or after `i`, or `s.len()`.
pub open spec fn line_end(s: Seq<char>, i: int) -> int
    decreases s.len() - i,
{
    if i < 0 || i >= s.len() {
        s.len() as int
    } else if s[i] == '\n' || s[i] == '\r' {
        i
    } else {
        line_end(s, i + 1)
    }
}

pub proof fn lemma_last_non_key_bounds(s: Seq<char>, n: int)
    requires
        0 <= n <= s.len(),
    ensures
        -1 <= last_non_key(s, n) < n,
        last_non_key(s, n) >= 0 ==> !is_key_run_char(s[last_non_key(s, n)]),
    decreases n,
{
    if n > 0 && is_key_run_char(s[n - 1]) {
        lemma_last_non_key_bounds(s, n - 1);
    }
}

pub proof fn lemma_skip_blanks_bounds(s: Seq<char>, i: int)
    requires
        0 <= i <= s.len(),
    ensures
        i <= skip_blanks(s, i) <= s.len(),
    decreases s.len() - i,
{
    if i < s.len() && (s[i] == ' ' || s[i] == '\t') {
        lemma_skip_blanks_bounds(s, i + 1);
    }
}

pub proof fn lemma_line_end_bounds(s: Seq<char>, i: int)
    requires
        0 <= i <= s.len(),
    ensures
        i <= line_end(s, i) <= s.len(),
    decreases s.len() - i,
{
    if i < s.len() && !(s[i] == '\n' || s[i] == '\r') {
        lemma_line_end_bounds(s, i + 1);
    }
}

/// Where the key before the first `=` of `s` starts: right after the last
/// character of the (right-trimmed) head that is not a key character.
pub open spec fn key_start(s: Seq<char>) -> int {
    let head = s.take(find_char_from(s, '=', 0));
    let ht = trim_end(head);
    last_non_key(ht, ht.len() as int) + 1
}

/// The key right before the first `=` of `s`.
pub open spec fn key_before_eq(s: Seq<char>) -> Seq<char> {
    let head = s.take(find_char_from(s, '=', 0));
    let ht = trim_end(head);
    ht.skip(key_start(s))
}

/// The free-text scrub: every `KEY=value` whose `KEY` (the run of ASCII
/// letters, digits and `_` right before `=`, whitespace before the `=`
/// allowed) is secret-shaped has its value (after optional spaces or tabs,
/// up to the end of the line) replaced by `[REDACTED]`; all other text is
/// kept as it is.
pub open spec fn scrub(s: Seq<char>) -> Seq<char>
    decreases s.len(),
{
    if s.len() == 0 {
        s
    } else {
        let sep = find_char_from(s, '=', 0);
        if sep >= s.len() {
            s
        } else {
            let head = s.take(sep);
            let after = s.skip(sep + 1);
            let key = key_before_eq(s);
            if secret_shaped(key) && key.len() > 0 {
                let lws = skip_blanks(after, 0);
                let region = after.skip(lws);
                let vend = line_end(region, 0);
                proof {
                    lemma_find_char_from_bounds(s, '=', 0);
                    lemma_skip_blanks_bounds(after, 0);
                    lemma_line_end_bounds(region, 0);
                }
                head.push('=') + after.take(lws) + "[REDACTED]"@ + scrub(region.skip(vend))
            } else {
                proof {
                    lemma_find_char_from_bounds(s, '=', 0);
                }
                head.push('=') + scrub(after)
            }
        }
    }
}

/// A prefix of the scrub's output holding no character of `[REDACTED]` is
/// a prefix of its input.
proof fn lemma_scrub_prefix(s: Seq<char>, k: int)
    requires
        0 <= k <= scrub(s).len(),
        forall|j: int| 0 <= j < k ==> !"[REDACTED]"@.contains(#[trigger] scrub(s)[j]),
    ensures
        k <= s.len(),
        scrub(s).take(k) == s.take(k),
    decreases s.len(),
{
    let out = scrub(s);
    if s.len() > 0 {
        let sep = find_char_from(s, '=', 0);
        lemma_find_char_from_bounds(s, '=', 0);
        if sep < s.len() {
            let head = s.take(sep);
            let after = s.skip(sep + 1);
            let key = key_before_eq(s);
            let p = head.push('=');
            assert(p =~= s.take(sep + 1));
            if secret_shaped(key) && key.len() > 0 {
                let lws = skip_blanks(after, 0);
                let region = after.skip(lws);
                let vend = line_end(region, 0);
                lemma_skip_blanks_bounds(after, 0);
                lemma_line_end_bounds(region, 0);
                let pre = p + after.take(lws);
                assert(pre =~= s.take(sep + 1 + lws));
                let marker = "[REDACTED]"@;
                assert(marker.len() == 10 && marker[0] == '[') by {
                    reveal_strlit("[REDACTED]");
                }
                assert(out == pre + marker + scrub(region.skip(vend)));
                if k > pre.len() {
                    assert(out[pre.len() as int] == '[');
                    assert(marker.contains(marker[0]));
                }
                assert(out.take(k) =~= pre.take(k));
                assert(s.take(k) =~= pre.take(k));
            } else {
                let r = scrub(after);
                assert(out == p + r);
                if k > p.len() {
                    assert forall|j: int| 0 <= j < k - p.len() implies !"[REDACTED]"@.contains(
                        #[trigger] r[j],
                    ) by {
                        assert(r[j] == out[j + p.len()]);
                    }
                    lemma_scrub_prefix(after, k - p.len());
                    assert(out.take(k) =~= p + r.take(k - p.len()));
                    assert(s.take(k) =~= p + after.take(k - p.len()));
                } else {
                    assert(out.take(k) =~= p.take(k));
                    assert(s.take(k) =~= p.take(k));
                }
            }
        }
    }
}

/// The scrub cannot create an occurrence of a text `q` that shares no
/// character with `[REDACTED]`.
pub proof fn lemma_scrub_creates_no_occurrence(s: Seq<char>, q: Seq<char>)
    requires
        q.len() > 0,
        char_free(q, "[REDACTED]"@),
        forall|i: int| !occurs_at(s, q, i),
    ensures
        forall|i: int| !occurs_at(scrub(s), q, i),
    decreases s.len(),
{
    let out = scrub(s);
    if s.len() > 0 {
        let sep = find_char_from(s, '=', 0);
        lemma_find_char_from_bounds(s, '=', 0);
        if sep < s.len() {
            let head = s.take(sep);
            let after = s.skip(sep + 1);
            let key = key_before_eq(s);
            let p = head.push('=');
            assert(p =~= s.take(sep + 1));
            if secret_shaped(key) && key.len() > 0 {
                let lws = skip_blanks(after, 0);
                let region = after.skip(lws);
                let vend = line_end(region, 0);
                lemma_skip_blanks_bounds(after, 0);
                lemma_line_end_bounds(region, 0);
                let pre = p + after.take(lws);
                assert(pre =~= s.take(sep + 1 + lws));
                let marker = "[REDACTED]"@;
                assert(marker.len() == 10) by {
                    reveal_strlit("[REDACTED]");
                }
                let rest = region.skip(vend);
                let off = sep + 1 + lws + vend;
                assert(rest =~= s.skip(off));
                assert forall|i: int| !occurs_at(rest, q, i) by {
                    if occurs_at(rest, q, i) {
                        assert(rest.subrange(i, i + q.len()) =~= s.subrange(
                            i + off,
                            i + off + q.len(),
                        ));
                        assert(occurs_at(s, q, i + off));
                    }
                }
                lemma_scrub_creates_no_occurrence(rest, q);
                let r = scrub(rest);
                assert(out == pre + marker + r);
                assert forall|i: int| !occurs_at(out, q, i) by {
                    if occurs_at(out, q, i) {
                        let pl = pre.len() as int;
                        if i + q.len() <= pl {
                            assert(out.subrange(i, i + q.len()) =~= s.subrange(i, i + q.len()));
                            assert(occurs_at(s, q, i));
                        } else if i < pl {
                            assert(q[pl - i] == out.subrange(i, i + q.len())[pl - i]);
                            assert(out[pl] == marker[0]);
                            assert(marker.contains(marker[0]));
                        } else if i < pl + 10 {
                            assert(q[0] == out.subrange(i, i + q.len())[0]);
                            assert(out[i] == marker[i - pl]);
                            assert(marker.contains(marker[i - pl]));
                        } else {
                            assert(out.subrange(i, i + q.len()) =~= r.subrange(
                                i - pl - 10,
                                i - pl - 10 + q.len(),
                            ));
                            assert(occurs_at(r, q, i - pl - 10));
                        }
                    }
                }
            } else {
                let off = sep + 1;
                assert forall|i: int| !occurs_at(after, q, i) by {
                    if occurs_at(after, q, i) {
                        assert(after.subrange(i, i + q.len()) =~= s.subrange(
                            i + off,
                            i + off + q.len(),
                        ));
                        assert(occurs_at(s, q, i + off));
                    }
                }
                lemma_scrub_creates_no_occurrence(after, q);
                let r = scrub(after);
                assert(out == p + r);
                assert forall|i: int| !occurs_at(out, q, i) by {
                    if occurs_at(out, q, i) {
                        let pl = p.len() as int;
                        if i >= pl {
                            assert(out.subrange(i, i + q.len()) =~= r.subrange(
                                i - pl,
                                i - pl + q.len(),
                            ));
                            assert(occurs_at(r, q, i - pl));
                        } else if i + q.len() <= pl {
                            assert(out.subrange(i, i + q.len()) =~= s.subrange(i, i + q.len()));
                            assert(occurs_at(s, q, i));
                        } else {
                            let k = i + q.len() - pl;
                            assert forall|j: int| 0 <= j < k implies !"[REDACTED]"@.contains(
                                #[trigger] r[j],
                            ) by {
                                assert(r[j] == out[pl + j]);
                                assert(out[pl + j] == out.subrange(i, i + q.len())[pl + j - i]);
                            }
                            lemma_scrub_prefix(after, k);
                            assert(out.subrange(i, i + q.len()) =~= s.subrange(i, i + q.len())) by {
                                assert forall|j: int| 0 <= j < q.len() implies #[trigger] out.subrange(
                                    i,
                                    i + q.len(),
                                )[j] == s.subrange(i, i + q.len())[j] by {
                                    if i + j >= pl {
                                        assert(r.take(k)[i + j - pl] == after.take(k)[i + j - pl]);
                                    }
                                }
                            }
                            assert(occurs_at(s, q, i));
                        }
                    }
                }
            }
        }
    }
}

/// The scrub stays on character boundaries: wherever it splits a head at
/// the start of a key, the character before the key is ASCII. (A multi-byte
/// character right before a key run would put the split inside it.)
pub open spec fn scrub_ok(s: Seq<char>) -> bool
    decreases s.len(),
{
    if s.len() == 0 {
        true
    } else {
        let sep = find_char_from(s, '=', 0);
        if sep >= s.len() {
            true
        } else {
            let head = s.take(sep);
            let ht = trim_end(head);
            let ks = key_start(s);
            let after = s.skip(sep + 1);
            let key = key_before_eq(s);
            let here = ks == 0 || ht[ks - 1] < '\u{80}';
            if secret_shaped(key) && key.len() > 0 {
                let lws = skip_blanks(after, 0);
                let region = after.skip(lws);
                let vend = line_end(region, 0);
                proof {
                    lemma_find_char_from_bounds(s, '=', 0);
                    lemma_skip_blanks_bounds(after, 0);
                    lemma_line_end_bounds(region, 0);
                }
                here && scrub_ok(region.skip(vend))
            } else {
                proof {
                    lemma_find_char_from_bounds(s, '=', 0);
                }
                here && scrub_ok(after)
            }
        }
    }
}

proof fn lemma_find_eq_after_head(head: Seq<char>, x: Seq<char>, i: int)
    requires
        0 <= i <= head.len(),
        forall|k: int| 0 <= k < head.len() ==> head[k] != '=',
    ensures
        find_char_from(head.push('=') + x, '=', i) == head.len(),
    decreases head.len() - i,
{
    let o = head.push('=') + x;
    if i < head.len() {
        assert(o[i] == head[i]);
        lemma_find_eq_after_head(head, x, i + 1);
    } else {
        assert(o[i] == '=');
    }
}

proof fn lemma_skip_blanks_at(s: Seq<char>, i: int, k: int)
    requires
        0 <= i <= k <= s.len(),
        forall|j: int| i <= j < k ==> s[j] == ' ' || s[j] == '\t',
        k < s.len() ==> !(s[k] == ' ' || s[k] == '\t'),
    ensures
        skip_blanks(s, i) == k,
    decreases k - i,
{
    if i < k {
        lemma_skip_blanks_at(s, i + 1, k);
    }
}

proof fn lemma_line_end_at(s: Seq<char>, i: int, k: int)
    requires
        0 <= i <= k <= s.len(),
        forall|j: int| i <= j < k ==> !(s[j] == '\n' || s[j] == '\r'),
        k < s.len() ==> (s[k] == '\n' || s[k] == '\r'),
    ensures
        line_end(s, i) == k,
    decreases k - i,
{
    if i < k {
        lemma_line_end_at(s, i + 1, k);
    }
}

proof fn lemma_skip_blanks_spans(s: Seq<char>, i: int)
    requires
        0 <= i <= s.len(),
    ensures
        forall|j: int| i <= j < skip_blanks(s, i) ==> s[j] == ' ' || s[j] == '\t',
        skip_blanks(s, i) < s.len() ==> !(s[skip_blanks(s, i)] == ' ' || s[skip_blanks(s, i)]
            == '\t'),
    decreases s.len() - i,
{
    if i < s.len() && (s[i] == ' ' || s[i] == '\t') {
        lemma_skip_blanks_spans(s, i + 1);
    }
}

proof fn lemma_line_end_stops(s: Seq<char>, i: int)
    requires
        0 <= i <= s.len(),
    ensures
        line_end(s, i) < s.len() ==> (s[line_end(s, i)] == '\n' || s[line_end(s, i)] == '\r'),
    decreases s.len() - i,
{
    if i < s.len() && !(s[i] == '\n' || s[i] == '\r') {
        lemma_line_end_stops(s, i + 1);
    }
}

/// The scrub keeps the first character of its input.
proof fn lemma_scrub_first(s: Seq<char>)
    requires
        s.len() > 0,
    ensures
        scrub(s).len() > 0,
        scrub(s)[0] == s[0],
{
    let sep = find_char_from(s, '=', 0);
    lemma_find_char_from_bounds(s, '=', 0);
    if sep < s.len() {
        let head = s.take(sep);
        if sep > 0 {
            assert(scrub(s)[0] == head.push('=')[0]);
        } else {
            assert(scrub(s)[0] == head.push('=')[0]);
            assert(s[0] == '=');
        }
    }
}

/// The free-text scrub is idempotent: scrubbing scrubbed text changes
/// nothing, and text that can be scrubbed can still be scrubbed after.
pub proof fn lemma_scrub_idempotent(s: Seq<char>)
    ensures
        scrub(scrub(s)) == scrub(s),
        scrub_ok(s) ==> scrub_ok(scrub(s)),
    decreases s.len(),
{
    if s.len() > 0 {
        let sep = find_char_from(s, '=', 0);
        lemma_find_char_from_bounds(s, '=', 0);
        if sep < s.len() {
            let head = s.take(sep);
            let after = s.skip(sep + 1);
            let key = key_before_eq(s);
            assert forall|k: int| 0 <= k < head.len() implies head[k] != '=' by {
                assert(head[k] == s[k]);
            }
            let o = scrub(s);
            if secret_shaped(key) && key.len() > 0 {
                let lws = skip_blanks(after, 0);
                let region = after.skip(lws);
                let vend = line_end(region, 0);
                lemma_skip_blanks_bounds(after, 0);
                lemma_line_end_bounds(region, 0);
                lemma_skip_blanks_spans(after, 0);
                lemma_line_end_stops(region, 0);
                let rest = region.skip(vend);
                let r = "[REDACTED]"@;
                reveal_strlit("[REDACTED]");
                let a2 = after.take(lws) + r + scrub(rest);
                assert(o == head.push('=') + a2);
                lemma_find_eq_after_head(head, a2, 0);
                assert(o.take(sep) =~= head);
                assert(o.skip(sep + 1) =~= a2);
                assert(key_before_eq(o) == key);
                assert(key_start(o) == key_start(s));
                assert(trim_end(o.take(sep)) == trim_end(head));
                lemma_skip_blanks_at(a2, 0, lws);
                let region2 = a2.skip(lws);
                assert(region2 =~= r + scrub(rest));
                if rest.len() > 0 {
                    lemma_scrub_first(rest);
                    assert(rest[0] == region[vend]);
                }
                lemma_line_end_at(region2, 0, 10);
                assert(region2.skip(10) =~= scrub(rest));
                lemma_scrub_idempotent(rest);
                assert(scrub(o) == head.push('=') + a2.take(lws) + r + scrub(scrub(rest)));
                assert(a2.take(lws) =~= after.take(lws));
            } else {
                let a2 = scrub(after);
                assert(o == head.push('=') + a2);
                lemma_find_eq_after_head(head, a2, 0);
                assert(o.take(sep) =~= head);
                assert(o.skip(sep + 1) =~= a2);
                assert(key_before_eq(o) == key);
                assert(key_start(o) == key_start(s));
                assert(trim_end(o.take(sep)) == trim_end(head));
                lemma_scrub_idempotent(after);
            }
        }
    }
}

fn last_non_key_exec(s: &[char], n: usize) -> (r: Option<usize>)
    requires
        n <= s.len(),
    ensures
        match r {
            Some(i) => i == last_non_key(s@, n as int) && i < n,
            None => last_non_key(s@, n as int) == -1,
        },
{
    let mut k = n;
    while k > 0 && crate::text::char_is_ascii_alnum(s[k - 1]) || k > 0 && s[k - 1] == '_'
        invariant
            k <= n <= s.len(),
            last_non_key(s@, n as int) == last_non_key(s@, k as int),
        decreases k,
    {
        k = k - 1;
    }
    proof {
        lemma_last_non_key_bounds(s@, k as int);
    }
    if k == 0 {
        None
    } else {
        Some(k - 1)
    }
}

fn skip_blanks_exec(s: &[char]) -> (r: usize)
    ensures
        r == skip_blanks(s@, 0),
{
    let mut i: usize = 0;
    while i < s.len() && (s[i] == ' ' || s[i] == '\t')
        invariant
            i <= s.len(),
            skip_blanks(s@, 0) == skip_blanks(s@, i as int),
        decreases s.len() - i,
    {
        i = i + 1;
    }
    i
}

fn line_end_exec(s: &[char]) -> (r: usize)
    ensures
        r == line_end(s@, 0),
{
    let mut i: usize = 0;
    while i < s.len() && !(s[i] == '\n' || s[i] == '\r')
        invariant
            i <= s.len(),
            line_end(s@, 0) == line_end(s@, i as int),
        decreases s.len() - i,
    {
        i = i + 1;
    }
    i
}

/// The scrub of `text`, and whether it stays on character boundaries.
fn scrub_chars(text: &[char]) -> (r: (Vec<char>, bool))
    ensures
        r.0@ == scrub(text@),
        r.1 == scrub_ok(text@),
{
    let mut out: Vec<char> = Vec::new();
    let mut ok = true;
    let mut rest: Vec<char> = slice_vec(text, 0, text.len());
    assert(rest@ =~= text@);
    while rest.len() > 0
        invariant
            out@ + scrub(rest@) == scrub(text@),
            scrub_ok(text@) == (ok && scrub_ok(rest@)),
        decreases rest.len(),
    {
        let r = rest.as_slice();
        let sep = find_char_from_exec(r, '=', 0);
        proof {
            lemma_find_char_from_bounds(r@, '=', 0);
        }
        if sep >= r.len() {
            extend_chars(&mut out, r);
            proof {
                assert(scrub(r@) == r@);
                assert(scrub(Seq::<char>::empty()) == Seq::<char>::empty());
            }
            rest = Vec::new();
            proof {
                assert(out@ + scrub(rest@) =~= out@);
            }
        } else {
            let head = slice_vec(r, 0, sep);
            let ht_len = trim_end_len_exec(head.as_slice(), head.len());
            proof {
                lemma_trim_end_len_bounds(head@, head@.len() as int);
                assert(head@ =~= r@.take(sep as int));
                assert(trim_end(head@) =~= head@.take(ht_len as int));
            }
            let ks: usize = match last_non_key_exec(head.as_slice(), ht_len) {
                Some(i) => i + 1,
                None => 0,
            };
            proof {
                lemma_last_non_key_bounds(head@.take(ht_len as int), ht_len as int);
                assert forall|m: int| 0 <= m <= ht_len implies last_non_key(
                    head@.take(ht_len as int),
                    m,
                ) == last_non_key(head@, m) by {
                    lemma_last_non_key_prefix(head@, ht_len as int, m);
                }
            }
            if ks > 0 && head[ks - 1] >= '\u{80}' {
                ok = false;
            }
            let key = slice_vec(head.as_slice(), ks, ht_len);
            assert(key@ =~= key_before_eq(r@));
            let after = slice_vec(r, sep + 1, r.len());
            assert(after@ =~= r@.skip(sep + 1));
            let ghost before_out = out@;
            extend_chars(&mut out, head.as_slice());
            out.push('=');
            let key_str = string_from(key.as_slice());
            if looks_secret(key_str.as_str()) && key.len() > 0 {
                let lws = skip_blanks_exec(after.as_slice());
                proof {
                    lemma_skip_blanks_bounds(after@, 0);
                }
                let blanks = slice_vec(after.as_slice(), 0, lws);
                extend_chars(&mut out, blanks.as_slice());
                extend_str(&mut out, "[REDACTED]");
                let region = slice_vec(after.as_slice(), lws, after.len());
                let vend = line_end_exec(region.as_slice());
                proof {
                    lemma_line_end_bounds(region@, 0);
                    assert(region@ =~= after@.skip(lws as int));
                    assert(blanks@ =~= after@.take(lws as int));
                }
                let next = slice_vec(region.as_slice(), vend, region.len());
                proof {
                    assert(next@ =~= region@.skip(vend as int));
                    assert(out@ =~= before_out + (head@.push('=') + after@.take(lws as int)
                        + "[REDACTED]"@));
                }
                rest = next;
            } else {
                proof {
                    assert(out@ =~= before_out + head@.push('='));
                }
                rest = after;
            }
        }
    }
    (out, ok)
}

proof fn lemma_last_non_key_prefix(s: Seq<char>, k: int, m: int)
    requires
        0 <= m <= k <= s.len(),
    ensures
        last_non_key(s.take(k), m) == last_non_key(s, m),
    decreases m,
{
    if m > 0 {
        lemma_last_non_key_prefix(s, k, m - 1);
    }
}

/// Scrub `KEY=value` substrings of `text` whose `KEY` is secret-shaped: the
/// value (after optional spaces or tabs) is replaced by `[REDACTED]` up to
/// the end of its line. `KEY: value` forms are deliberately left alone.
pub fn scrub_text(text: &str) -> (r: String)
    requires
        scrub_ok(text@),
    ensures
        r@ == scrub(text@),
{
    let chars = chars_of(text);
    let (out, _ok) = scrub_chars(chars.as_slice());
    string_from(out.as_slice())
}

/// Whether `scrub_text` may be called on `text` (see `scrub_ok`).
pub fn scrub_is_safe(text: &str) -> (b: bool)
    ensures
        b == scrub_ok(text@),
{
    let chars = chars_of(text);
    let (_out, ok) = scrub_chars(chars.as_slice());
    ok
}

// ---------------------------------------------------------------------------
// Snapshot redaction
// ---------------------------------------------------------------------------

pub open spec fn opt_scrub_ok(o: Option<String>) -> bool {
    match o {
        Some(s) => scrub_ok(s@),
        None => true,
    }
}

/// `new` is `old` with its text scrubbed.
pub open spec fn opt_scrubbed(old: Option<String>, new: Option<String>) -> bool {
    match (old, new) {
        (Some(a), Some(b)) => b@ == scrub(a@),
        (None, None) => true,
        _ => false,
    }
}

/// Every free-form field of the snapshot can be scrubbed.
pub open spec fn snapshot_scrub_ok(s: RuntimeSnapshot) -> bool {
    &&& forall|i: int| 0 <= i < s.running@.len() ==> opt_scrub_ok(#[trigger] s.running@[i].last_event)
    &&& forall|i: int| 0 <= i < s.retry@.len() ==> opt_scrub_ok(#[trigger] s.retry@[i].reason)
    &&& match s.last_reload {
        Some(r) => opt_scrub_ok(r.error),
        None => true,
    }
}

/// `new` is `old` with `last_event`, `reason` and the reload `error`
/// scrubbed and every other field unchanged.
pub open spec fn snapshot_redacted(old: RuntimeSnapshot, new: RuntimeSnapshot) -> bool {
    &&& new.workflow_version == old.workflow_version
    &&& new.max_concurrent_agents == old.max_concurrent_agents
    &&& new.recent_skips@ == old.recent_skips@
    &&& new.running@.len() == old.running@.len()
    &&& forall|i: int|
        0 <= i < old.running@.len() ==> {
            let a = #[trigger] old.running@[i];
            let b = new.running@[i];
            &&& b.issue_id == a.issue_id
            &&& b.identifier == a.identifier
            &&& b.attempt == a.attempt
            &&& b.thread_id == a.thread_id
            &&& b.turn_id == a.turn_id
            &&& b.started_at_ms == a.started_at_ms
            &&& opt_scrubbed(a.last_event, b.last_event)
        }
    &&& new.retry@.len() == old.retry@.len()
    &&& forall|i: int|
        0 <= i < old.retry@.len() ==> {
            let a = #[trigger] old.retry@[i];
            let b = new.retry@[i];
            &&& b.issue_id == a.issue_id
            &&& b.identifier == a.identifier
            &&& b.attempt == a.attempt
            &&& b.due_at_ms == a.due_at_ms
            &&& opt_scrubbed(a.reason, b.reason)
        }
    &&& match (old.last_reload, new.last_reload) {
        (Some(a), Some(b)) => {
            &&& b.at_ms == a.at_ms
            &&& b.version == a.version
            &&& b.outcome == a.outcome
            &&& opt_scrubbed(a.error, b.error)
        },
        (None, None) => true,
        _ => false,
    }
}

fn scrub_opt(o: &Option<String>) -> (r: Option<String>)
    requires
        opt_scrub_ok(*o),
    ensures
        opt_scrubbed(*o, r),
{
    match o {
        Some(s) => Some(scrub_text(s.as_str())),
        None => None,
    }
}

fn opt_is_safe(o: &Option<String>) -> (b: bool)
    ensures
        b == opt_scrub_ok(*o),
{
    match o {
        Some(s) => scrub_is_safe(s.as_str()),
        None => true,
    }
}

/// Whether `redact_snapshot` may be called on `snapshot`.
pub fn snapshot_is_safe(snapshot: &RuntimeSnapshot) -> (b: bool)
    ensures
        b == snapshot_scrub_ok(*snapshot),
{
    let mut i: usize = 0;
    while i < snapshot.running.len()
        invariant
            i <= snapshot.running@.len(),
            forall|k: int| 0 <= k < i ==> opt_scrub_ok(#[trigger] snapshot.running@[k].last_event),
        decreases snapshot.running.len() - i,
    {
        if !opt_is_safe(&snapshot.running[i].last_event) {
            return false;
        }
        i = i + 1;
    }
    let mut j: usize = 0;
    while j < snapshot.retry.len()
        invariant
            j <= snapshot.retry@.len(),
            forall|k: int| 0 <= k < j ==> opt_scrub_ok(#[trigger] snapshot.retry@[k].reason),
        decreases snapshot.retry.len() - j,
    {
        if !opt_is_safe(&snapshot.retry[j].reason) {
            return false;
        }
        j = j + 1;
    }
    match &snapshot.last_reload {
        Some(r) => opt_is_safe(&r.error),
        None => true,
    }
}

/// Scrub every free-form string of the snapshot (`last_event`, `reason`,
/// the reload `error`): the last line of defence against a token that
/// arrived in upstream text.
pub fn redact_snapshot(snapshot: &mut RuntimeSnapshot)
    requires
        snapshot_scrub_ok(*old(snapshot)),
    ensures
        snapshot_redacted(*old(snapshot), *final(snapshot)),
{
    let mut running: Vec<IssueRunningView> = Vec::new();
    let mut i: usize = 0;
    while i < snapshot.running.len()
        invariant
            i <= snapshot.running@.len(),
            snapshot == old(snapshot),
            snapshot_scrub_ok(*snapshot),
            running@.len() == i,
            forall|k: int|
                0 <= k < i ==> {
                    let a = #[trigger] snapshot.running@[k];
                    let b = running@[k];
                    &&& b.issue_id == a.issue_id
                    &&& b.identifier == a.identifier
                    &&& b.attempt == a.attempt
                    &&& b.thread_id == a.thread_id
                    &&& b.turn_id == a.turn_id
                    &&& b.started_at_ms == a.started_at_ms
                    &&& opt_scrubbed(a.last_event, b.last_event)
                },
        decreases snapshot.running.len() - i,
    {
        let a = &snapshot.running[i];
        assert(opt_scrub_ok(snapshot.running@[i as int].last_event));
        running.push(
            IssueRunningView {
                issue_id: a.issue_id.clone(),
                identifier: a.identifier.clone(),
                attempt: a.attempt,
                thread_id: crate::domain::dup_opt_string(&a.thread_id),
                turn_id: crate::domain::dup_opt_string(&a.turn_id),
                last_event: scrub_opt(&a.last_event),
                started_at_ms: a.started_at_ms,
            },
        );
        i = i + 1;
    }
    let mut retry: Vec<RetryView> = Vec::new();
    let mut j: usize = 0;
    while j < snapshot.retry.len()
        invariant
            j <= snapshot.retry@.len(),
            snapshot == old(snapshot),
            snapshot_scrub_ok(*snapshot),
            retry@.len() == j,
            forall|k: int|
                0 <= k < j ==> {
                    let a = #[trigger] snapshot.retry@[k];
                    let b = retry@[k];
                    &&& b.issue_id == a.issue_id
                    &&& b.identifier == a.identifier
                    &&& b.attempt == a.attempt
                    &&& b.due_at_ms == a.due_at_ms
                    &&& opt_scrubbed(a.reason, b.reason)
                },
        decreases snapshot.retry.len() - j,
    {
        let a = &snapshot.retry[j];
        assert(opt_scrub_ok(snapshot.retry@[j as int].reason));
        retry.push(
            RetryView {
                issue_id: a.issue_id.clone(),
                identifier: a.identifier.clone(),
                attempt: a.attempt,
                due_at_ms: a.due_at_ms,
                reason: scrub_opt(&a.reason),
            },
        );
        j = j + 1;
    }
    let last_reload = match &snapshot.last_reload {
        Some(r) => Some(
            LastReloadView {
                at_ms: r.at_ms,
                version: r.version,
                outcome: r.outcome.clone(),
                error: scrub_opt(&r.error),
            },
        ),
        None => None,
    };
    snapshot.running = running;
    snapshot.retry = retry;
    snapshot.last_reload = last_reload;
}

} // verus!

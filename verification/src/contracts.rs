//! Contract registry helpers.
//!
//! `tools/versions.toml` is the ledger pinning the upstream facts Cadenza
//! targets. These helpers read a TOML body as text, line by line, so the
//! checks need no TOML parser.
use vstd::prelude::*;

use crate::text::{
    chars_of, contains, contains_exec, lemma_skip_ws_from_bounds, lines, lines_exec,
    skip_ws_from_exec, slice_vec, starts_with, starts_with_exec, string_from, trim, trim_start,
    trim_start_vec, trim_vec, views,
};

verus! {

/// The MVP-critical keys, in registry order.
pub open spec fn mvp_keys() -> Seq<Seq<char>> {
    seq![
        "symphony_spec_sha"@,
        "cli_version"@,
        "toolchain_version"@,
        "wasmtime_version"@,
        "wasm_tools_version"@,
        "wit_bindgen_version"@,
    ]
}

/// The MVP-critical keys that must be pinned to a concrete value (no `TODO`
/// placeholder) in `tools/versions.toml`.
pub fn mvp_critical_keys() -> (v: Vec<&'static str>)
    ensures
        v@.len() == mvp_keys().len(),
        forall|i: int| 0 <= i < v@.len() ==> #[trigger] v@[i]@ == mvp_keys()[i],
{
    let v: Vec<&'static str> = vec![
        "symphony_spec_sha",
        "cli_version",
        "toolchain_version",
        "wasmtime_version",
        "wasm_tools_version",
        "wit_bindgen_version",
    ];
    v
}

/// `line` (already trimmed of leading whitespace) assigns exactly `key`: the
/// key is followed by a space, a tab or `=`, and the first non-whitespace
/// character after it is `=`.
pub open spec fn assigns_key(line: Seq<char>, key: Seq<char>) -> bool {
    &&& starts_with(line, key)
    &&& line.len() > key.len()
    &&& (line[key.len() as int] == ' ' || line[key.len() as int] == '\t' || line[key.len() as int]
        == '=')
    &&& starts_with(trim_start(line.skip(key.len() as int)), seq!['='])
}

fn line_assigns_key(line: &[char], key: &[char]) -> (b: bool)
    ensures
        b == assigns_key(line@, key@),
{
    if !starts_with_exec(line, key) {
        return false;
    }
    if line.len() <= key.len() {
        return false;
    }
    let c = line[key.len()];
    if !(c == ' ' || c == '\t' || c == '=') {
        return false;
    }
    let k = skip_ws_from_exec(line, key.len());
    proof {
        lemma_skip_ws_from_bounds(line@, key.len() as int);
        let rest = line@.skip(key.len() as int);
        lemma_skip_ws_shift(line@, key.len() as int, 0);
        assert(trim_start(rest) =~= line@.skip(k as int));
    }
    let r = k < line.len() && line[k] == '=';
    proof {
        let t = line@.skip(k as int);
        if r {
            assert(t.take(1) =~= seq!['=']);
        } else if t.len() >= 1 {
            assert(t.take(1)[0] != '=');
        }
    }
    r
}

proof fn lemma_skip_ws_shift(s: Seq<char>, off: int, i: int)
    requires
        0 <= off <= s.len(),
        0 <= i <= s.len() - off,
    ensures
        crate::text::skip_ws_from(s.skip(off), i) + off == crate::text::skip_ws_from(s, off + i),
    decreases s.len() - off - i,
{
    if i < s.len() - off {
        assert(s.skip(off)[i] == s[off + i]);
        lemma_skip_ws_shift(s, off, i + 1);
    }
}

/// Where a TOML comment starts in `s`, scanning from `i` in the given string
/// state: the first `#` outside basic (`"..."`, with backslash escapes) and
/// literal (`'...'`) strings, or `s.len()` when there is none.
pub open spec fn comment_cut(s: Seq<char>, i: int, state: int, escaped: bool) -> int
    decreases s.len() - i,
{
    if i < 0 || i >= s.len() {
        s.len() as int
    } else {
        let ch = s[i];
        if state == 1 {
            // inside a basic string
            if escaped {
                comment_cut(s, i + 1, 1, false)
            } else if ch == '\\' {
                comment_cut(s, i + 1, 1, true)
            } else if ch == '"' {
                comment_cut(s, i + 1, 0, escaped)
            } else {
                comment_cut(s, i + 1, 1, escaped)
            }
        } else if state == 2 {
            // inside a literal string
            if ch == '\'' {
                comment_cut(s, i + 1, 0, escaped)
            } else {
                comment_cut(s, i + 1, 2, escaped)
            }
        } else {
            if ch == '"' {
                comment_cut(s, i + 1, 1, escaped)
            } else if ch == '\'' {
                comment_cut(s, i + 1, 2, escaped)
            } else if ch == '#' {
                i
            } else {
                comment_cut(s, i + 1, 0, escaped)
            }
        }
    }
}

/// `line` with an inline comment (an unquoted `#` and what follows) removed.
pub open spec fn strip_comment(line: Seq<char>) -> Seq<char> {
    line.take(comment_cut(line, 0, 0, false))
}

proof fn lemma_comment_cut_bounds(s: Seq<char>, i: int, state: int, escaped: bool)
    requires
        0 <= i <= s.len(),
    ensures
        i <= comment_cut(s, i, state, escaped) <= s.len(),
    decreases s.len() - i,
{
    if i < s.len() {
        let ch = s[i];
        if state == 1 {
            if escaped {
                lemma_comment_cut_bounds(s, i + 1, 1, false);
            } else if ch == '\\' {
                lemma_comment_cut_bounds(s, i + 1, 1, true);
            } else if ch == '"' {
                lemma_comment_cut_bounds(s, i + 1, 0, escaped);
            } else {
                lemma_comment_cut_bounds(s, i + 1, 1, escaped);
            }
        } else if state == 2 {
            if ch == '\'' {
                lemma_comment_cut_bounds(s, i + 1, 0, escaped);
            } else {
                lemma_comment_cut_bounds(s, i + 1, 2, escaped);
            }
        } else {
            if ch == '"' {
                lemma_comment_cut_bounds(s, i + 1, 1, escaped);
            } else if ch == '\'' {
                lemma_comment_cut_bounds(s, i + 1, 2, escaped);
            } else if ch != '#' {
                lemma_comment_cut_bounds(s, i + 1, 0, escaped);
            }
        }
    }
}

/// Length of `line` once an inline comment is stripped.
fn comment_cut_exec(line: &[char]) -> (n: usize)
    ensures
        n == comment_cut(line@, 0, 0, false),
        n <= line@.len(),
{
    let mut state: u8 = 0;
    let mut escaped = false;
    let mut i: usize = 0;
    while i < line.len()
        invariant
            i <= line@.len(),
            state <= 2,
            comment_cut(line@, 0, 0, false) == comment_cut(line@, i as int, state as int, escaped),
        decreases line.len() - i,
    {
        let ch = line[i];
        if state == 1 {
            if escaped {
                escaped = false;
            } else if ch == '\\' {
                escaped = true;
            } else if ch == '"' {
                state = 0;
            }
        } else if state == 2 {
            if ch == '\'' {
                state = 0;
            }
        } else {
            if ch == '"' {
                state = 1;
            } else if ch == '\'' {
                state = 2;
            } else if ch == '#' {
                return i;
            }
        }
        i = i + 1;
    }
    i
}

/// `strip_comment` of `line`, as a new vector.
fn strip_inline_comment(line: &[char]) -> (v: Vec<char>)
    ensures
        v@ == strip_comment(line@),
{
    let n = comment_cut_exec(line);
    let v = slice_vec(line, 0, n);
    assert(v@ =~= line@.take(n as int));
    v
}

/// A registry line that assigns an MVP-critical key while its value (the
/// line without its inline comment) still holds `TODO`.
pub open spec fn is_pending_line(line: Seq<char>) -> bool {
    &&& contains(strip_comment(line), "TODO"@)
    &&& exists|k: int| 0 <= k < mvp_keys().len() && assigns_key(line, #[trigger] mvp_keys()[k])
}

/// The offending lines among the first `n` lines of a registry body, each
/// with its leading whitespace trimmed, in order.
pub open spec fn pending_lines(ls: Seq<Seq<char>>, n: int) -> Seq<Seq<char>>
    decreases n,
{
    if n <= 0 || n > ls.len() {
        Seq::empty()
    } else if is_pending_line(trim_start(ls[n - 1])) {
        pending_lines(ls, n - 1).push(trim_start(ls[n - 1]))
    } else {
        pending_lines(ls, n - 1)
    }
}

/// Whether `line` assigns one of the MVP-critical keys.
fn assigns_critical_key(line: &[char]) -> (b: bool)
    ensures
        b == exists|k: int| 0 <= k < mvp_keys().len() && assigns_key(line@, #[trigger] mvp_keys()[k]),
{
    let keys = mvp_critical_keys();
    let mut j: usize = 0;
    while j < keys.len()
        invariant
            j <= keys@.len(),
            keys@.len() == mvp_keys().len(),
            forall|i: int| 0 <= i < keys@.len() ==> #[trigger] keys@[i]@ == mvp_keys()[i],
            forall|k: int| 0 <= k < j ==> !assigns_key(line@, #[trigger] mvp_keys()[k]),
        decreases keys.len() - j,
    {
        let key = chars_of(keys[j]);
        assert(keys@[j as int]@ == mvp_keys()[j as int]);
        if line_assigns_key(line, key.as_slice()) {
            return true;
        }
        j = j + 1;
    }
    false
}

/// Every line of `body` that assigns an MVP-critical key but still carries a
/// `TODO` placeholder in its value (a `TODO` only inside an inline comment
/// does not count), trimmed of leading whitespace.
pub fn pending_mvp_critical_keys(body: &str) -> (offenders: Vec<String>)
    ensures
        crate::strmap::string_views(offenders@) == pending_lines(
            lines(body@),
            lines(body@).len() as int,
        ),
{
    let chars = chars_of(body);
    let ls = lines_exec(chars.as_slice());
    let todo = chars_of("TODO");
    let mut offenders: Vec<String> = Vec::new();
    let mut i: usize = 0;
    while i < ls.len()
        invariant
            i <= ls@.len(),
            views(ls@) == lines(body@),
            chars@ == body@,
            todo@ == "TODO"@,
            crate::strmap::string_views(offenders@) == pending_lines(views(ls@), i as int),
        decreases ls.len() - i,
    {
        let line = trim_start_vec(ls[i].as_slice());
        assert(ls@[i as int]@ == views(ls@)[i as int]);
        let value = strip_inline_comment(line.as_slice());
        if contains_exec(value.as_slice(), todo.as_slice()) && assigns_critical_key(
            line.as_slice(),
        ) {
            let ghost before = crate::strmap::string_views(offenders@);
            offenders.push(string_from(line.as_slice()));
            assert(crate::strmap::string_views(offenders@) =~= before.push(line@));
        }
        i = i + 1;
    }
    offenders
}

/// The value assigned on a line that assigns the key: the comment-stripped
/// line after its first `=`, trimmed, with one pair of surrounding double
/// (else single) quotes removed; `None` when the stripped line holds no `=`.
pub open spec fn value_of_line(line: Seq<char>) -> Option<Seq<char>> {
    let value = strip_comment(line);
    let e = crate::text::find_char_from(value, '=', 0);
    if e >= value.len() {
        None
    } else {
        let after = trim(value.skip(e + 1));
        if after.len() >= 2 && after[0] == '"' && after.last() == '"' {
            Some(after.subrange(1, after.len() - 1))
        } else if after.len() >= 2 && after[0] == '\'' && after.last() == '\'' {
            Some(after.subrange(1, after.len() - 1))
        } else {
            Some(after)
        }
    }
}

proof fn lemma_cut_plain(s: Seq<char>, i: int, j: int, esc: bool)
    requires
        0 <= i <= j <= s.len(),
        forall|k: int| i <= k < j ==> s[k] != '"' && s[k] != '\'' && s[k] != '#',
    ensures
        comment_cut(s, i, 0, esc) == comment_cut(s, j, 0, esc),
    decreases j - i,
{
    if i < j {
        lemma_cut_plain(s, i + 1, j, esc);
    }
}

proof fn lemma_cut_inside(s: Seq<char>, i: int, j: int, state: int, q: char)
    requires
        0 <= i <= j <= s.len(),
        (state == 2 && q == '\'') || (state == 1 && q == '"'),
        forall|k: int| i <= k < j ==> s[k] != q && s[k] != '\\',
    ensures
        comment_cut(s, i, state, false) == comment_cut(s, j, state, false),
    decreases j - i,
{
    if i < j {
        lemma_cut_inside(s, i + 1, j, state, q);
    }
}

proof fn lemma_find_at(s: Seq<char>, c: char, i: int, k: int)
    requires
        0 <= i <= k < s.len(),
        forall|m: int| i <= m < k ==> s[m] != c,
        s[k] == c,
    ensures
        crate::text::find_char_from(s, c, i) == k,
    decreases k - i,
{
    if i < k {
        lemma_find_at(s, c, i + 1, k);
    }
}

proof fn lemma_skip_ws_at(s: Seq<char>, i: int, k: int)
    requires
        0 <= i <= k < s.len(),
        forall|m: int| i <= m < k ==> s[m] == ' ' || s[m] == '\t',
        !crate::text::is_ws(s[k]),
    ensures
        crate::text::skip_ws_from(s, i) == k,
    decreases k - i,
{
    if i < k {
        lemma_skip_ws_at(s, i + 1, k);
    }
}

/// A value written as a quoted TOML string, `key = 'v'` or `key = "v"`
/// (spaces or tabs around `=`; a literal string without `'`, a basic string
/// without `"` or escapes), is read as the text between the quotes.
pub proof fn lemma_quoted_value(
    key: Seq<char>,
    pad1: Seq<char>,
    pad2: Seq<char>,
    v: Seq<char>,
    q: char,
)
    requires
        q == '\'' || q == '"',
        forall|i: int|
            0 <= i < key.len() ==> #[trigger] key[i] != '=' && key[i] != '"' && key[i] != '\''
                && key[i] != '#',
        forall|i: int| 0 <= i < pad1.len() ==> #[trigger] pad1[i] == ' ' || pad1[i] == '\t',
        forall|i: int| 0 <= i < pad2.len() ==> #[trigger] pad2[i] == ' ' || pad2[i] == '\t',
        forall|i: int| 0 <= i < v.len() ==> #[trigger] v[i] != q && v[i] != '\\',
    ensures
        value_of_line(key + pad1 + seq!['='] + pad2 + seq![q] + v + seq![q]) == Some(v),
{
    let line = key + pad1 + seq!['='] + pad2 + seq![q] + v + seq![q];
    let e: int = (key.len() + pad1.len()) as int;
    let o: int = e + 1 + pad2.len();
    let c: int = o + 1 + v.len();
    assert(line.len() == c + 1);
    assert forall|k: int| 0 <= k < e implies line[k] != '"' && line[k] != '\'' && line[k] != '#'
        && line[k] != '=' by {
        if k < key.len() {
            assert(line[k] == key[k]);
        } else {
            assert(line[k] == pad1[k - key.len()]);
        }
    }
    assert(line[e] == '=');
    assert forall|k: int| e + 1 <= k < o implies line[k] != '"' && line[k] != '\'' && line[k]
        != '#' && (line[k] == ' ' || line[k] == '\t') by {
        assert(line[k] == pad2[k - e - 1]);
    }
    assert(line[o] == q);
    assert forall|k: int| o + 1 <= k < c implies line[k] != q && line[k] != '\\' by {
        assert(line[k] == v[k - o - 1]);
    }
    assert(line[c] == q);
    lemma_cut_plain(line, 0, e, false);
    lemma_cut_plain(line, e + 1, o, false);
    let st: int = if q == '\'' {
        2
    } else {
        1
    };
    lemma_cut_inside(line, o + 1, c, st, q);
    assert(comment_cut(line, c + 1, 0, false) == line.len());
    assert(comment_cut(line, c, st, false) == comment_cut(line, c + 1, 0, false));
    assert(comment_cut(line, o, 0, false) == comment_cut(line, o + 1, st, false));
    assert(comment_cut(line, e, 0, false) == comment_cut(line, e + 1, 0, false));
    assert(comment_cut(line, 0, 0, false) == line.len());
    assert(strip_comment(line) =~= line);
    lemma_find_at(line, '=', 0, e);
    let rest = line.skip(e + 1);
    let core = seq![q] + v + seq![q];
    assert(rest =~= pad2 + core);
    lemma_skip_ws_at(rest, 0, pad2.len() as int);
    assert(trim_start(rest) =~= core);
    assert(crate::text::trim_end_len(core, core.len() as int) == core.len());
    assert(trim(rest) =~= core);
    assert(core.subrange(1, core.len() - 1) =~= v);
}

/// `assigned_value` over the lines of a body from index `i` on.
pub open spec fn assigned_from(ls: Seq<Seq<char>>, key: Seq<char>, i: int) -> Option<Seq<char>>
    decreases ls.len() - i,
{
    if i < 0 || i >= ls.len() {
        None
    } else if assigns_key(trim_start(ls[i]), key) {
        value_of_line(trim_start(ls[i]))
    } else {
        assigned_from(ls, key, i + 1)
    }
}

/// The unquoted, comment-stripped value assigned to `key` on the first line
/// of `body` that assigns it, if any.
pub fn assigned_value(body: &str, key: &str) -> (r: Option<String>)
    ensures
        match r {
            Some(v) => assigned_from(lines(body@), key@, 0) == Some(v@),
            None => assigned_from(lines(body@), key@, 0) is None,
        },
{
    let chars = chars_of(body);
    let key_chars = chars_of(key);
    let ls = lines_exec(chars.as_slice());
    let mut i: usize = 0;
    while i < ls.len()
        invariant
            i <= ls@.len(),
            views(ls@) == lines(body@),
            key_chars@ == key@,
            assigned_from(lines(body@), key@, 0) == assigned_from(lines(body@), key@, i as int),
        decreases ls.len() - i,
    {
        assert(ls@[i as int]@ == views(ls@)[i as int]);
        let line = trim_start_vec(ls[i].as_slice());
        if line_assigns_key(line.as_slice(), key_chars.as_slice()) {
            return value_of_line_exec(line.as_slice());
        }
        i = i + 1;
    }
    None
}

fn value_of_line_exec(line: &[char]) -> (r: Option<String>)
    ensures
        match r {
            Some(v) => value_of_line(line@) == Some(v@),
            None => value_of_line(line@) is None,
        },
{
    let value = strip_inline_comment(line);
    let e = crate::text::find_char_from_exec(value.as_slice(), '=', 0);
    proof {
        crate::text::lemma_find_char_from_bounds(value@, '=', 0);
    }
    if e >= value.len() {
        return None;
    }
    let rest = slice_vec(value.as_slice(), e + 1, value.len());
    assert(rest@ =~= value@.skip(e + 1));
    let after = trim_vec(rest.as_slice());
    let n = after.len();
    if n >= 2 && after[0] == '"' && after[n - 1] == '"' {
        let inner = slice_vec(after.as_slice(), 1, n - 1);
        return Some(string_from(inner.as_slice()));
    }
    if n >= 2 && after[0] == '\'' && after[n - 1] == '\'' {
        let inner = slice_vec(after.as_slice(), 1, n - 1);
        return Some(string_from(inner.as_slice()));
    }
    Some(string_from(after.as_slice()))
}

/// Whether some line of `body`, trimmed of leading whitespace, assigns `key`.
pub open spec fn key_is_assigned(body: Seq<char>, key: Seq<char>) -> bool {
    exists|i: int| 0 <= i < lines(body).len() && assigns_key(trim_start(#[trigger] lines(body)[i]), key)
}

/// The MVP-critical keys among the first `n` that no line of `body` assigns,
/// in registry order.
pub open spec fn missing_keys(body: Seq<char>, n: int) -> Seq<Seq<char>>
    decreases n,
{
    if n <= 0 || n > mvp_keys().len() {
        Seq::empty()
    } else if !key_is_assigned(body, mvp_keys()[n - 1]) {
        missing_keys(body, n - 1).push(mvp_keys()[n - 1])
    } else {
        missing_keys(body, n - 1)
    }
}

/// The MVP-critical keys that are not assigned anywhere in `body`.
pub fn missing_mvp_critical_keys(body: &str) -> (missing: Vec<&'static str>)
    ensures
        missing@.map_values(|s: &str| s@) == missing_keys(body@, mvp_keys().len() as int),
{
    let keys = mvp_critical_keys();
    let chars = chars_of(body);
    let ls = lines_exec(chars.as_slice());
    let mut trimmed: Vec<Vec<char>> = Vec::new();
    let mut i: usize = 0;
    while i < ls.len()
        invariant
            i <= ls@.len(),
            views(ls@) == lines(body@),
            trimmed@.len() == i,
            forall|m: int| 0 <= m < i ==> #[trigger] trimmed@[m]@ == trim_start(lines(body@)[m]),
        decreases ls.len() - i,
    {
        assert(ls@[i as int]@ == views(ls@)[i as int]);
        trimmed.push(trim_start_vec(ls[i].as_slice()));
        i = i + 1;
    }
    let mut missing: Vec<&'static str> = Vec::new();
    let mut j: usize = 0;
    while j < keys.len()
        invariant
            j <= keys@.len(),
            keys@.len() == mvp_keys().len(),
            forall|m: int| 0 <= m < keys@.len() ==> #[trigger] keys@[m]@ == mvp_keys()[m],
            trimmed@.len() == lines(body@).len(),
            forall|m: int|
                0 <= m < trimmed@.len() ==> #[trigger] trimmed@[m]@ == trim_start(lines(body@)[m]),
            missing@.map_values(|s: &str| s@) == missing_keys(body@, j as int),
        decreases keys.len() - j,
    {
        let key = chars_of(keys[j]);
        assert(keys@[j as int]@ == mvp_keys()[j as int]);
        let mut found = false;
        let mut m: usize = 0;
        while m < trimmed.len()
            invariant
                m <= trimmed@.len(),
                trimmed@.len() == lines(body@).len(),
                forall|q: int|
                    0 <= q < trimmed@.len() ==> #[trigger] trimmed@[q]@ == trim_start(
                        lines(body@)[q],
                    ),
                key@ == mvp_keys()[j as int],
                found == exists|q: int|
                    0 <= q < m && assigns_key(trim_start(#[trigger] lines(body@)[q]), key@),
            decreases trimmed.len() - m,
        {
            if line_assigns_key(trimmed[m].as_slice(), key.as_slice()) {
                found = true;
            }
            proof {
                if found {
                    if assigns_key(trim_start(lines(body@)[m as int]), key@) {
                        assert(exists|q: int|
                            0 <= q < m + 1 && assigns_key(
                                trim_start(#[trigger] lines(body@)[q]),
                                key@,
                            ));
                    }
                }
            }
            m = m + 1;
        }
        let ghost before = missing@.map_values(|s: &str| s@);
        if !found {
            missing.push(keys[j]);
            assert(missing@.map_values(|s: &str| s@) =~= before.push(mvp_keys()[j as int]));
        }
        j = j + 1;
    }
    missing
}

} // verus!

//! Centralized secret scrubber.
//!
//! Two redaction modes: key-shape detection (`looks_secret`) for structured
//! fields, and exact-substring replacement of registered secret values in
//! free text. Registered values are applied longest first, so a shorter
//! prefix cannot leak the suffix of a longer secret.
use vstd::prelude::*;

use crate::obs::{looks_secret, secret_shaped};
use crate::ordering::{
    int_order, lemma_lex_order_antisym, lemma_lex_order_eq, lemma_lex_order_range,
    lemma_lex_order_trans, lex_order, order_str,
};
use crate::snapshot::{scrub, scrub_is_safe, scrub_ok, scrub_text};
use crate::strmap::string_views;
use crate::text::{chars_of, extend_chars, extend_str, occurs_at, occurs_at_exec, string_from};

verus! {

/// Number of bytes of the UTF-8 encoding of `s`.
pub open spec fn utf8_len(s: Seq<char>) -> nat
    decreases s.len(),
{
    if s.len() == 0 {
        0
    } else {
        let c = s.last();
        utf8_len(s.drop_last()) + if (c as u32) < 0x80 {
            1nat
        } else if (c as u32) < 0x800 {
            2nat
        } else if (c as u32) < 0x10000 {
            3nat
        } else {
            4nat
        }
    }
}

pub(crate) fn utf8_len_exec(s: &[char]) -> (n: u128)
    ensures
        n == utf8_len(s@),
{
    let mut n: u128 = 0;
    let mut i: usize = 0;
    while i < s.len()
        invariant
            i <= s.len(),
            n == utf8_len(s@.take(i as int)),
            n <= 4 * i,
        decreases s.len() - i,
    {
        let c = s[i];
        let w: u128 = if (c as u32) < 0x80 {
            1
        } else if (c as u32) < 0x800 {
            2
        } else if (c as u32) < 0x10000 {
            3
        } else {
            4
        };
        assert(s@.take(i + 1).drop_last() =~= s@.take(i as int));
        n = n + w;
        i = i + 1;
    }
    assert(s@.take(s.len() as int) =~= s@);
    n
}

/// Order of registered secrets: longer (in UTF-8 bytes) first, then
/// lexicographic.
pub open spec fn secret_order(a: Seq<char>, b: Seq<char>) -> int {
    let o = int_order(utf8_len(b) as int, utf8_len(a) as int);
    if o != 0 {
        o
    } else {
        lex_order(a, b)
    }
}

pub proof fn lemma_secret_order_antisym(a: Seq<char>, b: Seq<char>)
    ensures
        secret_order(a, b) == -secret_order(b, a),
{
    lemma_lex_order_antisym(a, b);
}

pub proof fn lemma_secret_order_trans(a: Seq<char>, b: Seq<char>, c: Seq<char>)
    requires
        secret_order(a, b) <= 0,
        secret_order(b, c) <= 0,
    ensures
        secret_order(a, c) <= 0,
{
    lemma_lex_order_range(a, b);
    lemma_lex_order_range(b, c);
    if utf8_len(a) == utf8_len(b) && utf8_len(b) == utf8_len(c) {
        lemma_lex_order_trans(a, b, c);
    }
}

/// `s` lists secrets in non-decreasing `secret_order`.
pub open spec fn secrets_sorted(s: Seq<Seq<char>>) -> bool {
    forall|i: int, j: int|
        0 <= i < j < s.len() ==> secret_order(#[trigger] s[i], #[trigger] s[j]) <= 0
}

/// The non-empty strings among the first `n` of `s`, in order.
pub open spec fn nonempty_prefix(s: Seq<Seq<char>>, n: int) -> Seq<Seq<char>>
    decreases n,
{
    if n <= 0 || n > s.len() {
        Seq::empty()
    } else if s[n - 1].len() > 0 {
        nonempty_prefix(s, n - 1).push(s[n - 1])
    } else {
        nonempty_prefix(s, n - 1)
    }
}

/// `str::replace(pat, rep)` for a non-empty `pat`: the leftmost
/// non-overlapping occurrences of `pat` replaced by `rep`.
pub open spec fn replace_all(s: Seq<char>, pat: Seq<char>, rep: Seq<char>) -> Seq<char>
    decreases s.len(),
{
    if pat.len() == 0 || s.len() == 0 {
        s
    } else if occurs_at(s, pat, 0) {
        rep + replace_all(s.skip(pat.len() as int), pat, rep)
    } else {
        seq![s[0]] + replace_all(s.skip(1), pat, rep)
    }
}

/// `text` with the first `n` registered secrets replaced, in order, by the
/// free-text marker.
pub open spec fn apply_secrets(text: Seq<char>, secrets: Seq<Seq<char>>, n: int) -> Seq<char>
    decreases n,
{
    if n <= 0 || n > secrets.len() {
        text
    } else {
        replace_all(apply_secrets(text, secrets, n - 1), secrets[n - 1], "***REDACTED***"@)
    }
}

/// `s` is the registered form of the secret values `given`: the non-empty
/// ones, each as often as given, sorted by `secret_order` (longest first,
/// then lexicographic). Since `secret_order` is a total order, this
/// determines `s`.
pub open spec fn registered_form(s: Seq<Seq<char>>, given: Seq<Seq<char>>) -> bool {
    &&& secrets_sorted(s)
    &&& forall|i: int| 0 <= i < s.len() ==> (#[trigger] s[i]).len() > 0
    &&& s.to_multiset() == nonempty_prefix(given, given.len() as int).to_multiset()
}

proof fn lemma_secret_order_zero(a: Seq<char>, b: Seq<char>)
    requires
        secret_order(a, b) == 0,
    ensures
        a == b,
{
    lemma_lex_order_eq(a, b);
}

/// Two lists sorted by `secret_order` that hold the same values, each as
/// often, are the same list.
proof fn lemma_sorted_same_values(a: Seq<Seq<char>>, b: Seq<Seq<char>>)
    requires
        secrets_sorted(a),
        secrets_sorted(b),
        a.to_multiset() == b.to_multiset(),
    ensures
        a == b,
    decreases a.len(),
{
    broadcast use vstd::seq_lib::to_multiset_contains, vstd::seq_lib::to_multiset_len;

    assert(a.len() == a.to_multiset().len());
    assert(b.len() == b.to_multiset().len());
    if a.len() == 0 {
        assert(a =~= b);
    } else {
        let x = a[0];
        let y = b[0];
        assert(b.to_multiset().count(y) > 0);
        assert(a.contains(y));
        let i = choose|i: int| 0 <= i < a.len() && a[i] == y;
        if i > 0 {
            assert(secret_order(a[0], a[i]) <= 0);
        } else {
            lemma_lex_order_eq(x, x);
        }
        assert(a.to_multiset().count(x) > 0);
        assert(b.contains(x));
        let j = choose|j: int| 0 <= j < b.len() && b[j] == x;
        if j > 0 {
            assert(secret_order(b[0], b[j]) <= 0);
        } else {
            lemma_lex_order_eq(x, x);
        }
        lemma_secret_order_antisym(x, y);
        lemma_secret_order_zero(x, y);
        vstd::seq_lib::to_multiset_remove(a, 0);
        vstd::seq_lib::to_multiset_remove(b, 0);
        assert(a.remove(0) =~= a.drop_first());
        assert(b.remove(0) =~= b.drop_first());
        assert(secrets_sorted(a.drop_first())) by {
            assert forall|p: int, q: int| 0 <= p < q < a.drop_first().len() implies secret_order(
                #[trigger] a.drop_first()[p],
                #[trigger] a.drop_first()[q],
            ) <= 0 by {
                assert(secret_order(a[p + 1], a[q + 1]) <= 0);
            }
        }
        assert(secrets_sorted(b.drop_first())) by {
            assert forall|p: int, q: int| 0 <= p < q < b.drop_first().len() implies secret_order(
                #[trigger] b.drop_first()[p],
                #[trigger] b.drop_first()[q],
            ) <= 0 by {
                assert(secret_order(b[p + 1], b[q + 1]) <= 0);
            }
        }
        lemma_sorted_same_values(a.drop_first(), b.drop_first());
        assert(a =~= b) by {
            assert forall|k: int| 0 <= k < a.len() implies a[k] == b[k] by {
                if k > 0 {
                    assert(a[k] == a.drop_first()[k - 1]);
                    assert(b[k] == b.drop_first()[k - 1]);
                }
            }
        }
    }
}

/// The non-empty values among the first `n` given are, counted with
/// multiplicity, the first `n` given less the empty ones.
proof fn lemma_nonempty_prefix_count(g: Seq<Seq<char>>, n: int, x: Seq<char>)
    requires
        0 <= n <= g.len(),
    ensures
        nonempty_prefix(g, n).to_multiset().count(x) == if x.len() > 0 {
            g.take(n).to_multiset().count(x)
        } else {
            0
        },
    decreases n,
{
    broadcast use vstd::seq_lib::to_multiset_build, vstd::seq_lib::to_multiset_contains;

    if n == 0 {
        assert(g.take(0) =~= Seq::<Seq<char>>::empty());
        assert(nonempty_prefix(g, 0) =~= Seq::<Seq<char>>::empty());
        if x.len() == 0 {
            assert(!nonempty_prefix(g, 0).contains(x));
        }
    } else {
        lemma_nonempty_prefix_count(g, n - 1, x);
        assert(g.take(n) =~= g.take(n - 1).push(g[n - 1]));
        if x.len() == 0 {
            lemma_nonempty_prefix_nonempty(g, n);
            assert(!nonempty_prefix(g, n).contains(x));
        }
    }
}

proof fn lemma_nonempty_prefix_nonempty(g: Seq<Seq<char>>, n: int)
    requires
        0 <= n <= g.len(),
    ensures
        forall|k: int|
            0 <= k < nonempty_prefix(g, n).len() ==> (#[trigger] nonempty_prefix(g, n)[k]).len() > 0,
    decreases n,
{
    if n > 0 {
        lemma_nonempty_prefix_nonempty(g, n - 1);
        let prev = nonempty_prefix(g, n - 1);
        let cur = nonempty_prefix(g, n);
        assert forall|k: int| 0 <= k < cur.len() implies (#[trigger] cur[k]).len() > 0 by {
            if k < prev.len() {
                if g[n - 1].len() > 0 {
                    assert(cur[k] == prev.push(g[n - 1])[k]);
                }
            }
        }
    }
}

/// Registration order does not matter: two scrubbers registered with the
/// same secret values, given in any order, hold the same secrets in the
/// same order, so they scrub every text alike.
pub proof fn lemma_registration_order_irrelevant(
    a: Scrubber,
    b: Scrubber,
    given_a: Seq<Seq<char>>,
    given_b: Seq<Seq<char>>,
)
    requires
        registered_form(a@, given_a),
        registered_form(b@, given_b),
        given_a.to_multiset() == given_b.to_multiset(),
    ensures
        a@ == b@,
        forall|t: Seq<char>| a.scrubbed(t) == b.scrubbed(t) && a.can_scrub(t) == b.can_scrub(t),
{
    broadcast use vstd::seq_lib::to_multiset_len;

    assert(given_a.len() == given_a.to_multiset().len());
    assert(given_b.len() == given_b.to_multiset().len());
    assert(given_a.take(given_a.len() as int) =~= given_a);
    assert(given_b.take(given_b.len() as int) =~= given_b);
    let na = nonempty_prefix(given_a, given_a.len() as int);
    let nb = nonempty_prefix(given_b, given_b.len() as int);
    assert(na.to_multiset() =~= nb.to_multiset()) by {
        assert forall|x: Seq<char>| na.to_multiset().count(x) == nb.to_multiset().count(x) by {
            lemma_nonempty_prefix_count(given_a, given_a.len() as int, x);
            lemma_nonempty_prefix_count(given_b, given_b.len() as int, x);
        }
    }
    lemma_sorted_same_values(a@, b@);
}

/// Register value-substring secrets. Empty strings are dropped (an empty
/// needle would explode the output); the rest are kept, each as often as
/// given, longest first and then in lexicographic order.
pub fn order_secrets(secrets: &Vec<String>) -> (sorted: Vec<String>)
    ensures
        registered_form(string_views(sorted@), string_views(secrets@)),
{
    let ghost input = string_views(secrets@);
    let mut sorted: Vec<String> = Vec::new();
    let mut i: usize = 0;
    assert(string_views(sorted@) =~= nonempty_prefix(input, 0));
    while i < secrets.len()
        invariant
            i <= secrets@.len(),
            input == string_views(secrets@),
            secrets_sorted(string_views(sorted@)),
            forall|k: int|
                0 <= k < sorted@.len() ==> (#[trigger] string_views(sorted@)[k]).len() > 0,
            string_views(sorted@).to_multiset() == nonempty_prefix(input, i as int).to_multiset(),
        decreases secrets.len() - i,
    {
        let x = &secrets[i];
        let ghost xv = x@;
        assert(input[i as int] == xv);
        if !x.as_str().is_empty() {
            let xc = chars_of(x.as_str());
            let xlen = utf8_len_exec(xc.as_slice());
            let ghost s0 = string_views(sorted@);
            let mut p: usize = 0;
            while p < sorted.len() && !secret_before_exec(xlen, x.as_str(), &sorted[p])
                invariant
                    p <= sorted@.len(),
                    s0 == string_views(sorted@),
                    xlen == utf8_len(xv),
                    xv == x@,
                    forall|k: int| 0 <= k < p ==> secret_order(xv, #[trigger] s0[k]) >= 0,
                decreases sorted.len() - p,
            {
                p = p + 1;
            }
            sorted.insert(p, x.clone());
            proof {
                let t = s0.insert(p as int, xv);
                assert(string_views(sorted@) =~= t);
                assert forall|a: int, b: int| 0 <= a < b < t.len() implies secret_order(
                    #[trigger] t[a],
                    #[trigger] t[b],
                ) <= 0 by {
                    if b < p {
                        assert(t[a] == s0[a] && t[b] == s0[b]);
                    } else if b == p {
                        assert(t[a] == s0[a] && t[b] == xv);
                        lemma_secret_order_antisym(xv, s0[a]);
                    } else if a < p {
                        assert(t[a] == s0[a] && t[b] == s0[b - 1]);
                    } else if a == p {
                        assert(t[a] == xv && t[b] == s0[b - 1]);
                        lemma_secret_order_antisym(xv, s0[p as int]);
                        if b - 1 > p {
                            assert(secret_order(s0[p as int], s0[b - 1]) <= 0);
                            lemma_secret_order_trans(xv, s0[p as int], s0[b - 1]);
                        }
                    } else {
                        assert(t[a] == s0[a - 1] && t[b] == s0[b - 1]);
                    }
                }
                assert forall|k: int| 0 <= k < t.len() implies (#[trigger] t[k]).len() > 0 by {
                    if k < p {
                        assert(t[k] == s0[k]);
                    } else if k > p {
                        assert(t[k] == s0[k - 1]);
                    }
                }
                vstd::seq_lib::to_multiset_insert(s0, p as int, xv);
                vstd::seq_lib::to_multiset_build(nonempty_prefix(input, i as int), xv);
            }
        }
        i = i + 1;
    }
    sorted
}

/// Reusable scrubber.
#[derive(Debug)]
pub struct Scrubber {
    secrets: Vec<String>,
}

impl View for Scrubber {
    type V = Seq<Seq<char>>;

    /// The registered secret values, in the order they are applied.
    closed spec fn view(&self) -> Seq<Seq<char>> {
        string_views(self.secrets@)
    }
}

impl Scrubber {
    #[verifier::type_invariant]
    closed spec fn wf(&self) -> bool {
        &&& secrets_sorted(self@)
        &&& forall|i: int| 0 <= i < self@.len() ==> (#[trigger] self@[i]).len() > 0
    }

    /// A scrubber with no registered value secrets: only the key-shape
    /// detector fires.
    pub fn empty() -> (s: Scrubber)
        ensures
            s@ == Seq::<Seq<char>>::empty(),
    {
        let s = Scrubber { secrets: Vec::new() };
        assert(s@ =~= Seq::<Seq<char>>::empty());
        s
    }

    /// Register value-substring secrets. Empty strings are dropped (an empty
    /// needle would explode the output); the rest are kept, each as often as
    /// given, longest first and then in lexicographic order.
    pub fn with_secrets(secrets: Vec<String>) -> (s: Scrubber)
        ensures
            registered_form(s@, string_views(secrets@)),
    {
        let sorted = order_secrets(&secrets);
        let s = Scrubber { secrets: sorted };
        assert(s@ == string_views(sorted@));
        s
    }

    /// Number of registered value secrets.
    pub fn registered_secret_count(&self) -> (n: usize)
        ensures
            n == self@.len(),
    {
        self.secrets.len()
    }

    /// The free-text scrub of `text`: registered values replaced by
    /// `***REDACTED***` (longest first), then the `KEY=value` scrub.
    pub open spec fn scrubbed(&self, text: Seq<char>) -> Seq<char> {
        scrub(apply_secrets(text, self@, self@.len() as int))
    }

    pub open spec fn can_scrub(&self, text: Seq<char>) -> bool {
        scrub_ok(apply_secrets(text, self@, self@.len() as int))
    }

    fn apply_all(&self, text: &str) -> (out: String)
        ensures
            out@ == apply_secrets(text@, self@, self@.len() as int),
    {
        let mut out: String = text.to_owned();
        let mut i: usize = 0;
        while i < self.secrets.len()
            invariant
                i <= self.secrets@.len(),
                out@ == apply_secrets(text@, self@, i as int),
            decreases self.secrets.len() - i,
        {
            let secret = &self.secrets[i];
            assert(self@[i as int] == secret@);
            if !secret.as_str().is_empty() {
                out = replace_str(out.as_str(), secret.as_str(), "***REDACTED***");
            } else {
                proof {
                    lemma_replace_all_empty(out@, secret@, "***REDACTED***"@);
                }
            }
            i = i + 1;
        }
        out
    }

    /// Free-form text scrub: every registered value is replaced by
    /// `***REDACTED***`, then `KEY=value` pairs with a secret-shaped key are
    /// redacted. Values go first, so the pattern pass never sees them.
    pub fn scrub_text(&self, text: &str) -> (r: String)
        requires
            self.can_scrub(text@),
        ensures
            r@ == self.scrubbed(text@),
    {
        let out = self.apply_all(text);
        scrub_text(out.as_str())
    }

    /// Whether `scrub_text` may be called on `text`.
    pub fn scrub_is_safe(&self, text: &str) -> (b: bool)
        ensures
            b == self.can_scrub(text@),
    {
        let out = self.apply_all(text);
        scrub_is_safe(out.as_str())
    }

    /// Structured-field redaction: `[REDACTED]` for a secret-shaped key,
    /// otherwise the value through the free-text scrub.
    pub fn redact_key_value(&self, key: &str, value: &str) -> (r: String)
        requires
            secret_shaped(key@) || self.can_scrub(value@),
        ensures
            r@ == if secret_shaped(key@) {
                "[REDACTED]"@
            } else {
                self.scrubbed(value@)
            },
    {
        if looks_secret(key) {
            return "[REDACTED]".to_owned();
        }
        self.scrub_text(value)
    }
}

impl Clone for Scrubber {
    fn clone(&self) -> (s: Scrubber)
        ensures
            s@ == self@,
    {
        proof {
            use_type_invariant(self);
        }
        let s = Scrubber { secrets: crate::domain::dup_strings(&self.secrets) };
        assert(s@ =~= self@);
        s
    }
}

impl Default for Scrubber {
    fn default() -> (s: Scrubber)
        ensures
            s@ == Seq::<Seq<char>>::empty(),
    {
        Scrubber::empty()
    }
}

/// Whether `x` (of UTF-8 length `xlen`) sorts strictly before `y`.
fn secret_before_exec(xlen: u128, x: &str, y: &String) -> (b: bool)
    requires
        xlen == utf8_len(x@),
    ensures
        b == (secret_order(x@, y@) < 0),
{
    let yc = chars_of(y.as_str());
    let ylen = utf8_len_exec(yc.as_slice());
    if xlen > ylen {
        return true;
    }
    if xlen < ylen {
        return false;
    }
    order_str(x, y.as_str()) < 0
}

proof fn lemma_replace_all_empty(s: Seq<char>, pat: Seq<char>, rep: Seq<char>)
    requires
        pat.len() == 0,
    ensures
        replace_all(s, pat, rep) == s,
{
}

/// `s.replace(pat, rep)` for a non-empty `pat`.
pub(crate) fn replace_str(s: &str, pat: &str, rep: &str) -> (r: String)
    requires
        pat@.len() > 0,
    ensures
        r@ == replace_all(s@, pat@, rep@),
{
    let sc = chars_of(s);
    let pc = chars_of(pat);
    let mut out: Vec<char> = Vec::new();
    let mut i: usize = 0;
    assert(sc@.skip(0) =~= sc@);
    assert(out@ + replace_all(sc@, pat@, rep@) =~= replace_all(sc@, pat@, rep@));
    while i < sc.len()
        invariant
            i <= sc@.len(),
            sc@ == s@,
            pc@ == pat@,
            pat@.len() > 0,
            out@ + replace_all(sc@.skip(i as int), pat@, rep@) == replace_all(s@, pat@, rep@),
        decreases sc.len() - i,
    {
        let ghost rest = sc@.skip(i as int);
        if occurs_at_exec(sc.as_slice(), pc.as_slice(), i) {
            proof {
                assert(rest.subrange(0, pat@.len() as int) =~= sc@.subrange(
                    i as int,
                    i + pat@.len(),
                ));
                assert(rest.skip(pat@.len() as int) =~= sc@.skip(i + pat@.len()));
            }
            extend_str(&mut out, rep);
            i = i + pc.len();
        } else {
            proof {
                if rest.len() >= pat@.len() {
                    assert(rest.subrange(0, pat@.len() as int) =~= sc@.subrange(
                        i as int,
                        i + pat@.len(),
                    ));
                }
                assert(rest.skip(1) =~= sc@.skip(i + 1));
                assert(rest[0] == sc@[i as int]);
            }
            out.push(sc[i]);
            proof {
                assert(out@ + replace_all(sc@.skip(i + 1), pat@, rep@) =~= (out@.drop_last() + (
                seq![sc@[i as int]] + replace_all(rest.skip(1), pat@, rep@))));
            }
            i = i + 1;
        }
    }
    proof {
        assert(sc@.skip(i as int) =~= Seq::<char>::empty());
        assert(out@ + Seq::<char>::empty() =~= out@);
    }
    string_from(out.as_slice())
}

/// Replacing a pattern that does not occur leaves the text unchanged.
pub proof fn lemma_replace_absent_is_identity(s: Seq<char>, pat: Seq<char>, rep: Seq<char>)
    requires
        forall|i: int| !occurs_at(s, pat, i),
    ensures
        replace_all(s, pat, rep) == s,
    decreases s.len(),
{
    if pat.len() > 0 && s.len() > 0 {
        assert(!occurs_at(s, pat, 0));
        assert forall|i: int| !occurs_at(s.skip(1), pat, i) by {
            if occurs_at(s.skip(1), pat, i) {
                assert(s.skip(1).subrange(i, i + pat.len()) =~= s.subrange(i + 1, i + 1 + pat.len()));
                assert(occurs_at(s, pat, i + 1));
            }
        }
        lemma_replace_absent_is_identity(s.skip(1), pat, rep);
        assert(seq![s[0]] + s.skip(1) =~= s);
    }
}

/// No character of `p` occurs in `m`.
pub open spec fn char_free(p: Seq<char>, m: Seq<char>) -> bool {
    forall|i: int| 0 <= i < p.len() ==> !m.contains(#[trigger] p[i])
}

/// A prefix of a replacement's output that holds no character of the
/// replacement text is a prefix of the input.
proof fn lemma_replace_prefix(t: Seq<char>, pat: Seq<char>, rep: Seq<char>, k: int)
    requires
        pat.len() > 0,
        rep.len() > 0,
        0 <= k <= replace_all(t, pat, rep).len(),
        forall|j: int| 0 <= j < k ==> !rep.contains(#[trigger] replace_all(t, pat, rep)[j]),
    ensures
        k <= t.len(),
        replace_all(t, pat, rep).take(k) == t.take(k),
    decreases t.len(),
{
    let out = replace_all(t, pat, rep);
    if k > 0 && t.len() > 0 {
        if occurs_at(t, pat, 0) {
            assert(out[0] == rep[0]);
            assert(rep.contains(rep[0]));
        } else {
            let r = replace_all(t.skip(1), pat, rep);
            assert(out == seq![t[0]] + r);
            assert forall|j: int| 0 <= j < k - 1 implies !rep.contains(#[trigger] r[j]) by {
                assert(r[j] == out[j + 1]);
            }
            lemma_replace_prefix(t.skip(1), pat, rep, k - 1);
            assert(out.take(k) =~= seq![t[0]] + r.take(k - 1));
            assert(t.take(k) =~= seq![t[0]] + t.skip(1).take(k - 1));
        }
    } else if k > 0 {
        assert(out.len() == 0);
    } else {
        assert(out.take(0) =~= t.take(0));
    }
}

/// Replacing `pat` cannot create an occurrence of a text `q` that shares no
/// character with the replacement.
proof fn lemma_replace_creates_no_occurrence(t: Seq<char>, pat: Seq<char>, rep: Seq<char>, q: Seq<char>)
    requires
        pat.len() > 0,
        rep.len() > 0,
        q.len() > 0,
        char_free(q, rep),
        forall|i: int| !occurs_at(t, q, i),
    ensures
        forall|i: int| !occurs_at(replace_all(t, pat, rep), q, i),
    decreases t.len(),
{
    let out = replace_all(t, pat, rep);
    if t.len() > 0 {
        if occurs_at(t, pat, 0) {
            let rest = t.skip(pat.len() as int);
            assert forall|i: int| !occurs_at(rest, q, i) by {
                if occurs_at(rest, q, i) {
                    assert(rest.subrange(i, i + q.len()) =~= t.subrange(
                        i + pat.len(),
                        i + pat.len() + q.len(),
                    ));
                    assert(occurs_at(t, q, i + pat.len()));
                }
            }
            lemma_replace_creates_no_occurrence(rest, pat, rep, q);
            let r = replace_all(rest, pat, rep);
            assert(out == rep + r);
            assert forall|i: int| !occurs_at(out, q, i) by {
                if occurs_at(out, q, i) {
                    if i < rep.len() {
                        assert(out.subrange(i, i + q.len())[0] == q[0]);
                        assert(out[i] == rep[i]);
                        assert(rep.contains(q[0]));
                    } else {
                        assert(out.subrange(i, i + q.len()) =~= r.subrange(
                            i - rep.len(),
                            i - rep.len() + q.len(),
                        ));
                        assert(occurs_at(r, q, i - rep.len()));
                    }
                }
            }
        } else {
            let rest = t.skip(1);
            assert forall|i: int| !occurs_at(rest, q, i) by {
                if occurs_at(rest, q, i) {
                    assert(rest.subrange(i, i + q.len()) =~= t.subrange(i + 1, i + 1 + q.len()));
                    assert(occurs_at(t, q, i + 1));
                }
            }
            lemma_replace_creates_no_occurrence(rest, pat, rep, q);
            let r = replace_all(rest, pat, rep);
            assert(out == seq![t[0]] + r);
            assert forall|i: int| !occurs_at(out, q, i) by {
                if occurs_at(out, q, i) {
                    if i >= 1 {
                        assert(out.subrange(i, i + q.len()) =~= r.subrange(i - 1, i - 1 + q.len()));
                        assert(occurs_at(r, q, i - 1));
                    } else {
                        assert forall|j: int| 0 <= j < q.len() implies !rep.contains(
                            #[trigger] out[j],
                        ) by {
                            assert(out[j] == out.subrange(0, q.len() as int)[j]);
                        }
                        lemma_replace_prefix(t, pat, rep, q.len() as int);
                        assert(t.subrange(0, q.len() as int) =~= t.take(q.len() as int));
                        assert(out.subrange(0, q.len() as int) =~= out.take(q.len() as int));
                        assert(occurs_at(t, q, 0));
                    }
                }
            }
        }
    }
}

/// After replacing `pat` by a text sharing no character with it, `pat`
/// no longer occurs.
proof fn lemma_replace_removes_pattern(t: Seq<char>, pat: Seq<char>, rep: Seq<char>)
    requires
        pat.len() > 0,
        rep.len() > 0,
        char_free(pat, rep),
    ensures
        forall|i: int| !occurs_at(replace_all(t, pat, rep), pat, i),
    decreases t.len(),
{
    let out = replace_all(t, pat, rep);
    if t.len() > 0 {
        if occurs_at(t, pat, 0) {
            let rest = t.skip(pat.len() as int);
            lemma_replace_removes_pattern(rest, pat, rep);
            let r = replace_all(rest, pat, rep);
            assert(out == rep + r);
            assert forall|i: int| !occurs_at(out, pat, i) by {
                if occurs_at(out, pat, i) {
                    if i < rep.len() {
                        assert(out.subrange(i, i + pat.len())[0] == pat[0]);
                        assert(out[i] == rep[i]);
                        assert(rep.contains(pat[0]));
                    } else {
                        assert(out.subrange(i, i + pat.len()) =~= r.subrange(
                            i - rep.len(),
                            i - rep.len() + pat.len(),
                        ));
                        assert(occurs_at(r, pat, i - rep.len()));
                    }
                }
            }
        } else {
            let rest = t.skip(1);
            lemma_replace_removes_pattern(rest, pat, rep);
            let r = replace_all(rest, pat, rep);
            assert(out == seq![t[0]] + r);
            assert forall|i: int| !occurs_at(out, pat, i) by {
                if occurs_at(out, pat, i) {
                    if i >= 1 {
                        assert(out.subrange(i, i + pat.len()) =~= r.subrange(
                            i - 1,
                            i - 1 + pat.len(),
                        ));
                        assert(occurs_at(r, pat, i - 1));
                    } else {
                        assert forall|j: int| 0 <= j < pat.len() implies !rep.contains(
                            #[trigger] out[j],
                        ) by {
                            assert(out[j] == out.subrange(0, pat.len() as int)[j]);
                        }
                        lemma_replace_prefix(t, pat, rep, pat.len() as int);
                        assert(t.subrange(0, pat.len() as int) =~= t.take(pat.len() as int));
                        assert(out.subrange(0, pat.len() as int) =~= out.take(pat.len() as int));
                    }
                }
            }
        }
    }
}

/// After the first `n` registered values are replaced by the free-text
/// marker, none of them occurs in the text, provided none shares a
/// character with the marker.
pub proof fn lemma_applied_secrets_do_not_occur(text: Seq<char>, secrets: Seq<Seq<char>>, n: int)
    requires
        0 <= n <= secrets.len(),
        forall|k: int| 0 <= k < n ==> (#[trigger] secrets[k]).len() > 0,
        forall|k: int| 0 <= k < n ==> char_free(#[trigger] secrets[k], "***REDACTED***"@),
    ensures
        forall|k: int, i: int|
            0 <= k < n ==> !(#[trigger] occurs_at(apply_secrets(text, secrets, n), secrets[k], i)),
    decreases n,
{
    if n > 0 {
        lemma_applied_secrets_do_not_occur(text, secrets, n - 1);
        let before = apply_secrets(text, secrets, n - 1);
        let marker = "***REDACTED***"@;
        assert(marker.len() > 0) by {
            reveal_strlit("***REDACTED***");
        }
        lemma_replace_removes_pattern(before, secrets[n - 1], marker);
        assert forall|k: int, i: int| 0 <= k < n implies !(#[trigger] occurs_at(
            apply_secrets(text, secrets, n),
            secrets[k],
            i,
        )) by {
            if k < n - 1 {
                lemma_replace_creates_no_occurrence(before, secrets[n - 1], marker, secrets[k]);
            }
        }
    }
}

/// A registered secret value never survives `scrub_text`: after the value
/// pass and the `KEY=value` pass, none of the registered values occurs in
/// the output, for any input text, provided no registered value shares a
/// character with the markers `***REDACTED***` and `[REDACTED]`.
pub proof fn lemma_scrubbed_text_holds_no_registered_secret(scrubber: Scrubber, text: Seq<char>)
    requires
        forall|k: int| 0 <= k < scrubber@.len() ==> (#[trigger] scrubber@[k]).len() > 0,
        forall|k: int|
            0 <= k < scrubber@.len() ==> char_free(#[trigger] scrubber@[k], "***REDACTED***"@)
                && char_free(scrubber@[k], "[REDACTED]"@),
    ensures
        forall|k: int, i: int|
            0 <= k < scrubber@.len() ==> !(#[trigger] occurs_at(
                scrubber.scrubbed(text),
                scrubber@[k],
                i,
            )),
{
    let secrets = scrubber@;
    let n = secrets.len() as int;
    lemma_applied_secrets_do_not_occur(text, secrets, n);
    let applied = apply_secrets(text, secrets, n);
    assert forall|k: int, i: int| 0 <= k < n implies !(#[trigger] occurs_at(
        scrubber.scrubbed(text),
        secrets[k],
        i,
    )) by {
        assert forall|j: int| !occurs_at(applied, secrets[k], j) by {
            assert(!occurs_at(applied, secrets[k], j));
        }
        crate::snapshot::lemma_scrub_creates_no_occurrence(applied, secrets[k]);
    }
}

} // verus!

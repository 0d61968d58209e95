//! Lexicographic order on character sequences, with its laws.
//!
//! `String`'s ordering compares UTF-8 bytes lexicographically, which for
//! valid UTF-8 coincides with comparing the characters' code points
//! lexicographically; `lex_order` states the latter.
use vstd::prelude::*;

use crate::strmap::string_views;

verus! {

/// Three-way lexicographic comparison: `-1`, `0` or `1`.
pub open spec fn lex_order(a: Seq<char>, b: Seq<char>) -> int
    decreases a.len(),
{
    if a.len() == 0 && b.len() == 0 {
        0
    } else if a.len() == 0 {
        -1
    } else if b.len() == 0 {
        1
    } else if a[0] < b[0] {
        -1
    } else if a[0] > b[0] {
        1
    } else {
        lex_order(a.drop_first(), b.drop_first())
    }
}

/// Three-way comparison of optional sequences; `None` sorts first.
pub open spec fn opt_lex_order(a: Option<Seq<char>>, b: Option<Seq<char>>) -> int {
    match (a, b) {
        (None, None) => 0,
        (None, Some(_)) => -1,
        (Some(_), None) => 1,
        (Some(x), Some(y)) => lex_order(x, y),
    }
}

/// Three-way comparison of integers.
pub open spec fn int_order(a: int, b: int) -> int {
    if a < b {
        -1
    } else if a > b {
        1
    } else {
        0
    }
}

pub proof fn lemma_lex_order_range(a: Seq<char>, b: Seq<char>)
    ensures
        -1 <= lex_order(a, b) <= 1,
    decreases a.len(),
{
    if a.len() > 0 && b.len() > 0 && a[0] == b[0] {
        lemma_lex_order_range(a.drop_first(), b.drop_first());
    }
}

pub proof fn lemma_lex_order_antisym(a: Seq<char>, b: Seq<char>)
    ensures
        lex_order(a, b) == -lex_order(b, a),
    decreases a.len(),
{
    if a.len() > 0 && b.len() > 0 && a[0] == b[0] {
        lemma_lex_order_antisym(a.drop_first(), b.drop_first());
    }
}

pub proof fn lemma_lex_order_eq(a: Seq<char>, b: Seq<char>)
    ensures
        lex_order(a, b) == 0 <==> a == b,
    decreases a.len(),
{
    if a.len() == 0 && b.len() == 0 {
        assert(a =~= b);
    }
    if a.len() > 0 && b.len() > 0 {
        if a[0] == b[0] {
            lemma_lex_order_eq(a.drop_first(), b.drop_first());
            assert(a[0] == b[0]);
            if a.drop_first() == b.drop_first() {
                assert(a =~= seq![a[0]] + a.drop_first());
                assert(b =~= seq![b[0]] + b.drop_first());
            }
            if a == b {
                assert(a.drop_first() =~= b.drop_first());
            }
        } else {
            if a == b {
                assert(a[0] == b[0]);
            }
        }
    }
}

pub proof fn lemma_lex_order_trans(a: Seq<char>, b: Seq<char>, c: Seq<char>)
    requires
        lex_order(a, b) <= 0,
        lex_order(b, c) <= 0,
    ensures
        lex_order(a, c) <= 0,
    decreases a.len(),
{
    if a.len() > 0 && b.len() > 0 && c.len() > 0 {
        if a[0] == b[0] && b[0] == c[0] {
            lemma_lex_order_trans(a.drop_first(), b.drop_first(), c.drop_first());
        }
    }
}

pub proof fn lemma_lex_order_strict_trans(a: Seq<char>, b: Seq<char>, c: Seq<char>)
    requires
        lex_order(a, b) < 0,
        lex_order(b, c) <= 0,
    ensures
        lex_order(a, c) < 0,
{
    lemma_lex_order_trans(a, b, c);
    lemma_lex_order_eq(a, c);
    lemma_lex_order_eq(a, b);
    lemma_lex_order_antisym(b, c);
    if a == c {
        lemma_lex_order_eq(b, c);
        lemma_lex_order_range(b, c);
        lemma_lex_order_range(a, b);
        lemma_lex_order_antisym(a, b);
        lemma_lex_order_trans(b, c, a);
    }
}

/// Compare two character slices lexicographically.
pub fn order_chars(a: &[char], b: &[char]) -> (r: i8)
    ensures
        r as int == lex_order(a@, b@),
{
    let mut i: usize = 0;
    assert(a@.skip(0) =~= a@);
    assert(b@.skip(0) =~= b@);
    while i < a.len() && i < b.len() && a[i] == b[i]
        invariant
            i <= a.len(),
            i <= b.len(),
            lex_order(a@, b@) == lex_order(a@.skip(i as int), b@.skip(i as int)),
        decreases a.len() - i,
    {
        assert(a@.skip(i as int).drop_first() =~= a@.skip(i + 1));
        assert(b@.skip(i as int).drop_first() =~= b@.skip(i + 1));
        i = i + 1;
    }
    if i == a.len() && i == b.len() {
        0
    } else if i == a.len() {
        -1
    } else if i == b.len() {
        1
    } else if a[i] < b[i] {
        -1
    } else {
        1
    }
}

/// Compare two strings lexicographically by characters.
pub fn order_str(a: &str, b: &str) -> (r: i8)
    ensures
        r as int == lex_order(a@, b@),
{
    let x = crate::text::chars_of(a);
    let y = crate::text::chars_of(b);
    order_chars(x.as_slice(), y.as_slice())
}

/// Compare two optional strings; `None` sorts first.
pub fn order_opt_str(a: &Option<String>, b: &Option<String>) -> (r: i8)
    ensures
        r as int == opt_lex_order(
            match a {
                Some(s) => Some(s@),
                None => None,
            },
            match b {
                Some(s) => Some(s@),
                None => None,
            },
        ),
{
    match (a, b) {
        (None, None) => 0,
        (None, Some(_)) => -1,
        (Some(_), None) => 1,
        (Some(x), Some(y)) => order_str(x.as_str(), y.as_str()),
    }
}

/// Each element sorts strictly before every later one (so none repeats).
pub open spec fn strictly_sorted(s: Seq<Seq<char>>) -> bool {
    forall|i: int, j: int| 0 <= i < j < s.len() ==> lex_order(#[trigger] s[i], #[trigger] s[j]) < 0
}

pub proof fn lemma_insert_to_set<A>(s: Seq<A>, p: int, x: A)
    requires
        0 <= p <= s.len(),
    ensures
        s.insert(p, x).to_set() == s.to_set().insert(x),
{
    let t = s.insert(p, x);
    assert forall|y: A| #[trigger] t.to_set().contains(y) == s.to_set().insert(x).contains(y) by {
        if t.contains(y) && y != x {
            let j = choose|j: int| 0 <= j < t.len() && t[j] == y;
            if j < p {
                assert(s[j] == y);
            } else {
                assert(s[j - 1] == y);
            }
        }
        if s.contains(y) {
            let j = choose|j: int| 0 <= j < s.len() && s[j] == y;
            if j < p {
                assert(t[j] == y);
            } else {
                assert(t[j + 1] == y);
            }
        }
        if y == x {
            assert(t[p] == x);
        }
    }
    assert(t.to_set() =~= s.to_set().insert(x));
}

/// The distinct strings of `v`, in ascending lexicographic order (what a
/// sort followed by a dedup leaves).
pub fn sorted_unique(v: &Vec<String>) -> (r: Vec<String>)
    ensures
        strictly_sorted(string_views(r@)),
        string_views(r@).to_set() == string_views(v@).to_set(),
{
    let ghost vs = string_views(v@);
    let mut r: Vec<String> = Vec::new();
    let mut i: usize = 0;
    assert(string_views(r@).to_set() =~= vs.take(0).to_set());
    while i < v.len()
        invariant
            i <= v@.len(),
            vs == string_views(v@),
            strictly_sorted(string_views(r@)),
            string_views(r@).to_set() == vs.take(i as int).to_set(),
        decreases v.len() - i,
    {
        let ghost rs = string_views(r@);
        let ghost x = v@[i as int]@;
        let mut p: usize = 0;
        while p < r.len() && order_str(r[p].as_str(), v[i].as_str()) < 0
            invariant
                p <= r@.len(),
                i < v@.len(),
                rs == string_views(r@),
                x == v@[i as int]@,
                forall|k: int| 0 <= k < p ==> lex_order(#[trigger] rs[k], x) < 0,
            decreases r.len() - p,
        {
            p = p + 1;
        }
        proof {
            assert(vs.take(i + 1) =~= vs.take(i as int).push(x));
            crate::strmap::lemma_push_to_set(vs.take(i as int), x);
        }
        if p < r.len() && order_str(r[p].as_str(), v[i].as_str()) == 0 {
            proof {
                lemma_lex_order_eq(rs[p as int], x);
                assert(rs.contains(x)) by {
                    assert(rs[p as int] == x);
                }
                assert(rs.to_set().insert(x) =~= rs.to_set());
            }
        } else {
            proof {
                if p < r.len() {
                    lemma_lex_order_range(rs[p as int], x);
                    lemma_lex_order_antisym(rs[p as int], x);
                }
            }
            r.insert(p, v[i].clone());
            proof {
                let t = rs.insert(p as int, x);
                assert(string_views(r@) =~= t);
                lemma_insert_to_set(rs, p as int, x);
                assert forall|a: int, b: int| 0 <= a < b < t.len() implies lex_order(
                    #[trigger] t[a],
                    #[trigger] t[b],
                ) < 0 by {
                    if b < p {
                        assert(t[a] == rs[a] && t[b] == rs[b]);
                    } else if b == p {
                        assert(t[a] == rs[a] && t[b] == x);
                    } else if a < p {
                        assert(t[a] == rs[a] && t[b] == rs[b - 1]);
                    } else if a == p {
                        assert(t[a] == x && t[b] == rs[b - 1]);
                        if b - 1 > p {
                            assert(lex_order(rs[p as int], rs[b - 1]) < 0);
                        } else {
                            lemma_lex_order_eq(rs[p as int], rs[b - 1]);
                        }
                        lemma_lex_order_strict_trans(x, rs[p as int], rs[b - 1]);
                    } else {
                        assert(t[a] == rs[a - 1] && t[b] == rs[b - 1]);
                    }
                }
            }
        }
        i = i + 1;
    }
    assert(vs.take(v@.len() as int) =~= vs);
    r
}

} // verus!

//! String-keyed set and map with mathematical views.
//!
//! `StringSet` and `StringMap<V>` hold their entries in a vector whose keys
//! never repeat. Their views are a `Set<Seq<char>>` and a
//! `Map<Seq<char>, V>`, and every operation is specified over those views.
use vstd::prelude::*;

verus! {

/// `a` and `b` hold the same characters.
pub fn str_eq(a: &str, b: &str) -> (r: bool)
    ensures
        r == (a@ == b@),
{
    let x: String = a.to_owned();
    let y: String = b.to_owned();
    x == y
}

/// The character views of a vector of strings.
pub open spec fn string_views(v: Seq<String>) -> Seq<Seq<char>> {
    v.map_values(|s: String| s@)
}

pub proof fn lemma_push_to_set(s: Seq<Seq<char>>, x: Seq<char>)
    ensures
        s.push(x).to_set() == s.to_set().insert(x),
{
    assert forall|y: Seq<char>| #[trigger] s.push(x).to_set().contains(y) == s.to_set().insert(
        x,
    ).contains(y) by {
        if s.push(x).contains(y) && y != x {
            let j = choose|j: int| 0 <= j < s.push(x).len() && s.push(x)[j] == y;
            assert(s[j] == y);
        }
        if s.contains(y) {
            let j = choose|j: int| 0 <= j < s.len() && s[j] == y;
            assert(s.push(x)[j] == y);
        }
        if y == x {
            assert(s.push(x)[s.len() as int] == x);
        }
    }
    assert(s.push(x).to_set() =~= s.to_set().insert(x));
}

/// A set of strings (no key is stored twice).
#[derive(Debug)]
pub struct StringSet {
    items: Vec<String>,
}

impl StringSet {
    /// The stored keys, in storage order.
    pub closed spec fn keys(&self) -> Seq<Seq<char>> {
        string_views(self.items@)
    }

    #[verifier::type_invariant]
    closed spec fn inv(&self) -> bool {
        self.keys().no_duplicates()
    }

    /// Index of `k` among the stored keys, if present.
    fn position(&self, k: &str) -> (r: Option<usize>)
        ensures
            r is Some ==> r->0 < self.keys().len() && self.keys()[r->0 as int] == k@,
            r is None ==> !self.keys().contains(k@),
    {
        let mut i: usize = 0;
        while i < self.items.len()
            invariant
                i <= self.items@.len(),
                self.keys().len() == self.items@.len(),
                forall|j: int| 0 <= j < i ==> self.keys()[j] != k@,
            decreases self.items.len() - i,
        {
            if str_eq(self.items[i].as_str(), k) {
                return Some(i);
            }
            i = i + 1;
        }
        None
    }

    /// The empty set.
    pub fn new() -> (s: StringSet)
        ensures
            s@ == Set::<Seq<char>>::empty(),
    {
        let s = StringSet { items: Vec::new() };
        assert(s.keys().to_set() =~= Set::<Seq<char>>::empty());
        s
    }

    /// The set of the given strings.
    pub fn from_strings(v: &[String]) -> (s: StringSet)
        ensures
            s@ == string_views(v@).to_set(),
    {
        let mut s = StringSet::new();
        let mut i: usize = 0;
        let ghost views = string_views(v@);
        while i < v.len()
            invariant
                i <= v@.len(),
                views == string_views(v@),
                s@ == views.take(i as int).to_set(),
            decreases v.len() - i,
        {
            s.insert(v[i].clone());
            proof {
                assert(views.take(i + 1) =~= views.take(i as int).push(views[i as int]));
                lemma_push_to_set(views.take(i as int), views[i as int]);
            }
            i = i + 1;
        }
        assert(views.take(v@.len() as int) =~= views);
        s
    }

    /// Number of members.
    pub fn len(&self) -> (n: usize)
        ensures
            n == self@.len(),
    {
        proof {
            use_type_invariant(self);
            self.keys().unique_seq_to_set();
        }
        self.items.len()
    }

    /// Whether the set has no member.
    pub fn is_empty(&self) -> (b: bool)
        ensures
            b == (self@.len() == 0),
    {
        self.len() == 0
    }

    /// Membership of `k`.
    pub fn contains(&self, k: &str) -> (b: bool)
        ensures
            b == self@.contains(k@),
    {
        self.position(k).is_some()
    }

    /// Add `k`; returns whether it was absent before.
    pub fn insert(&mut self, k: String) -> (fresh: bool)
        ensures
            final(self)@ == old(self)@.insert(k@),
            fresh == !old(self)@.contains(k@),
    {
        proof {
            use_type_invariant(&*self);
        }
        match self.position(k.as_str()) {
            Some(_) => {
                assert(self@.insert(k@) =~= self@);
                false
            },
            None => {
                let ghost old_keys = self.keys();
                let mut items: Vec<String> = Vec::new();
                std::mem::swap(&mut items, &mut self.items);
                items.push(k);
                assert(string_views(items@) =~= old_keys.push(k@));
                self.items = items;
                proof {
                    use_type_invariant(&*self);
                }
                proof {
                    lemma_push_to_set(old_keys, k@);
                }
                assert(self@ =~= old(self)@.insert(k@));
                true
            },
        }
    }

    /// Remove `k`; returns whether it was present.
    pub fn remove(&mut self, k: &str) -> (was: bool)
        ensures
            final(self)@ == old(self)@.remove(k@),
            was == old(self)@.contains(k@),
    {
        proof {
            use_type_invariant(&*self);
        }
        match self.position(k) {
            Some(i) => {
                let ghost old_keys = self.keys();
                let mut items: Vec<String> = Vec::new();
                std::mem::swap(&mut items, &mut self.items);
                let _ = items.remove(i);
                assert(string_views(items@) =~= old_keys.remove(i as int));
                self.items = items;
                proof {
                    use_type_invariant(&*self);
                }
                assert forall|x: Seq<char>| #[trigger] self@.contains(x) == old(self)@.remove(
                    k@,
                ).contains(x) by {
                    if self@.contains(x) {
                        let j = choose|j: int| 0 <= j < self.keys().len() && self.keys()[j] == x;
                        if j < i {
                            assert(old_keys[j] == x);
                        } else {
                            assert(old_keys[j + 1] == x);
                        }
                    }
                    if old(self)@.remove(k@).contains(x) {
                        let j = choose|j: int| 0 <= j < old_keys.len() && old_keys[j] == x;
                        assert(j != i);
                        if j < i {
                            assert(self.keys()[j] == x);
                        } else {
                            assert(self.keys()[j - 1] == x);
                        }
                    }
                }
                assert(self@ =~= old(self)@.remove(k@));
                true
            },
            None => {
                assert(self@.remove(k@) =~= self@);
                false
            },
        }
    }

    /// The members, in storage order.
    pub fn members(&self) -> (v: Vec<String>)
        ensures
            string_views(v@).to_set() == self@,
            string_views(v@).no_duplicates(),
    {
        proof {
            use_type_invariant(self);
        }
        let mut v: Vec<String> = Vec::new();
        let mut i: usize = 0;
        while i < self.items.len()
            invariant
                i <= self.items@.len(),
                string_views(v@) == self.keys().take(i as int),
            decreases self.items.len() - i,
        {
            v.push(self.items[i].clone());
            assert(self.keys().take(i + 1) =~= self.keys().take(i as int).push(
                self.keys()[i as int],
            ));
            assert(string_views(v@) =~= self.keys().take(i + 1));
            i = i + 1;
        }
        assert(self.keys().take(self.items@.len() as int) =~= self.keys());
        v
    }
}

impl View for StringSet {
    type V = Set<Seq<char>>;

    closed spec fn view(&self) -> Set<Seq<char>> {
        self.keys().to_set()
    }
}

impl Default for StringSet {
    fn default() -> (s: StringSet)
        ensures
            s@ == Set::<Seq<char>>::empty(),
    {
        StringSet::new()
    }
}

/// A map from strings to values (no key is stored twice).
#[derive(Debug)]
pub struct StringMap<V> {
    entries: Vec<(String, V)>,
}

impl<V> StringMap<V> {
    /// The stored keys, in storage order.
    pub closed spec fn keys(&self) -> Seq<Seq<char>> {
        self.entries@.map_values(|e: (String, V)| e.0@)
    }

    #[verifier::type_invariant]
    closed spec fn inv(&self) -> bool {
        self.keys().no_duplicates()
    }

    /// Index of `k` among the stored keys, if present.
    fn position(&self, k: &str) -> (r: Option<usize>)
        ensures
            r is Some ==> r->0 < self.keys().len() && self.keys()[r->0 as int] == k@,
            r is None ==> !self.keys().contains(k@),
    {
        let mut i: usize = 0;
        while i < self.entries.len()
            invariant
                i <= self.entries@.len(),
                self.keys().len() == self.entries@.len(),
                forall|j: int| 0 <= j < i ==> self.keys()[j] != k@,
            decreases self.entries.len() - i,
        {
            if str_eq(self.entries[i].0.as_str(), k) {
                return Some(i);
            }
            i = i + 1;
        }
        None
    }

    proof fn lemma_view_at(&self, i: int)
        requires
            self.keys().no_duplicates(),
            0 <= i < self.keys().len(),
        ensures
            self@.contains_key(self.keys()[i]),
            self@[self.keys()[i]] == self.entries@[i].1,
    {
        let k = self.keys()[i];
        assert(self.keys().contains(k));
        let j = choose|j: int| 0 <= j < self.keys().len() && self.keys()[j] == k;
        assert(j == i);
    }

    /// The empty map.
    pub fn new() -> (m: StringMap<V>)
        ensures
            m@ == Map::<Seq<char>, V>::empty(),
    {
        let m = StringMap { entries: Vec::new() };
        assert(m@ =~= Map::<Seq<char>, V>::empty());
        m
    }

    /// Number of entries.
    pub fn len(&self) -> (n: usize)
        ensures
            n == self@.len(),
    {
        proof {
            use_type_invariant(self);
            self.keys().unique_seq_to_set();
            assert(self@.dom() =~= self.keys().to_set());
        }
        self.entries.len()
    }

    /// Whether the map has no entry.
    pub fn is_empty(&self) -> (b: bool)
        ensures
            b == (self@.len() == 0),
    {
        self.len() == 0
    }

    /// The keys, in storage order.
    pub fn key_list(&self) -> (v: Vec<String>)
        ensures
            string_views(v@).to_set() == self@.dom(),
            string_views(v@).no_duplicates(),
    {
        proof {
            use_type_invariant(self);
        }
        let mut v: Vec<String> = Vec::new();
        let mut i: usize = 0;
        while i < self.entries.len()
            invariant
                i <= self.entries@.len(),
                self.keys().len() == self.entries@.len(),
                string_views(v@) == self.keys().take(i as int),
            decreases self.entries.len() - i,
        {
            v.push(self.entries[i].0.clone());
            assert(self.keys().take(i + 1) =~= self.keys().take(i as int).push(
                self.keys()[i as int],
            ));
            assert(string_views(v@) =~= self.keys().take(i + 1));
            i = i + 1;
        }
        assert(self.keys().take(self.entries@.len() as int) =~= self.keys());
        assert(self.keys().to_set() =~= self@.dom());
        v
    }

    /// Whether `k` has an entry.
    pub fn contains_key(&self, k: &str) -> (b: bool)
        ensures
            b == self@.contains_key(k@),
    {
        self.position(k).is_some()
    }

    /// The value stored under `k`, if any.
    pub fn get(&self, k: &str) -> (r: Option<&V>)
        ensures
            r is Some <==> self@.contains_key(k@),
            r is Some ==> *r->0 == self@[k@],
    {
        proof {
            use_type_invariant(self);
        }
        match self.position(k) {
            Some(i) => {
                proof {
                    self.lemma_view_at(i as int);
                }
                Some(&self.entries[i].1)
            },
            None => None,
        }
    }

    /// Store `v` under `k`; returns the value previously stored there.
    pub fn insert(&mut self, k: String, v: V) -> (prev: Option<V>)
        ensures
            final(self)@ == old(self)@.insert(k@, v),
            prev is Some <==> old(self)@.contains_key(k@),
            prev is Some ==> prev->0 == old(self)@[k@],
    {
        proof {
            use_type_invariant(&*self);
        }
        let ghost kv = k@;
        let ghost old_keys = self.keys();
        let ghost old_entries = self.entries@;
        match self.position(k.as_str()) {
            Some(i) => {
                proof {
                    self.lemma_view_at(i as int);
                }
                let mut entries: Vec<(String, V)> = Vec::new();
                std::mem::swap(&mut entries, &mut self.entries);
                let old_entry = entries.remove(i);
                entries.insert(i, (k, v));
                assert(entries@.map_values(|e: (String, V)| e.0@) =~= old_keys);
                self.entries = entries;
                proof {
                    use_type_invariant(&*self);
                }
                assert forall|x: Seq<char>|
                    #![trigger self@.contains_key(x)]
                    self@.contains_key(x) == old(self)@.insert(kv, v).contains_key(x)
                        && (self@.contains_key(x) ==> self@[x] == old(self)@.insert(
                        kv,
                        v,
                    )[x]) by {
                    if self@.contains_key(x) {
                        let j = choose|j: int| 0 <= j < self.keys().len() && self.keys()[j] == x;
                        self.lemma_view_at(j);
                        if j != i {
                            old(self).lemma_view_at(j);
                        }
                    }
                }
                assert(self@ =~= old(self)@.insert(kv, v));
                Some(old_entry.1)
            },
            None => {
                let mut entries: Vec<(String, V)> = Vec::new();
                std::mem::swap(&mut entries, &mut self.entries);
                entries.push((k, v));
                assert(entries@.map_values(|e: (String, V)| e.0@) =~= old_keys.push(kv));
                self.entries = entries;
                proof {
                    use_type_invariant(&*self);
                }
                assert forall|x: Seq<char>|
                    #![trigger self@.contains_key(x)]
                    self@.contains_key(x) == old(self)@.insert(kv, v).contains_key(x)
                        && (self@.contains_key(x) ==> self@[x] == old(self)@.insert(
                        kv,
                        v,
                    )[x]) by {
                    if self@.contains_key(x) {
                        let j = choose|j: int| 0 <= j < self.keys().len() && self.keys()[j] == x;
                        self.lemma_view_at(j);
                        if j < old_keys.len() {
                            old(self).lemma_view_at(j);
                        }
                    }
                    if old_keys.contains(x) {
                        let j = choose|j: int| 0 <= j < old_keys.len() && old_keys[j] == x;
                        assert(self.keys()[j] == x);
                    }
                    if x == kv {
                        assert(self.keys()[old_keys.len() as int] == x);
                    }
                }
                assert(self@ =~= old(self)@.insert(kv, v));
                None
            },
        }
    }

    /// Remove the entry under `k`; returns its value, if there was one.
    pub fn remove(&mut self, k: &str) -> (prev: Option<V>)
        ensures
            final(self)@ == old(self)@.remove(k@),
            prev is Some <==> old(self)@.contains_key(k@),
            prev is Some ==> prev->0 == old(self)@[k@],
    {
        proof {
            use_type_invariant(&*self);
        }
        let ghost old_keys = self.keys();
        match self.position(k) {
            Some(i) => {
                proof {
                    self.lemma_view_at(i as int);
                }
                let mut entries: Vec<(String, V)> = Vec::new();
                std::mem::swap(&mut entries, &mut self.entries);
                let old_entry = entries.remove(i);
                assert(entries@.map_values(|e: (String, V)| e.0@) =~= old_keys.remove(i as int));
                self.entries = entries;
                proof {
                    use_type_invariant(&*self);
                }
                assert forall|x: Seq<char>|
                    #![trigger self@.contains_key(x)]
                    self@.contains_key(x) == old(self)@.remove(k@).contains_key(x) && (
                    self@.contains_key(x) ==> self@[x] == old(self)@.remove(k@)[x]) by {
                    if self@.contains_key(x) {
                        let j = choose|j: int| 0 <= j < self.keys().len() && self.keys()[j] == x;
                        self.lemma_view_at(j);
                        if j < i {
                            old(self).lemma_view_at(j);
                        } else {
                            old(self).lemma_view_at(j + 1);
                        }
                    }
                    if old(self)@.remove(k@).contains_key(x) {
                        let j = choose|j: int| 0 <= j < old_keys.len() && old_keys[j] == x;
                        assert(j != i);
                        if j < i {
                            assert(self.keys()[j] == x);
                        } else {
                            assert(self.keys()[j - 1] == x);
                        }
                    }
                }
                assert(self@ =~= old(self)@.remove(k@));
                Some(old_entry.1)
            },
            None => {
                assert(self@.remove(k@) =~= self@);
                None
            },
        }
    }
}

impl<V> View for StringMap<V> {
    type V = Map<Seq<char>, V>;

    closed spec fn view(&self) -> Map<Seq<char>, V> {
        Map::new(
            |k: Seq<char>| self.keys().contains(k),
            |k: Seq<char>|
                self.entries@[choose|j: int| 0 <= j < self.keys().len() && self.keys()[j] == k].1,
        )
    }
}

} // verus!

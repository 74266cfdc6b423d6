//! A map from string keys to values, kept sorted by key (in `str` order, which is
//! the order of the characters' code points).

use vstd::prelude::*;

use crate::text::to_chars;

verus! {

/// `a` sorts strictly before `b`, character by character (a proper prefix first).
pub open spec fn lex_lt(a: Seq<char>, b: Seq<char>) -> bool
    decreases a.len(),
{
    if a.len() == 0 {
        b.len() > 0
    } else if b.len() == 0 {
        false
    } else if a[0] != b[0] {
        a[0] < b[0]
    } else {
        lex_lt(a.drop_first(), b.drop_first())
    }
}

pub proof fn lemma_lex_irreflexive(a: Seq<char>)
    ensures
        !lex_lt(a, a),
    decreases a.len(),
{
    if a.len() > 0 {
        lemma_lex_irreflexive(a.drop_first());
    }
}

pub proof fn lemma_lex_asymmetric(a: Seq<char>, b: Seq<char>)
    ensures
        !(lex_lt(a, b) && lex_lt(b, a)),
    decreases a.len(),
{
    if a.len() > 0 && b.len() > 0 && a[0] == b[0] {
        lemma_lex_asymmetric(a.drop_first(), b.drop_first());
    }
}

pub proof fn lemma_lex_total(a: Seq<char>, b: Seq<char>)
    ensures
        a == b || lex_lt(a, b) || lex_lt(b, a),
    decreases a.len(),
{
    if a.len() > 0 && b.len() > 0 {
        if a[0] == b[0] {
            lemma_lex_total(a.drop_first(), b.drop_first());
            if a.drop_first() == b.drop_first() {
                assert(a =~= seq![a[0]] + a.drop_first());
                assert(b =~= seq![b[0]] + b.drop_first());
            }
        }
    } else if a.len() == 0 && b.len() == 0 {
        assert(a =~= b);
    }
}

pub proof fn lemma_lex_transitive(a: Seq<char>, b: Seq<char>, c: Seq<char>)
    requires
        lex_lt(a, b),
        lex_lt(b, c),
    ensures
        lex_lt(a, c),
    decreases a.len(),
{
    if a.len() > 0 && b.len() > 0 && c.len() > 0 && a[0] == b[0] && b[0] == c[0] {
        lemma_lex_transitive(a.drop_first(), b.drop_first(), c.drop_first());
    }
}

/// Whether `a` sorts strictly before `b`.
pub fn lex_less(a: &Vec<char>, b: &Vec<char>) -> (r: bool)
    ensures
        r == lex_lt(a@, b@),
{
    let mut i: usize = 0;
    assert(a@.skip(0) =~= a@ && b@.skip(0) =~= b@);
    while i < a.len() && i < b.len() && a[i] == b[i]
        invariant
            i <= a@.len(),
            i <= b@.len(),
            lex_lt(a@, b@) == lex_lt(a@.skip(i as int), b@.skip(i as int)),
        decreases a@.len() - i,
    {
        proof {
            assert(a@.skip(i as int).drop_first() =~= a@.skip(i + 1));
            assert(b@.skip(i as int).drop_first() =~= b@.skip(i + 1));
        }
        i = i + 1;
    }
    if i == a.len() {
        i < b.len()
    } else if i == b.len() {
        false
    } else {
        a[i] < b[i]
    }
}

/// The keys of `s` increase strictly.
pub open spec fn sorted_keys<V>(s: Seq<(Seq<char>, V)>) -> bool {
    forall|i: int, j: int| 0 <= i < j < s.len() ==> lex_lt(#[trigger] s[i].0, #[trigger] s[j].0)
}

/// Index of the first entry of `s` under `k`, searching from `from`.
pub open spec fn find_key<V>(s: Seq<(Seq<char>, V)>, k: Seq<char>, from: int) -> Option<int>
    decreases s.len() - from,
{
    if from < 0 || from >= s.len() {
        None
    } else if s[from].0 == k {
        Some(from)
    } else {
        find_key(s, k, from + 1)
    }
}

/// The value stored under `k`.
pub open spec fn lookup<V>(s: Seq<(Seq<char>, V)>, k: Seq<char>) -> Option<V> {
    match find_key(s, k, 0) {
        Some(i) => Some(s[i].1),
        None => None,
    }
}

proof fn lemma_find_first<V>(s: Seq<(Seq<char>, V)>, k: Seq<char>, from: int, i: int)
    requires
        0 <= from <= i < s.len(),
        s[i].0 == k,
        forall|j: int| from <= j < i ==> s[j].0 != k,
    ensures
        find_key(s, k, from) == Some(i),
    decreases i - from,
{
    if from < i {
        lemma_find_first(s, k, from + 1, i);
    }
}

proof fn lemma_find_none<V>(s: Seq<(Seq<char>, V)>, k: Seq<char>, from: int)
    requires
        0 <= from,
        forall|j: int| from <= j < s.len() ==> #[trigger] s[j].0 != k,
    ensures
        find_key(s, k, from) is None,
    decreases s.len() - from,
{
    if from < s.len() {
        lemma_find_none(s, k, from + 1);
    }
}

/// A found key sits at some index.
pub proof fn lemma_find_some<V>(s: Seq<(Seq<char>, V)>, k: Seq<char>, from: int)
    requires
        find_key(s, k, from) is Some,
    ensures
        0 <= find_key(s, k, from)->0 < s.len(),
        s[find_key(s, k, from)->0].0 == k,
        exists|j: int| 0 <= j < s.len() && s[j].0 == k,
    decreases s.len() - from,
{
    if s[from].0 != k {
        lemma_find_some(s, k, from + 1);
    }
}

/// No entry is under `q`.
proof fn lemma_lookup_absent<V>(s: Seq<(Seq<char>, V)>, q: Seq<char>)
    requires
        forall|j: int| 0 <= j < s.len() ==> #[trigger] s[j].0 != q,
    ensures
        lookup(s, q) is None,
{
    lemma_find_none(s, q, 0);
}

/// In a sorted sequence the entry under a key is unique.
pub proof fn lemma_lookup_at<V>(s: Seq<(Seq<char>, V)>, i: int)
    requires
        sorted_keys(s),
        0 <= i < s.len(),
    ensures
        lookup(s, s[i].0) == Some(s[i].1),
{
    let k = s[i].0;
    assert forall|j: int| 0 <= j < i implies s[j].0 != k by {
        assert(lex_lt(s[j].0, s[i].0));
        lemma_lex_irreflexive(k);
    }
    lemma_find_first(s, k, 0, i);
}

/// A map from string keys to values, sorted by key.
pub struct SortedMap<V> {
    entries: Vec<(String, V)>,
}

pub open spec fn entry_views<V>(s: Seq<(String, V)>) -> Seq<(Seq<char>, V)> {
    s.map_values(|e: (String, V)| (e.0@, e.1))
}

impl<V> SortedMap<V> {
    /// The entries, by increasing key.
    pub closed spec fn entries(&self) -> Seq<(Seq<char>, V)> {
        entry_views(self.entries@)
    }

    pub open spec fn well_formed(&self) -> bool {
        sorted_keys(self.entries())
    }

    /// The value under `k`.
    pub open spec fn get_spec(&self, k: Seq<char>) -> Option<V> {
        lookup(self.entries(), k)
    }

    pub fn new() -> (m: Self)
        ensures
            m.well_formed(),
            m.entries() == Seq::<(Seq<char>, V)>::empty(),
    {
        let m = SortedMap { entries: Vec::new() };
        assert(m.entries() =~= Seq::<(Seq<char>, V)>::empty());
        m
    }

    /// First index whose key is not below `k`, and whether its key is `k`.
    fn seek(&self, k: &Vec<char>) -> (r: (usize, bool))
        requires
            self.well_formed(),
        ensures
            r.0 <= self.entries().len(),
            forall|i: int| 0 <= i < r.0 ==> lex_lt(#[trigger] self.entries()[i].0, k@),
            r.1 ==> r.0 < self.entries().len() && self.entries()[r.0 as int].0 == k@,
            !r.1 ==> forall|i: int|
                r.0 <= i < self.entries().len() ==> lex_lt(k@, #[trigger] self.entries()[i].0),
    {
        let ghost s = self.entries();
        let mut i: usize = 0;
        while i < self.entries.len()
            invariant
                s == self.entries(),
                s.len() == self.entries@.len(),
                sorted_keys(s),
                i <= s.len(),
                forall|j: int| 0 <= j < i ==> lex_lt(#[trigger] s[j].0, k@),
            decreases s.len() - i,
        {
            let key: Vec<char> = to_chars(self.entries[i].0.as_str());
            proof {
                assert(s[i as int].0 == self.entries@[i as int].0@);
            }
            if !lex_less(&key, k) {
                proof {
                    lemma_lex_total(key@, k@);
                }
                if !lex_less(k, &key) {
                    return (i, true);
                }
                proof {
                    lemma_lex_total(key@, k@);
                    if key@ == k@ {
                        lemma_lex_irreflexive(k@);
                    }
                    assert forall|j: int| i <= j < s.len() implies lex_lt(k@, #[trigger] s[j].0) by {
                        if j > i {
                            lemma_lex_transitive(k@, s[i as int].0, s[j].0);
                        }
                    }
                }
                return (i, false);
            }
            i = i + 1;
        }
        (i, false)
    }

    /// Store `v` under `k`, replacing what was there.
    pub fn insert(&mut self, k: String, v: V)
        requires
            old(self).well_formed(),
        ensures
            final(self).well_formed(),
            forall|q: Seq<char>| #[trigger] final(self).get_spec(q) == if q == k@ {
                Some(v)
            } else {
                old(self).get_spec(q)
            },
    {
        let ghost s = self.entries();
        let ghost kk = k@;
        let kc: Vec<char> = to_chars(k.as_str());
        let (at, found) = self.seek(&kc);
        if found {
            self.entries.set(at, (k, v));
            proof {
                let t = self.entries();
                assert(t =~= s.update(at as int, (kk, v)));
                assert(sorted_keys(t)) by {
                    assert forall|i: int, j: int| 0 <= i < j < t.len() implies lex_lt(#[trigger] t[i].0, #[trigger] t[j].0) by {
                        assert(t[i].0 == s[i].0 && t[j].0 == s[j].0);
                    }
                }
                assert forall|q: Seq<char>| #[trigger] lookup(t, q) == if q == kk {
                    Some(v)
                } else {
                    lookup(s, q)
                } by {
                    lemma_lookup_at(t, at as int);
                    if q != kk {
                        lemma_lookup_same(s, t, q, at as int);
                    }
                }
            }
        } else {
            self.entries.insert(at, (k, v));
            proof {
                let t = self.entries();
                assert(t =~= s.insert(at as int, (kk, v)));
                assert(sorted_keys(t)) by {
                    assert forall|i: int, j: int| 0 <= i < j < t.len() implies lex_lt(#[trigger] t[i].0, #[trigger] t[j].0) by {
                        if j < at {
                        } else if j == at {
                        } else if i < at {
                            lemma_lex_transitive(t[i].0, kk, t[j].0);
                        } else if i == at {
                        } else {
                            assert(t[i] == s[i - 1] && t[j] == s[j - 1]);
                        }
                    }
                }
                assert forall|q: Seq<char>| #[trigger] lookup(t, q) == if q == kk {
                    Some(v)
                } else {
                    lookup(s, q)
                } by {
                    lemma_lookup_at(t, at as int);
                    if q != kk {
                        lemma_lookup_inserted(s, t, q, at as int);
                    }
                }
            }
        }
    }

    /// The value under `k`.
    pub fn get(&self, k: &str) -> (r: Option<&V>)
        requires
            self.well_formed(),
        ensures
            r matches Some(x) ==> self.get_spec(k@) == Some(*x),
            r is None ==> self.get_spec(k@) is None,
    {
        let kc: Vec<char> = to_chars(k);
        let (at, found) = self.seek(&kc);
        if found {
            proof {
                lemma_lookup_at(self.entries(), at as int);
                assert(self.entries()[at as int].1 == self.entries@[at as int].1);
            }
            Some(&self.entries[at].1)
        } else {
            proof {
                let s = self.entries();
                assert forall|i: int| 0 <= i < s.len() implies #[trigger] s[i].0 != k@ by {
                    if s[i].0 == k@ {
                        lemma_lex_irreflexive(k@);
                    }
                }
                lemma_lookup_absent(s, k@);
            }
            None
        }
    }

    /// Remove the entry under `k` and hand back its value.
    pub fn remove(&mut self, k: &str) -> (found: Option<V>)
        requires
            old(self).well_formed(),
        ensures
            final(self).well_formed(),
            found == old(self).get_spec(k@),
            final(self).entries().len() == if found is Some {
                old(self).entries().len() - 1
            } else {
                old(self).entries().len() as int
            },
            forall|q: Seq<char>| #[trigger] final(self).get_spec(q) == if q == k@ {
                None
            } else {
                old(self).get_spec(q)
            },
    {
        let ghost s = self.entries();
        let kc: Vec<char> = to_chars(k);
        let (at, found) = self.seek(&kc);
        if found {
            let (_, value) = self.entries.remove(at);
            proof {
                let t = self.entries();
                assert(t =~= s.remove(at as int));
                lemma_lookup_at(s, at as int);
                assert(sorted_keys(t)) by {
                    assert forall|i: int, j: int| 0 <= i < j < t.len() implies lex_lt(#[trigger] t[i].0, #[trigger] t[j].0) by {
                        if j < at {
                        } else if i < at {
                            assert(t[j] == s[j + 1]);
                        } else {
                            assert(t[i] == s[i + 1] && t[j] == s[j + 1]);
                        }
                    }
                }
                assert forall|q: Seq<char>| #[trigger] lookup(t, q) == if q == k@ {
                    None
                } else {
                    lookup(s, q)
                } by {
                    lemma_lookup_removed(s, t, q, at as int);
                }
                assert(s[at as int].1 == value);
            }
            Some(value)
        } else {
            proof {
                let s = self.entries();
                assert forall|i: int| 0 <= i < s.len() implies #[trigger] s[i].0 != k@ by {
                    if s[i].0 == k@ {
                        lemma_lex_irreflexive(k@);
                    }
                }
                lemma_lookup_absent(s, k@);
            }
            None
        }
    }

    /// Number of entries.
    pub fn len(&self) -> (n: usize)
        ensures
            n == self.entries().len(),
    {
        self.entries.len()
    }

    /// The value under `k`, which must be present, to change in place.
    pub fn get_mut(&mut self, k: &str) -> (r: &mut V)
        requires
            old(self).well_formed(),
            old(self).get_spec(k@) is Some,
        ensures
            Some(*r) == old(self).get_spec(k@),
            final(self).well_formed(),
            forall|q: Seq<char>| #[trigger] final(self).get_spec(q) == if q == k@ {
                Some(*final(r))
            } else {
                old(self).get_spec(q)
            },
    {
        let ghost s = self.entries();
        let kc: Vec<char> = to_chars(k);
        let (at, found) = self.seek(&kc);
        proof {
            if !found {
                assert forall|i: int| 0 <= i < s.len() implies #[trigger] s[i].0 != k@ by {
                    if s[i].0 == k@ {
                        lemma_lex_irreflexive(k@);
                    }
                }
                lemma_lookup_absent(s, k@);
            }
            lemma_lookup_at(s, at as int);
        }
        let ghost raw = self.entries@;
        proof {
            assert forall|v: V, q: Seq<char>| #[trigger] lookup(entry_views(raw.update(at as int, (raw[at as int].0, v))), q)
                == if q == k@ {
                Some(v)
            } else {
                lookup(s, q)
            } by {
                let t = entry_views(raw.update(at as int, (raw[at as int].0, v)));
                assert(t =~= s.update(at as int, (k@, v)));
                lemma_value_replaced(s, at as int, v);
            }
            assert forall|v: V| #[trigger] sorted_keys(entry_views(raw.update(at as int, (raw[at as int].0, v)))) by {
                let t = entry_views(raw.update(at as int, (raw[at as int].0, v)));
                assert(t =~= s.update(at as int, (k@, v)));
                lemma_value_replaced(s, at as int, v);
            }
        }
        &mut self.entries[at].1
    }

    /// The `i`-th entry by increasing key.
    pub fn entry(&self, i: usize) -> (r: Option<(&String, &V)>)
        ensures
            r matches Some(e) ==> i < self.entries().len() && self.entries()[i as int] == (e.0@, *e.1),
            r is None <==> i >= self.entries().len(),
    {
        if i < self.entries.len() {
            let e: &(String, V) = &self.entries[i];
            Some((&e.0, &e.1))
        } else {
            None
        }
    }
}

/// Replacing the value of one entry keeps the keys sorted, and changes what that
/// key looks up and nothing else.
proof fn lemma_value_replaced<V>(s: Seq<(Seq<char>, V)>, at: int, v: V)
    requires
        sorted_keys(s),
        0 <= at < s.len(),
    ensures
        sorted_keys(s.update(at, (s[at].0, v))),
        forall|q: Seq<char>| #[trigger] lookup(s.update(at, (s[at].0, v)), q) == if q == s[at].0 {
            Some(v)
        } else {
            lookup(s, q)
        },
{
    let t = s.update(at, (s[at].0, v));
    assert forall|i: int, j: int| 0 <= i < j < t.len() implies lex_lt(#[trigger] t[i].0, #[trigger] t[j].0) by {
        assert(t[i].0 == s[i].0 && t[j].0 == s[j].0);
    }
    assert forall|q: Seq<char>| #[trigger] lookup(t, q) == if q == s[at].0 {
        Some(v)
    } else {
        lookup(s, q)
    } by {
        lemma_lookup_at(t, at);
        if q != s[at].0 {
            lemma_lookup_same(s, t, q, at);
        }
    }
}

proof fn lemma_lookup_same<V>(s: Seq<(Seq<char>, V)>, t: Seq<(Seq<char>, V)>, q: Seq<char>, at: int)
    requires
        sorted_keys(s),
        sorted_keys(t),
        0 <= at < s.len(),
        t.len() == s.len(),
        t[at].0 == s[at].0,
        forall|i: int| 0 <= i < s.len() && i != at ==> t[i] == s[i],
        q != t[at].0,
    ensures
        lookup(t, q) == lookup(s, q),
{
    if exists|i: int| 0 <= i < s.len() && #[trigger] s[i].0 == q {
        let i = choose|i: int| 0 <= i < s.len() && #[trigger] s[i].0 == q;
        lemma_lookup_at(s, i);
        lemma_lookup_at(t, i);
    } else {
        assert forall|i: int| 0 <= i < t.len() implies #[trigger] t[i].0 != q by {
            if i != at {
                assert(t[i] == s[i]);
            }
        }
        lemma_lookup_absent(s, q);
        lemma_lookup_absent(t, q);
    }
}

proof fn lemma_lookup_inserted<V>(s: Seq<(Seq<char>, V)>, t: Seq<(Seq<char>, V)>, q: Seq<char>, at: int)
    requires
        sorted_keys(s),
        sorted_keys(t),
        0 <= at <= s.len(),
        t == s.insert(at, t[at]),
        q != t[at].0,
    ensures
        lookup(t, q) == lookup(s, q),
{
    if exists|i: int| 0 <= i < s.len() && #[trigger] s[i].0 == q {
        let i = choose|i: int| 0 <= i < s.len() && #[trigger] s[i].0 == q;
        lemma_lookup_at(s, i);
        if i < at {
            assert(t[i] == s[i]);
            lemma_lookup_at(t, i);
        } else {
            assert(t[i + 1] == s[i]);
            lemma_lookup_at(t, i + 1);
        }
    } else {
        assert forall|i: int| 0 <= i < t.len() implies #[trigger] t[i].0 != q by {
            if i < at {
                assert(t[i] == s[i]);
            } else if i > at {
                assert(t[i] == s[i - 1]);
            }
        }
        lemma_lookup_absent(s, q);
        lemma_lookup_absent(t, q);
    }
}

proof fn lemma_lookup_removed<V>(s: Seq<(Seq<char>, V)>, t: Seq<(Seq<char>, V)>, q: Seq<char>, at: int)
    requires
        sorted_keys(s),
        sorted_keys(t),
        0 <= at < s.len(),
        t == s.remove(at),
    ensures
        lookup(t, q) == if q == s[at].0 {
            None
        } else {
            lookup(s, q)
        },
{
    if q == s[at].0 {
        assert forall|i: int| 0 <= i < t.len() implies #[trigger] t[i].0 != q by {
            lemma_lex_irreflexive(q);
            if i < at {
                assert(t[i] == s[i]);
                assert(lex_lt(s[i].0, s[at].0));
            } else {
                assert(t[i] == s[i + 1]);
                assert(lex_lt(s[at].0, s[i + 1].0));
            }
        }
        lemma_lookup_absent(t, q);
    } else if exists|i: int| 0 <= i < s.len() && #[trigger] s[i].0 == q {
        let i = choose|i: int| 0 <= i < s.len() && #[trigger] s[i].0 == q;
        lemma_lookup_at(s, i);
        if i < at {
            assert(t[i] == s[i]);
            lemma_lookup_at(t, i);
        } else {
            assert(i != at);
            assert(t[i - 1] == s[i]);
            lemma_lookup_at(t, i - 1);
        }
    } else {
        assert forall|i: int| 0 <= i < t.len() implies #[trigger] t[i].0 != q by {
            if i < at {
                assert(t[i] == s[i]);
            } else {
                assert(t[i] == s[i + 1]);
            }
        }
        lemma_lookup_absent(s, q);
        lemma_lookup_absent(t, q);
    }
}

} // verus!

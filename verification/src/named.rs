//! States saved under names, in the order they were saved: saving a name again
//! replaces its state and moves it last.

use vstd::prelude::*;

use crate::text::{chars_eq, to_chars};

verus! {

/// The entries of `s` not named `label`, in order.
pub open spec fn without<T>(s: Seq<(Seq<char>, T)>, label: Seq<char>) -> Seq<(Seq<char>, T)>
    decreases s.len(),
{
    if s.len() == 0 {
        s
    } else if s.last().0 == label {
        without(s.drop_last(), label)
    } else {
        without(s.drop_last(), label).push(s.last())
    }
}

/// Some entry of `s` is named `label`.
pub open spec fn has_name<T>(s: Seq<(Seq<char>, T)>, label: Seq<char>) -> bool {
    exists|i: int| 0 <= i < s.len() && #[trigger] s[i].0 == label
}

/// Named states in save order.
pub struct NamedStates<T> {
    entries: Vec<(String, T)>,
}

impl<T> NamedStates<T> {
    /// The entries, names taken as text.
    pub closed spec fn entries(&self) -> Seq<(Seq<char>, T)> {
        self.entries@.map_values(|e: (String, T)| (e.0@, e.1))
    }

    pub fn new() -> (s: Self)
        ensures
            s.entries() == Seq::<(Seq<char>, T)>::empty(),
    {
        let s = NamedStates { entries: Vec::new() };
        proof {
            assert(s.entries() =~= Seq::<(Seq<char>, T)>::empty());
        }
        s
    }

    /// Save `state` under `label`: an earlier state of that name is dropped and the new
    /// one comes last.
    pub fn save(&mut self, label: &str, state: T)
        ensures
            final(self).entries() == without(old(self).entries(), label@).push((label@, state)),
    {
        self.remove_named(label);
        self.entries.push((String::from_str(label), state));
        proof {
            assert(final(self).entries() =~= without(old(self).entries(), label@).push((label@, state)));
        }
    }

    /// Delete the state saved under `label`; whether there was one.
    pub fn delete(&mut self, label: &str) -> (removed: bool)
        ensures
            final(self).entries() == without(old(self).entries(), label@),
            removed == has_name(old(self).entries(), label@),
    {
        self.remove_named(label)
    }

    /// Number of saved states.
    pub fn len(&self) -> (n: usize)
        ensures
            n == self.entries().len(),
    {
        self.entries.len()
    }

    /// The names, in save order.
    pub fn names(&self) -> (v: Vec<String>)
        ensures
            v@.len() == self.entries().len(),
            forall|i: int| 0 <= i < v@.len() ==> #[trigger] v@[i]@ == self.entries()[i].0,
    {
        let mut v: Vec<String> = Vec::new();
        let mut i: usize = 0;
        while i < self.entries.len()
            invariant
                i <= self.entries@.len(),
                v@.len() == i,
                forall|k: int| 0 <= k < i ==> #[trigger] v@[k]@ == self.entries()[k].0,
            decreases self.entries@.len() - i,
        {
            v.push(self.entries[i].0.clone());
            i = i + 1;
        }
        v
    }

    /// The `i`-th saved state and its name.
    pub fn get(&self, i: usize) -> (r: Option<(&String, &T)>)
        ensures
            r is None <==> i >= self.entries().len(),
            r matches Some(e) ==> (e.0@, *e.1) == self.entries()[i as int],
    {
        if i < self.entries.len() {
            Some((&self.entries[i].0, &self.entries[i].1))
        } else {
            None
        }
    }

    fn remove_named(&mut self, label: &str) -> (removed: bool)
        ensures
            final(self).entries() == without(old(self).entries(), label@),
            removed == has_name(old(self).entries(), label@),
    {
        let ghost s = self.entries();
        let ghost mut j: int = 0;
        let mut removed: bool = false;
        let mut i: usize = 0;
        proof {
            assert(s.take(0) =~= Seq::<(Seq<char>, T)>::empty());
            assert(self.entries() =~= without(s.take(0), label@) + s.skip(0));
        }
        while i < self.entries.len()
            invariant
                0 <= j <= s.len(),
                self.entries() == without(s.take(j), label@) + s.skip(j),
                i == without(s.take(j), label@).len(),
                removed == has_name(s.take(j), label@),
            decreases s.len() - j,
        {
            proof {
                assert(self.entries()[i as int] == s[j]);
                assert(s.take(j + 1).drop_last() =~= s.take(j));
                assert(s.take(j + 1).last() == s[j]);
                assert(s.skip(j + 1) =~= s.skip(j).drop_first());
                if has_name(s.take(j + 1), label@) && s[j].0 != label@ {
                    let k = choose|k: int| 0 <= k < j + 1 && #[trigger] s.take(j + 1)[k].0 == label@;
                    assert(s.take(j)[k].0 == label@);
                }
                if has_name(s.take(j), label@) {
                    let k = choose|k: int| 0 <= k < j && #[trigger] s.take(j)[k].0 == label@;
                    assert(s.take(j + 1)[k].0 == label@);
                }
                if s[j].0 == label@ {
                    assert(s.take(j + 1)[j].0 == label@);
                }
            }
            let c: Vec<char> = to_chars(self.entries[i].0.as_str());
            if chars_eq(&c, label) {
                let ghost before = self.entries@;
                let _gone = self.entries.remove(i);
                removed = true;
                proof {
                    let mv = before.map_values(|e: (String, T)| (e.0@, e.1));
                    let w = without(s.take(j), label@);
                    assert(mv == w + s.skip(j));
                    assert(s[j].0 == label@);
                    assert(without(s.take(j + 1), label@) == w);
                    assert(self.entries@ =~= before.remove(i as int));
                    assert(self.entries() =~= mv.remove(i as int));
                    assert(mv.remove(i as int) =~= w + s.skip(j + 1));
                    j = j + 1;
                }
            } else {
                i = i + 1;
                proof {
                    assert(self.entries() =~= without(s.take(j + 1), label@) + s.skip(j + 1));
                    j = j + 1;
                }
            }
        }
        proof {
            assert(s.skip(j).len() == 0);
            assert(j == s.len());
            assert(s.take(j) =~= s);
            assert(self.entries() =~= without(s, label@));
        }
        removed
    }
}

/// After a save, the name appears exactly once, last, with the saved state; the other
/// names keep their order.
pub proof fn lemma_saved_once<T>(s: Seq<(Seq<char>, T)>, label: Seq<char>, state: T)
    ensures
        ({
            let t = without(s, label).push((label, state));
            &&& t.last() == (label, state)
            &&& forall|i: int| 0 <= i < t.len() - 1 ==> #[trigger] t[i].0 != label
        }),
{
    lemma_without_drops(s, label);
}

proof fn lemma_without_drops<T>(s: Seq<(Seq<char>, T)>, label: Seq<char>)
    ensures
        forall|i: int| 0 <= i < without(s, label).len() ==> #[trigger] without(s, label)[i].0 != label,
        without(s, label).len() <= s.len(),
    decreases s.len(),
{
    if s.len() > 0 {
        lemma_without_drops(s.drop_last(), label);
    }
}

} // verus!

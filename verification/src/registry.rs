//! The few-shot gesture registry: gestures by name, each tied to the model its
//! samples were embedded with, and the import of portable bundles.

use vstd::prelude::*;

use crate::keyed::{lex_lt, lemma_lex_irreflexive, SortedMap};
use crate::manifest::{is_blank, trimmed_is_empty};
use crate::text::{decimal, spec_decimal};
use crate::types::JepaError;

verus! {

/// Schema version of gesture bundles.
pub const BUNDLE_VERSION: u32 = 1;

/// A registered gesture: the model its samples come from, when it was created, and
/// what the matcher needs (`payload`).
pub struct StoredGesture<G> {
    pub model_name: String,
    pub created_at: u64,
    pub payload: G,
}

/// One gesture of a bundle, with the lengths of its vectors.
#[derive(Clone)]
pub struct ImportItem<G> {
    pub name: String,
    pub model_name: String,
    pub dimension: usize,
    pub prototype_len: usize,
    pub sample_lens: Vec<usize>,
    pub created_at: u64,
    pub payload: G,
}

/// Result of importing a bundle.
#[derive(Debug, Clone, PartialEq, Eq)]
pub struct ImportReport {
    pub imported: usize,
    /// Gestures of the same model removed beforehand (`replace = true`).
    pub removed: usize,
    pub models: Vec<String>,
}

/// A bundle entry is accepted: a name and a model, and vectors of its dimension.
pub open spec fn item_ok<G>(it: ImportItem<G>) -> bool {
    &&& !is_blank(it.name@)
    &&& !is_blank(it.model_name@)
    &&& it.prototype_len == it.dimension
    &&& forall|k: int| 0 <= k < it.sample_lens@.len() ==> #[trigger] it.sample_lens@[k] == it.dimension
}

/// `m` is the model of one of the bundle's gestures.
pub open spec fn bundle_has_model<G>(items: Seq<ImportItem<G>>, m: Seq<char>) -> bool {
    exists|i: int| 0 <= i < items.len() && #[trigger] items[i].model_name@ == m
}

/// Index of the last bundle gesture named `q`.
pub open spec fn last_named<G>(items: Seq<ImportItem<G>>, q: Seq<char>) -> Option<int>
    decreases items.len(),
{
    if items.len() == 0 {
        None
    } else if items.last().name@ == q {
        Some(items.len() - 1)
    } else {
        last_named(items.drop_last(), q)
    }
}

/// Keys increase strictly and hold no duplicate.
pub open spec fn strictly_sorted(s: Seq<Seq<char>>) -> bool {
    forall|i: int, j: int| 0 <= i < j < s.len() ==> lex_lt(#[trigger] s[i], #[trigger] s[j])
}

/// `g` is a gesture whose model is in `models`.
pub open spec fn of_models<G>(g: Option<StoredGesture<G>>, models: SortedMap<()>) -> bool {
    match g {
        Some(x) => models.get_spec(x.model_name@) is Some,
        None => false,
    }
}

/// Persistent gesture registry, by name.
pub struct GestureStore<G> {
    gestures: SortedMap<StoredGesture<G>>,
}

impl<G> GestureStore<G> {
    /// The gesture named `q`.
    pub closed spec fn gesture(&self, q: Seq<char>) -> Option<StoredGesture<G>> {
        self.gestures.get_spec(q)
    }

    /// Number of gestures.
    pub closed spec fn size(&self) -> nat {
        self.gestures.entries().len()
    }

    pub closed spec fn well_formed(&self) -> bool {
        self.gestures.well_formed()
    }

    /// An empty registry.
    pub fn new() -> (s: Self)
        ensures
            s.well_formed(),
            s.size() == 0,
            forall|q: Seq<char>| #[trigger] s.gesture(q) is None,
    {
        let s = GestureStore { gestures: SortedMap::new() };
        proof {
            assert forall|q: Seq<char>| #[trigger] s.gesture(q) is None by {
                assert(s.gestures.entries().len() == 0);
            }
        }
        s
    }

    /// Store `g` under `name`, replacing a gesture of that name.
    pub fn insert(&mut self, name: String, g: StoredGesture<G>)
        requires
            old(self).well_formed(),
        ensures
            final(self).well_formed(),
            forall|q: Seq<char>| #[trigger] final(self).gesture(q) == if q == name@ {
                Some(g)
            } else {
                old(self).gesture(q)
            },
    {
        self.gestures.insert(name, g);
    }

    /// The gesture named `name`.
    pub fn get(&self, name: &str) -> (r: Option<&StoredGesture<G>>)
        requires
            self.well_formed(),
        ensures
            r matches Some(g) ==> self.gesture(name@) == Some(*g),
            r is None ==> self.gesture(name@) is None,
    {
        self.gestures.get(name)
    }

    /// Remove and hand back the gesture named `name`.
    pub fn remove(&mut self, name: &str) -> (r: Option<StoredGesture<G>>)
        requires
            old(self).well_formed(),
        ensures
            final(self).well_formed(),
            r == old(self).gesture(name@),
            forall|q: Seq<char>| #[trigger] final(self).gesture(q) == if q == name@ {
                None
            } else {
                old(self).gesture(q)
            },
    {
        self.gestures.remove(name)
    }

    /// Number of gestures.
    pub fn len(&self) -> (n: usize)
        ensures
            n == self.size(),
    {
        self.gestures.len()
    }

    /// The name of the `i`-th gesture in name order, and the gesture.
    pub fn nth(&self, i: usize) -> (r: Option<(&String, &StoredGesture<G>)>)
        requires
            self.well_formed(),
        ensures
            r matches Some(e) ==> i < self.size() && self.gesture(e.0@) == Some(*e.1),
            r is None <==> i >= self.size(),
    {
        let r = self.gestures.entry(i);
        proof {
            if r is Some {
                crate::keyed::lemma_lookup_at(self.gestures.entries(), i as int);
            }
        }
        r
    }

    /// The gestures by increasing name.
    pub closed spec fn listing(&self) -> Seq<(Seq<char>, StoredGesture<G>)> {
        self.gestures.entries()
    }

    /// Remove every gesture whose model is in `models`; how many were removed.
    #[verifier::rlimit(40)]
    fn remove_models(&mut self, models: &SortedMap<()>) -> (removed: usize)
        requires
            old(self).well_formed(),
            models.well_formed(),
        ensures
            final(self).well_formed(),
            removed == doomed_keys(old(self).listing(), *models).len(),
            final(self).size() == old(self).size() - removed,
            forall|q: Seq<char>| #[trigger] final(self).gesture(q) == if of_models(old(self).gesture(q), *models) {
                None
            } else {
                old(self).gesture(q)
            },
    {
        let ghost start = *self;
        let ghost es = start.listing();
        let mut doomed: Vec<String> = Vec::new();
        let n: usize = self.gestures.len();
        let mut i: usize = 0;
        while i < n
            invariant
                *self == start,
                es == start.listing(),
                self.well_formed(),
                models.well_formed(),
                n == es.len(),
                i <= n,
                names(doomed@) == doomed_keys(es.take(i as int), *models),
            decreases n - i,
        {
            let (name, g) = match self.gestures.entry(i) {
                Some(e) => e,
                None => {
                    return 0;
                },
            };
            let keep: bool = models.get(g.model_name.as_str()).is_none();
            proof {
                assert(es.take(i + 1).drop_last() =~= es.take(i as int));
                assert(es.take(i + 1).last() == es[i as int]);
            }
            if !keep {
                let ghost before = doomed@;
                doomed.push(name.clone());
                proof {
                    assert(names(doomed@) =~= names(before).push(es[i as int].0));
                }
            }
            i = i + 1;
        }
        proof {
            assert(es.take(n as int) =~= es);
            lemma_doomed_sorted(es, *models);
            assert forall|t: int| 0 <= t < doomed_keys(es, *models).len() implies of_models(
                start.gesture(#[trigger] doomed_keys(es, *models)[t]),
                *models,
            ) by {
                let j = lemma_doomed_elem(es, *models, t);
                crate::keyed::lemma_lookup_at(es, j);
            }
        }
        let ghost dk = names(doomed@);
        let mut k: usize = 0;
        while k < doomed.len()
            invariant
                self.well_formed(),
                models.well_formed(),
                dk == names(doomed@),
                dk == doomed_keys(es, *models),
                es == start.listing(),
                k <= doomed@.len(),
                self.size() == start.size() - k,
                forall|t: int, u: int| 0 <= t < u < dk.len() ==> lex_lt(#[trigger] dk[t], #[trigger] dk[u]),
                forall|t: int| 0 <= t < dk.len() ==> of_models(start.gesture(#[trigger] dk[t]), *models),
                forall|q: Seq<char>| #[trigger] self.gesture(q) == if exists|t: int|
                    0 <= t < k && #[trigger] dk[t] == q {
                    None
                } else {
                    start.gesture(q)
                },
            decreases doomed@.len() - k,
        {
            let ghost mid = *self;
            let ghost key = dk[k as int];
            assert(doomed@[k as int]@ == key);
            proof {
                if exists|t: int| 0 <= t < k && #[trigger] dk[t] == key {
                    let t = choose|t: int| 0 <= t < k && #[trigger] dk[t] == key;
                    lemma_lex_irreflexive(key);
                }
                assert(mid.gesture(key) == start.gesture(key));
            }
            let gone = self.gestures.remove(doomed[k].as_str());
            proof {
                assert forall|q: Seq<char>| #[trigger] self.gesture(q) == if exists|t: int|
                    0 <= t < k + 1 && #[trigger] dk[t] == q {
                    None
                } else {
                    start.gesture(q)
                } by {
                    if q == key {
                        assert(dk[k as int] == q);
                    } else {
                        assert(mid.gesture(q) == self.gesture(q));
                        if exists|t: int| 0 <= t < k + 1 && #[trigger] dk[t] == q {
                            let t = choose|t: int| 0 <= t < k + 1 && #[trigger] dk[t] == q;
                            assert(t < k);
                        }
                    }
                }
            }
            k = k + 1;
        }
        proof {
            assert forall|q: Seq<char>| #[trigger] self.gesture(q) == if of_models(start.gesture(q), *models) {
                None
            } else {
                start.gesture(q)
            } by {
                if exists|t: int| 0 <= t < dk.len() && #[trigger] dk[t] == q {
                    let t = choose|t: int| 0 <= t < dk.len() && #[trigger] dk[t] == q;
                    assert(of_models(start.gesture(dk[t]), *models));
                } else if of_models(start.gesture(q), *models) {
                    lemma_present_has_index(start.gestures, q);
                    let j = choose|j: int| 0 <= j < es.len() && es[j].0 == q;
                    crate::keyed::lemma_lookup_at(es, j);
                    let t = lemma_doomed_covers(es, *models, j);
                    assert(dk[t] == q);
                }
            }
        }
        doomed.len()
    }
}

/// `g` is one of the gestures asked for: of `model`, or any when none is named.
pub open spec fn selected<G>(g: StoredGesture<G>, model: Option<Seq<char>>) -> bool {
    match model {
        Some(m) => g.model_name@ == m,
        None => true,
    }
}

/// Entries of `out` come in order of their rank `mi` (the position of their model),
/// and by creation time within one rank.
pub open spec fn ranked<G>(out: Seq<(&String, &StoredGesture<G>)>, mi: Seq<int>) -> bool {
    forall|k: int, l: int|
        #![trigger out[k], out[l]]
        #![trigger mi[k], mi[l]]
        0 <= k < l < out.len() ==> mi[k] < mi[l] || (mi[k] == mi[l] && out[k].1.created_at <= out[l].1.created_at)
}

/// `a` comes before `b` in a listing by model: a smaller model name, or the same
/// model and a creation time no later.
pub open spec fn model_then_creation<G>(a: StoredGesture<G>, b: StoredGesture<G>) -> bool {
    lex_lt(a.model_name@, b.model_name@) || (a.model_name@ == b.model_name@ && a.created_at <= b.created_at)
}

/// The keys at `i < j` of sorted entries are in order, hence different.
proof fn lemma_sorted_keys_at<V>(s: Seq<(Seq<char>, V)>, i: int, j: int)
    requires
        crate::keyed::sorted_keys(s),
        0 <= i < j < s.len(),
    ensures
        lex_lt(s[i].0, s[j].0),
        s[i].0 != s[j].0,
{
    lemma_lex_irreflexive(s[i].0);
}

/// The text of an optional string.
pub open spec fn opt_text(s: Option<&str>) -> Option<Seq<char>> {
    match s {
        Some(t) => Some(t@),
        None => None,
    }
}

/// A version and an export time for a list of gestures, ready to be written as a
/// portable bundle.
pub struct GestureExport<'a, G> {
    pub version: u32,
    pub exported_at: u64,
    pub gestures: Vec<(&'a String, &'a StoredGesture<G>)>,
}

impl<G> GestureStore<G> {
    /// `out` lists the gestures asked for by `model`, each once, by increasing
    /// creation time.
    pub open spec fn lists_by_creation(&self, out: Seq<(&String, &StoredGesture<G>)>, model: Option<Seq<char>>) -> bool {
        &&& forall|k: int|
            0 <= k < out.len() ==> self.gesture((#[trigger] out[k]).0@) == Some(*out[k].1) && selected(
                *out[k].1,
                model,
            )
        &&& forall|q: Seq<char>|
            (#[trigger] self.gesture(q) matches Some(g) && selected(g, model)) ==> exists|k: int|
                0 <= k < out.len() && (#[trigger] out[k]).0@ == q
        &&& forall|k: int, l: int| 0 <= k < l < out.len() ==> (#[trigger] out[k]).0@ != (#[trigger] out[l]).0@
        &&& forall|k: int, l: int|
            0 <= k < l < out.len() ==> (#[trigger] out[k]).1.created_at <= (#[trigger] out[l]).1.created_at
    }

    /// The gestures of `model` (every gesture when none is named), each once, by
    /// increasing creation time; gestures created at the same time come in name order.
    #[verifier::rlimit(40)]
    pub fn gestures_by_creation<'a>(&'a self, model: Option<&str>) -> (out: Vec<(&'a String, &'a StoredGesture<G>)>)
        requires
            self.well_formed(),
        ensures
            self.lists_by_creation(out@, opt_text(model)),
    {
        let ghost es = self.listing();
        let ghost want = opt_text(model);
        let n: usize = self.gestures.len();
        let mut out: Vec<(&'a String, &'a StoredGesture<G>)> = Vec::new();
        let ghost mut src: Seq<int> = Seq::empty();
        let mut i: usize = 0;
        while i < n
            invariant
                self.well_formed(),
                es == self.listing(),
                want == opt_text(model),
                n == es.len(),
                i <= n,
                src.len() == out@.len(),
                forall|k: int|
                    0 <= k < src.len() ==> 0 <= #[trigger] src[k] < i && out@[k].0@ == es[src[k]].0 && *out@[k].1
                        == es[src[k]].1 && selected(es[src[k]].1, want),
                forall|k: int, l: int| 0 <= k < l < src.len() ==> #[trigger] src[k] != #[trigger] src[l],
                forall|idx: int|
                    0 <= idx < i && selected(#[trigger] es[idx].1, want) ==> exists|k: int|
                        0 <= k < src.len() && src[k] == idx,
                forall|k: int, l: int|
                    0 <= k < l < out@.len() ==> (#[trigger] out@[k]).1.created_at <= (#[trigger] out@[l]).1.created_at,
            decreases n - i,
        {
            let (name, g) = self.gestures.entry(i).unwrap();
            let wanted: bool = match model {
                Some(m) => crate::text::chars_eq(&crate::text::to_chars(g.model_name.as_str()), m),
                None => true,
            };
            proof {
                if let Some(m) = model {
                    assert(wanted == (g.model_name@ == m@));
                }
                assert(wanted == selected(es[i as int].1, want));
            }
            if wanted {
                let mut p: usize = 0;
                while p < out.len() && out[p].1.created_at <= g.created_at
                    invariant
                        p <= out@.len(),
                        forall|k: int| 0 <= k < p ==> (#[trigger] out@[k]).1.created_at <= g.created_at,
                    decreases out@.len() - p,
                {
                    p = p + 1;
                }
                let ghost before = out@;
                let ghost src_before = src;
                out.insert(p, (name, g));
                proof {
                    before.insert_ensures(p as int, (name, g));
                    src_before.insert_ensures(p as int, i as int);
                    src = src_before.insert(p as int, i as int);
                    assert forall|k: int, l: int|
                        0 <= k < l < out@.len() implies (#[trigger] out@[k]).1.created_at
                        <= (#[trigger] out@[l]).1.created_at by {
                        if l < p {
                        } else if l == p {
                        } else if k < p {
                            assert(out@[l] == before[l - 1]);
                        } else if k == p {
                            assert(out@[l] == before[l - 1]);
                            if p < before.len() {
                                assert(before[p as int].1.created_at > g.created_at);
                                if l - 1 > p {
                                    assert(before[p as int].1.created_at <= before[l - 1].1.created_at);
                                }
                            }
                        } else {
                            assert(out@[l] == before[l - 1] && out@[k] == before[k - 1]);
                        }
                    }
                    assert forall|k: int|
                        0 <= k < src.len() implies 0 <= #[trigger] src[k] < i + 1 && out@[k].0@ == es[src[k]].0
                        && *out@[k].1 == es[src[k]].1 && selected(es[src[k]].1, want) by {
                        if k > p {
                            assert(src[k] == src_before[k - 1]);
                            assert(out@[k] == before[k - 1]);
                        }
                    }
                    assert forall|k: int, l: int| 0 <= k < l < src.len() implies #[trigger] src[k]
                        != #[trigger] src[l] by {
                        if k < p && l > p {
                            assert(src[l] == src_before[l - 1]);
                        } else if k > p {
                            assert(src[l] == src_before[l - 1] && src[k] == src_before[k - 1]);
                        } else if k == p {
                            assert(src[l] == src_before[l - 1]);
                        }
                    }
                    assert forall|idx: int| 0 <= idx < i + 1 && selected(#[trigger] es[idx].1, want) implies exists|
                        k: int,
                    | 0 <= k < src.len() && src[k] == idx by {
                        if idx == i {
                            assert(src[p as int] == idx);
                        } else {
                            let k0 = choose|k: int| 0 <= k < src_before.len() && src_before[k] == idx;
                            if k0 < p {
                                assert(src[k0] == idx);
                            } else {
                                assert(src[k0 + 1] == idx);
                            }
                        }
                    }
                }
            }
            i = i + 1;
        }
        proof {
            assert forall|k: int|
                0 <= k < out@.len() implies self.gesture((#[trigger] out@[k]).0@) == Some(*out@[k].1) && selected(
                *out@[k].1,
                want,
            ) by {
                crate::keyed::lemma_lookup_at(es, src[k]);
            }
            assert forall|q: Seq<char>|
                (#[trigger] self.gesture(q) matches Some(g) && selected(g, want)) implies exists|k: int|
                0 <= k < out@.len() && (#[trigger] out@[k]).0@ == q by {
                lemma_present_has_index(self.gestures, q);
                let j = choose|j: int| 0 <= j < es.len() && es[j].0 == q;
                crate::keyed::lemma_lookup_at(es, j);
                assert(selected(es[j].1, want));
                let k = choose|k: int| 0 <= k < src.len() && src[k] == j;
                assert(out@[k].0@ == q);
            }
            assert forall|k: int, l: int| 0 <= k < l < out@.len() implies (#[trigger] out@[k]).0@
                != (#[trigger] out@[l]).0@ by {
                let a = src[k];
                let b = src[l];
                if a < b {
                    assert(lex_lt(es[a].0, es[b].0));
                    lemma_lex_irreflexive(es[a].0);
                } else {
                    assert(lex_lt(es[b].0, es[a].0));
                    lemma_lex_irreflexive(es[b].0);
                }
            }
        }
        out
    }

    /// Every gesture, each once, grouped by model in increasing model name, each
    /// model's gestures by increasing creation time.
    pub fn listing_by_model<'a>(&'a self) -> (out: Vec<(&'a String, &'a StoredGesture<G>)>)
        requires
            self.well_formed(),
        ensures
            forall|k: int| 0 <= k < out@.len() ==> self.gesture((#[trigger] out@[k]).0@) == Some(*out@[k].1),
            forall|q: Seq<char>| #[trigger] self.gesture(q) is Some ==> exists|k: int|
                0 <= k < out@.len() && (#[trigger] out@[k]).0@ == q,
            forall|k: int, l: int| 0 <= k < l < out@.len() ==> (#[trigger] out@[k]).0@ != (#[trigger] out@[l]).0@,
            forall|k: int, l: int|
                0 <= k < l < out@.len() ==> model_then_creation(*(#[trigger] out@[k]).1, *(#[trigger] out@[l]).1),
    {
        let ghost es = self.listing();
        let n: usize = self.gestures.len();
        let mut models: SortedMap<()> = SortedMap::new();
        let mut i: usize = 0;
        while i < n
            invariant
                self.well_formed(),
                es == self.listing(),
                n == es.len(),
                i <= n,
                models.well_formed(),
                forall|idx: int| 0 <= idx < i ==> #[trigger] models.get_spec(es[idx].1.model_name@) is Some,
            decreases n - i,
        {
            let (_, g) = self.gestures.entry(i).unwrap();
            models.insert(g.model_name.clone(), ());
            i = i + 1;
        }
        let ghost ms = models.entries();
        let mm: usize = models.len();
        let mut out: Vec<(&'a String, &'a StoredGesture<G>)> = Vec::new();
        let ghost mut mi: Seq<int> = Seq::empty();
        let mut j: usize = 0;
        while j < mm
            invariant
                self.well_formed(),
                models.well_formed(),
                ms == models.entries(),
                mm == ms.len(),
                j <= mm,
                mi.len() == out@.len(),
                forall|k: int|
                    0 <= k < out@.len() ==> self.gesture((#[trigger] out@[k]).0@) == Some(*out@[k].1) && 0 <= mi[k]
                        < j && out@[k].1.model_name@ == ms[mi[k]].0,
                forall|t: int, q: Seq<char>|
                    0 <= t < j && (#[trigger] self.gesture(q) matches Some(g) && g.model_name@ == #[trigger] ms[t].0)
                        ==> exists|k: int| 0 <= k < out@.len() && (#[trigger] out@[k]).0@ == q,
                forall|k: int, l: int| 0 <= k < l < out@.len() ==> (#[trigger] out@[k]).0@ != (#[trigger] out@[l]).0@,
                ranked(out@, mi),
            decreases mm - j,
        {
            let (m, _) = models.entry(j).unwrap();
            let chunk = self.for_model(m.as_str());
            let ghost start = out@.len() as int;
            let ghost mi0 = mi;
            let ghost out0 = out@;
            let mut c: usize = 0;
            while c < chunk.len()
                invariant
                    self.well_formed(),
                    ms == models.entries(),
                    j < mm,
                    mm == ms.len(),
                    ms[j as int].0 == m@,
                    self.lists_by_creation(chunk@, Some(m@)),
                    c <= chunk@.len(),
                    out@.len() == start + c,
                    mi.len() == out@.len(),
                    mi.take(start) == mi0,
                    out@.take(start) == out0,
                    forall|d: int| 0 <= d < c ==> out@[start + d] == #[trigger] chunk@[d] && mi[start + d] == j,
                    forall|k: int|
                        0 <= k < out0.len() ==> self.gesture((#[trigger] out0[k]).0@) == Some(*out0[k].1) && 0 <= mi0[k]
                            < j && out0[k].1.model_name@ == ms[mi0[k]].0,
                    forall|k: int, l: int| 0 <= k < l < out0.len() ==> (#[trigger] out0[k]).0@ != (#[trigger] out0[l]).0@,
                    ranked(out0, mi0),
                    mi0.len() == out0.len(),
                    start == out0.len(),
                decreases chunk@.len() - c,
            {
                let e = chunk[c];
                let ghost before = out@;
                out.push(e);
                proof {
                    mi = mi.push(j as int);
                    assert(mi.take(start) =~= mi0);
                    assert(out@.take(start) =~= out0);
                    assert forall|d: int| 0 <= d < c + 1 implies out@[start + d] == #[trigger] chunk@[d] && mi[start
                        + d] == j by {
                        if d < c {
                            assert(out@[start + d] == before[start + d]);
                        }
                    }
                }
                c = c + 1;
            }
            proof {
                crate::keyed::lemma_lex_irreflexive(m@);
                assert forall|k: int|
                    0 <= k < out@.len() implies self.gesture((#[trigger] out@[k]).0@) == Some(*out@[k].1) && 0 <= mi[k]
                    < j + 1 && out@[k].1.model_name@ == ms[mi[k]].0 by {
                    if k < start {
                        assert(out@[k] == out0[k] && mi[k] == mi0[k]);
                    } else {
                        assert(out@[k] == chunk@[k - start]);
                    }
                }
                assert forall|t: int, q: Seq<char>|
                    0 <= t < j + 1 && (#[trigger] self.gesture(q) matches Some(g) && g.model_name@ == #[trigger] ms[t].0)
                    implies exists|k: int| 0 <= k < out@.len() && (#[trigger] out@[k]).0@ == q by {
                    if t < j {
                        let k = choose|k: int| 0 <= k < out0.len() && (#[trigger] out0[k]).0@ == q;
                        assert(out@[k] == out0[k]);
                    } else {
                        let d = choose|d: int| 0 <= d < chunk@.len() && (#[trigger] chunk@[d]).0@ == q;
                        assert(out@[start + d] == chunk@[d]);
                    }
                }
                assert forall|k: int, l: int| 0 <= k < l < out@.len() implies (#[trigger] out@[k]).0@
                    != (#[trigger] out@[l]).0@ by {
                    if l < start {
                        assert(out@[k] == out0[k] && out@[l] == out0[l]);
                    } else if k < start {
                        assert(out@[k] == out0[k]);
                        assert(out@[l] == chunk@[l - start]);
                        if out@[k].0@ == out@[l].0@ {
                            assert(ms[mi0[k]].0 == m@);
                            lemma_sorted_keys_at(ms, mi0[k], j as int);
                        }
                    } else {
                        assert(out@[k] == chunk@[k - start] && out@[l] == chunk@[l - start]);
                    }
                }
                assert(ranked(out@, mi)) by {
                    assert forall|k: int, l: int|
                        #![trigger out@[k], out@[l]]
                        #![trigger mi[k], mi[l]]
                        0 <= k < l < out@.len() implies mi[k] < mi[l] || (mi[k] == mi[l] && out@[k].1.created_at
                        <= out@[l].1.created_at) by {
                        if l < start {
                            assert(out@[k] == out0[k] && out@[l] == out0[l] && mi[k] == mi0[k] && mi[l] == mi0[l]);
                            assert(mi0[k] < mi0[l] || (mi0[k] == mi0[l] && out0[k].1.created_at <= out0[l].1.created_at));
                        } else if k < start {
                            assert(mi[k] == mi0[k]);
                            assert(out@[l] == chunk@[l - start]);
                            assert(mi[l] == j);
                            assert(out0[k] == out@[k]);
                            assert(self.gesture(out0[k].0@) == Some(*out0[k].1));
                            assert(mi0[k] < j);
                        } else {
                            assert(out@[k] == chunk@[k - start] && out@[l] == chunk@[l - start]);
                            assert(mi[k] == j && mi[l] == j);
                            assert(chunk@[k - start].1.created_at <= chunk@[l - start].1.created_at);
                        }
                    }
                }
            }
            j = j + 1;
        }
        proof {
            assert forall|q: Seq<char>| #[trigger] self.gesture(q) is Some implies exists|k: int|
                0 <= k < out@.len() && (#[trigger] out@[k]).0@ == q by {
                let g = self.gesture(q)->0;
                lemma_present_has_index(self.gestures, q);
                let idx = choose|idx: int| 0 <= idx < es.len() && es[idx].0 == q;
                crate::keyed::lemma_lookup_at(es, idx);
                assert(models.get_spec(es[idx].1.model_name@) is Some);
                lemma_present_has_index(models, g.model_name@);
                let t = choose|t: int| 0 <= t < ms.len() && ms[t].0 == g.model_name@;
                assert(self.gesture(q) matches Some(g2) && g2.model_name@ == ms[t].0);
            }
            assert forall|k: int, l: int| 0 <= k < l < out@.len() implies model_then_creation(
                *(#[trigger] out@[k]).1,
                *(#[trigger] out@[l]).1,
            ) by {
                assert(self.gesture(out@[k].0@) == Some(*out@[k].1));
                assert(self.gesture(out@[l].0@) == Some(*out@[l].1));
                assert(0 <= mi[k] < mm && out@[k].1.model_name@ == ms[mi[k]].0);
                assert(0 <= mi[l] < mm && out@[l].1.model_name@ == ms[mi[l]].0);
                if mi[k] < mi[l] {
                    lemma_sorted_keys_at(ms, mi[k], mi[l]);
                }
            }
        }
        out
    }

    /// Remove every gesture registered with `model_name`; how many were removed.
    pub fn remove_model(&mut self, model_name: &str) -> (removed: usize)
        requires
            old(self).well_formed(),
        ensures
            final(self).well_formed(),
            final(self).size() == old(self).size() - removed,
            forall|q: Seq<char>| #[trigger] final(self).gesture(q) == if (old(self).gesture(q) matches Some(g)
                && g.model_name@ == model_name@) {
                None
            } else {
                old(self).gesture(q)
            },
    {
        let mut models: SortedMap<()> = SortedMap::new();
        let ghost empty = models;
        proof {
            assert forall|m: Seq<char>| #[trigger] empty.get_spec(m) is None by {
                assert(empty.entries().len() == 0);
            }
        }
        models.insert(String::from_str(model_name), ());
        let ghost before = *self;
        let removed = self.remove_models(&models);
        proof {
            assert forall|q: Seq<char>| #[trigger] self.gesture(q) == if (before.gesture(q) matches Some(g)
                && g.model_name@ == model_name@) {
                None
            } else {
                before.gesture(q)
            } by {
                assert(of_models(before.gesture(q), models) == (before.gesture(q) matches Some(g) && g.model_name@
                    == model_name@));
            }
        }
        removed
    }

    /// Remove every gesture; how many there were.
    pub fn clear(&mut self) -> (removed: usize)
        requires
            old(self).well_formed(),
        ensures
            final(self).well_formed(),
            removed == old(self).size(),
            final(self).size() == 0,
            forall|q: Seq<char>| #[trigger] final(self).gesture(q) is None,
    {
        let removed: usize = self.gestures.len();
        *self = GestureStore::new();
        removed
    }

    /// The gestures registered for `model_name`, by increasing creation time.
    pub fn for_model<'a>(&'a self, model_name: &str) -> (out: Vec<(&'a String, &'a StoredGesture<G>)>)
        requires
            self.well_formed(),
        ensures
            self.lists_by_creation(out@, Some(model_name@)),
    {
        self.gestures_by_creation(Some(model_name))
    }

    /// The gestures of `model` (all when none is named) as a bundle exported at `now`.
    pub fn export<'a>(&'a self, model: Option<&str>, now: u64) -> (b: GestureExport<'a, G>)
        requires
            self.well_formed(),
        ensures
            b.version == BUNDLE_VERSION,
            b.exported_at == now,
            self.lists_by_creation(b.gestures@, opt_text(model)),
    {
        GestureExport { version: BUNDLE_VERSION, exported_at: now, gestures: self.gestures_by_creation(model) }
    }

    /// The gesture named `name`, to change in place. A gesture of that name
    /// registered for another model is replaced, as is a missing one, by a fresh
    /// gesture of `model_name` created at `now` whose payload is `fresh`.
    pub fn get_mut_or_insert(&mut self, name: &str, model_name: &str, now: u64, fresh: G) -> (g: &mut StoredGesture<G>)
        requires
            old(self).well_formed(),
        ensures
            match old(self).gesture(name@) {
                Some(x) if x.model_name@ == model_name@ => *g == x,
                _ => g.model_name@ == model_name@ && g.created_at == now && g.payload == fresh,
            },
            final(self).well_formed(),
            forall|q: Seq<char>| #[trigger] final(self).gesture(q) == if q == name@ {
                Some(*final(g))
            } else {
                old(self).gesture(q)
            },
    {
        let keep: bool = match self.gestures.get(name) {
            Some(x) => crate::text::chars_eq(&crate::text::to_chars(x.model_name.as_str()), model_name),
            None => false,
        };
        if !keep {
            let g = StoredGesture { model_name: String::from_str(model_name), created_at: now, payload: fresh };
            self.gestures.insert(String::from_str(name), g);
        }
        self.gestures.get_mut(name)
    }
}

impl<G> GestureStore<G> {
    /// Import a bundle of `version`. Refused, with nothing changed: another version,
    /// a gesture with a blank name or model, or vectors that do not have the
    /// gesture's dimension. With `replace`, the gestures of every model in the bundle
    /// are removed first; then each bundle gesture is stored under its name (a later
    /// one of the same name wins).
    pub fn import(&mut self, items: Vec<ImportItem<G>>, version: u32, replace: bool) -> (r: Result<
        ImportReport,
        JepaError,
    >)
        requires
            old(self).well_formed(),
        ensures
            final(self).well_formed(),
            r is Ok <==> bundle_ok(items@, version),
            r is Err ==> *final(self) == *old(self),
            match import_error(items@, version) {
                Some(m) => r matches Err(JepaError::InvalidPayload(x)) && x@ == m,
                None => r is Ok,
            },
            r matches Ok(rep) ==> {
                &&& rep.imported == items@.len()
                &&& strictly_sorted(names(rep.models@))
                &&& forall|m: Seq<char>| #[trigger] names(rep.models@).contains(m) <==> bundle_has_model(items@, m)
                &&& rep.removed == if replace {
                    bundle_doomed(old(self).listing(), items@).len()
                } else {
                    0
                }
                &&& forall|q: Seq<char>| #[trigger] final(self).gesture(q) == match last_named(items@, q) {
                    Some(i) => Some(stored(items@[i])),
                    None => if replace && in_bundle_models(old(self).gesture(q), items@) {
                        None
                    } else {
                        old(self).gesture(q)
                    },
                }
            },
    {
        let ghost orig = items@;
        if version != BUNDLE_VERSION {
            let msg: String = String::from_str("Unsupported bundle version ").concat(decimal(version as u64).as_str()).concat(
                " (expected 1)",
            );
            return Err(JepaError::InvalidPayload(msg));
        }
        let ghost start = *self;
        let mut i: usize = 0;
        while i < items.len()
            invariant
                items@ == orig,
                version == BUNDLE_VERSION,
                *self == start,
                start == *old(self),
                start.well_formed(),
                i <= orig.len(),
                forall|j: int| 0 <= j < i ==> item_ok(#[trigger] orig[j]),
            decreases orig.len() - i,
        {
            let it: &ImportItem<G> = &items[i];
            proof {
                lemma_items_error_skip(orig, i as int);
            }
            if trimmed_is_empty(it.name.as_str()) || trimmed_is_empty(it.model_name.as_str()) {
                return Err(
                    JepaError::InvalidPayload(String::from_str("Gesture name and model_name must not be empty")),
                );
            }
            let mut consistent: bool = it.prototype_len == it.dimension;
            let mut k: usize = 0;
            while k < it.sample_lens.len()
                invariant
                    k <= it.sample_lens@.len(),
                    consistent == (it.prototype_len == it.dimension && forall|t: int|
                        0 <= t < k ==> #[trigger] it.sample_lens@[t] == it.dimension),
                decreases it.sample_lens@.len() - k,
            {
                if it.sample_lens[k] != it.dimension {
                    consistent = false;
                }
                k = k + 1;
            }
            if !consistent {
                let msg: String = String::from_str("Gesture '").concat(it.name.as_str()).concat(
                    "' has inconsistent dimensions",
                );
                return Err(JepaError::InvalidPayload(msg));
            }
            i = i + 1;
        }
        proof {
            lemma_items_error_skip(orig, orig.len() as int);
        }
        let mut models: SortedMap<()> = SortedMap::new();
        let mut j: usize = 0;
        while j < items.len()
            invariant
                items@ == orig,
                j <= orig.len(),
                models.well_formed(),
                forall|m: Seq<char>| #[trigger] models.get_spec(m) is Some <==> bundle_has_model(orig.take(j as int), m),
            decreases orig.len() - j,
        {
            models.insert(items[j].model_name.clone(), ());
            proof {
                assert forall|m: Seq<char>| #[trigger] models.get_spec(m) is Some <==> bundle_has_model(
                    orig.take(j + 1),
                    m,
                ) by {
                    let t = orig.take(j + 1);
                    if bundle_has_model(t, m) {
                        let w = choose|w: int| 0 <= w < t.len() && #[trigger] t[w].model_name@ == m;
                        if w < j {
                            assert(orig.take(j as int)[w] == t[w]);
                        }
                    }
                    if m == orig[j as int].model_name@ {
                        assert(t[j as int].model_name@ == m);
                    } else if bundle_has_model(orig.take(j as int), m) {
                        let w = choose|w: int| 0 <= w < j && #[trigger] orig.take(j as int)[w].model_name@ == m;
                        assert(t[w] == orig.take(j as int)[w]);
                    }
                }
            }
            j = j + 1;
        }
        proof {
            assert(orig.take(orig.len() as int) =~= orig);
        }
        let ghost before = *self;
        let removed: usize = if replace {
            let n: usize = self.remove_models(&models);
            proof {
                lemma_same_doomed(before.listing(), models, orig);
            }
            n
        } else {
            0
        };
        let ghost mid = *self;
        proof {
            assert forall|q: Seq<char>| #[trigger] mid.gesture(q) == if replace && in_bundle_models(before.gesture(q), orig) {
                None
            } else {
                before.gesture(q)
            } by {
                if replace {
                    assert(of_models(before.gesture(q), models) == in_bundle_models(before.gesture(q), orig));
                }
            }
        }
        let imported: usize = items.len();
        let mut rest: Vec<ImportItem<G>> = items;
        let mut k: usize = 0;
        while rest.len() > 0
            invariant
                self.well_formed(),
                k <= orig.len(),
                rest@ == orig.skip(k as int),
                rest@.len() == orig.len() - k,
                imported == orig.len(),
                forall|q: Seq<char>| #[trigger] self.gesture(q) == match last_named(orig.take(k as int), q) {
                    Some(i) => Some(stored(orig[i])),
                    None => mid.gesture(q),
                },
            decreases rest@.len(),
        {
            let it: ImportItem<G> = rest.remove(0);
            proof {
                assert(it == orig[k as int]);
                assert(orig.take(k + 1).drop_last() =~= orig.take(k as int));
                assert(orig.skip(k + 1) =~= orig.skip(k as int).drop_first());
            }
            let ghost item = it;
            let name: String = it.name;
            let g = StoredGesture { model_name: it.model_name, created_at: it.created_at, payload: it.payload };
            assert(g == stored(item));
            self.insert(name, g);
            k = k + 1;
        }
        proof {
            assert(orig.take(orig.len() as int) =~= orig);
        }
        let mut listed: Vec<String> = Vec::new();
        let count: usize = models.len();
        let mut t: usize = 0;
        while t < count
            invariant
                models.well_formed(),
                count == models.entries().len(),
                t <= count,
                names(listed@) == models.entries().take(t as int).map_values(|e: (Seq<char>, ())| e.0),
            decreases count - t,
        {
            match models.entry(t) {
                Some(e) => {
                    let ghost before_list = listed@;
                    let ghost key = e.0@;
                    listed.push(e.0.clone());
                    proof {
                        assert(models.entries()[t as int].0 == key);
                        assert(names(listed@) =~= names(before_list).push(key));
                        assert(models.entries().take(t + 1) =~= models.entries().take(t as int).push(
                            models.entries()[t as int],
                        ));
                        assert(models.entries().take(t + 1).map_values(|e: (Seq<char>, ())| e.0) =~= models.entries().take(
                            t as int,
                        ).map_values(|e: (Seq<char>, ())| e.0).push(key));
                    }
                },
                None => {},
            }
            t = t + 1;
        }
        proof {
            let es = models.entries();
            assert(es.take(count as int) =~= es);
            let ks = names(listed@);
            assert forall|m: Seq<char>| #[trigger] ks.contains(m) <==> bundle_has_model(orig, m) by {
                if ks.contains(m) {
                    let w = choose|w: int| 0 <= w < ks.len() && ks[w] == m;
                    crate::keyed::lemma_lookup_at(es, w);
                }
                if bundle_has_model(orig, m) {
                    assert(models.get_spec(m) is Some);
                    lemma_present_has_index(models, m);
                    let w = choose|w: int| 0 <= w < es.len() && es[w].0 == m;
                    assert(ks[w] == m);
                }
            }
            assert forall|a: int, b: int| 0 <= a < b < ks.len() implies lex_lt(#[trigger] ks[a], #[trigger] ks[b]) by {
                assert(ks[a] == es[a].0 && ks[b] == es[b].0);
            }
        }
        Ok(ImportReport { imported, removed, models: listed })
    }
}

/// Why a bundle gesture is refused: a blank name or model, or vectors that do not
/// have its dimension; none when it is accepted.
pub open spec fn item_error<G>(it: ImportItem<G>) -> Option<Seq<char>> {
    if is_blank(it.name@) || is_blank(it.model_name@) {
        Some("Gesture name and model_name must not be empty"@)
    } else if !item_ok(it) {
        Some("Gesture '"@ + it.name@ + "' has inconsistent dimensions"@)
    } else {
        None
    }
}

/// Why the first refused gesture of `items` from `from` on is refused.
pub open spec fn items_error<G>(items: Seq<ImportItem<G>>, from: int) -> Option<Seq<char>>
    decreases items.len() - from,
{
    if from < 0 || from >= items.len() {
        None
    } else {
        match item_error(items[from]) {
            Some(m) => Some(m),
            None => items_error(items, from + 1),
        }
    }
}

/// Why a bundle of `version` is refused: another version, else its first refused
/// gesture; none when it is accepted.
pub open spec fn import_error<G>(items: Seq<ImportItem<G>>, version: u32) -> Option<Seq<char>> {
    if version != BUNDLE_VERSION {
        Some("Unsupported bundle version "@ + spec_decimal(version as nat) + " (expected 1)"@)
    } else {
        items_error(items, 0)
    }
}

/// Accepted gestures before `i` do not decide the first refusal.
proof fn lemma_items_error_skip<G>(items: Seq<ImportItem<G>>, i: int)
    requires
        0 <= i <= items.len(),
        forall|j: int| 0 <= j < i ==> item_ok(#[trigger] items[j]),
    ensures
        items_error(items, 0) == items_error(items, i),
    decreases i,
{
    if i > 0 {
        lemma_items_error_skip(items, i - 1);
        assert(item_ok(items[i - 1]));
        assert(item_error(items[i - 1]) is None);
    }
}

/// The bundle is accepted.
pub open spec fn bundle_ok<G>(items: Seq<ImportItem<G>>, version: u32) -> bool {
    version == BUNDLE_VERSION && forall|i: int| 0 <= i < items.len() ==> item_ok(#[trigger] items[i])
}

/// The registry entry a bundle gesture becomes.
pub open spec fn stored<G>(it: ImportItem<G>) -> StoredGesture<G> {
    StoredGesture { model_name: it.model_name, created_at: it.created_at, payload: it.payload }
}

/// `g` is a gesture of one of the bundle's models.
pub open spec fn in_bundle_models<G>(g: Option<StoredGesture<G>>, items: Seq<ImportItem<G>>) -> bool {
    match g {
        Some(x) => bundle_has_model(items, x.model_name@),
        None => false,
    }
}

/// The names, in order, of the gestures of `s` of one of the bundle's models.
pub open spec fn bundle_doomed<G>(s: Seq<(Seq<char>, StoredGesture<G>)>, items: Seq<ImportItem<G>>) -> Seq<Seq<char>>
    decreases s.len(),
{
    if s.len() == 0 {
        Seq::empty()
    } else {
        let prev = bundle_doomed(s.drop_last(), items);
        if bundle_has_model(items, s.last().1.model_name@) {
            prev.push(s.last().0)
        } else {
            prev
        }
    }
}

proof fn lemma_same_doomed<G>(s: Seq<(Seq<char>, StoredGesture<G>)>, models: SortedMap<()>, items: Seq<ImportItem<G>>)
    requires
        forall|m: Seq<char>| #[trigger] models.get_spec(m) is Some <==> bundle_has_model(items, m),
    ensures
        doomed_keys(s, models) == bundle_doomed(s, items),
    decreases s.len(),
{
    if s.len() > 0 {
        lemma_same_doomed(s.drop_last(), models, items);
        assert(models.get_spec(s.last().1.model_name@) is Some <==> bundle_has_model(items, s.last().1.model_name@));
    }
}

/// The names of a list of names.
pub open spec fn names(v: Seq<String>) -> Seq<Seq<char>> {
    v.map_values(|s: String| s@)
}

/// The names, in order, of the gestures of `s` whose model is in `models`.
pub open spec fn doomed_keys<G>(s: Seq<(Seq<char>, StoredGesture<G>)>, models: SortedMap<()>) -> Seq<Seq<char>>
    decreases s.len(),
{
    if s.len() == 0 {
        Seq::empty()
    } else {
        let prev = doomed_keys(s.drop_last(), models);
        if models.get_spec(s.last().1.model_name@) is Some {
            prev.push(s.last().0)
        } else {
            prev
        }
    }
}

/// Each doomed name is the name of a gesture of those models.
proof fn lemma_doomed_elem<G>(s: Seq<(Seq<char>, StoredGesture<G>)>, models: SortedMap<()>, t: int) -> (j: int)
    requires
        0 <= t < doomed_keys(s, models).len(),
    ensures
        0 <= j < s.len(),
        s[j].0 == doomed_keys(s, models)[t],
        models.get_spec(s[j].1.model_name@) is Some,
    decreases s.len(),
{
    let init = s.drop_last();
    let p = doomed_keys(init, models);
    if t < p.len() {
        let j = lemma_doomed_elem(init, models, t);
        assert(s[j] == init[j]);
        j
    } else {
        (s.len() - 1) as int
    }
}

/// Each gesture of those models is doomed.
proof fn lemma_doomed_covers<G>(s: Seq<(Seq<char>, StoredGesture<G>)>, models: SortedMap<()>, j: int) -> (t: int)
    requires
        0 <= j < s.len(),
        models.get_spec(s[j].1.model_name@) is Some,
    ensures
        0 <= t < doomed_keys(s, models).len(),
        doomed_keys(s, models)[t] == s[j].0,
    decreases s.len(),
{
    let init = s.drop_last();
    let p = doomed_keys(init, models);
    if j < s.len() - 1 {
        assert(s[j] == init[j]);
        lemma_doomed_covers(init, models, j)
    } else {
        p.len() as int
    }
}

proof fn lemma_doomed_sorted<G>(s: Seq<(Seq<char>, StoredGesture<G>)>, models: SortedMap<()>)
    requires
        crate::keyed::sorted_keys(s),
    ensures
        forall|t: int, u: int|
            0 <= t < u < doomed_keys(s, models).len() ==> lex_lt(
                #[trigger] doomed_keys(s, models)[t],
                #[trigger] doomed_keys(s, models)[u],
            ),
    decreases s.len(),
{
    if s.len() > 0 {
        let init = s.drop_last();
        assert(crate::keyed::sorted_keys(init)) by {
            assert forall|i: int, j: int| 0 <= i < j < init.len() implies lex_lt(#[trigger] init[i].0, #[trigger] init[j].0) by {
                assert(init[i] == s[i] && init[j] == s[j]);
            }
        }
        lemma_doomed_sorted(init, models);
        let d = doomed_keys(s, models);
        let p = doomed_keys(init, models);
        assert forall|t: int, u: int| 0 <= t < u < d.len() implies lex_lt(#[trigger] d[t], #[trigger] d[u]) by {
            if u < p.len() {
                assert(d[t] == p[t] && d[u] == p[u]);
            } else {
                assert(d[t] == p[t]);
                let j = lemma_doomed_elem(init, models, t);
                assert(s[j] == init[j]);
                assert(lex_lt(s[j].0, s[s.len() - 1].0));
            }
        }
    }
}

/// A key with a value sits at some index.
proof fn lemma_present_has_index<V>(m: SortedMap<V>, q: Seq<char>)
    requires
        m.get_spec(q) is Some,
    ensures
        exists|j: int| 0 <= j < m.entries().len() && m.entries()[j].0 == q,
{
    crate::keyed::lemma_find_some(m.entries(), q, 0);
}

/// Why a sample of `len` values cannot be added to a gesture of dimension `current`
/// (zero before its first sample), if it cannot.
pub open spec fn spec_sample_refusal(current: nat, len: nat) -> Option<Seq<char>> {
    if len == 0 {
        Some("Empty embedding"@)
    } else if current != 0 && current != len {
        Some("Embedding dimension "@ + spec_decimal(len) + " does not match gesture dimension "@ + spec_decimal(
            current,
        ))
    } else {
        None
    }
}

/// The dimension of a gesture after adding a sample of `len` values to it: refused
/// for an empty sample and for one whose length differs from the samples it has.
pub fn sample_dimension(current: usize, len: usize) -> (r: Result<usize, JepaError>)
    ensures
        r is Ok <==> spec_sample_refusal(current as nat, len as nat) is None,
        r matches Ok(d) ==> d == len,
        r matches Err(e) ==> e matches JepaError::InvalidPayload(m) && Some(m@) == spec_sample_refusal(
            current as nat,
            len as nat,
        ),
{
    if len == 0 {
        return Err(JepaError::InvalidPayload(String::from_str("Empty embedding")));
    }
    if current != 0 && current != len {
        let msg: String = String::from_str("Embedding dimension ").concat(decimal(len as u64).as_str()).concat(
            " does not match gesture dimension ",
        ).concat(decimal(current as u64).as_str());
        return Err(JepaError::InvalidPayload(msg));
    }
    Ok(len)
}

} // verus!

//! Finding models in the local catalog: names as the API receives them, the
//! alternate `org:name` / `org/name` spelling, and lookups by name or repository.

use vstd::prelude::*;

use crate::api::unescape_slashes;
use crate::config::{colons_to_slashes, join_path, path_join, spec_resolve, texts, RuntimeConfig};
use crate::manifest::{get_verified_manifests, ManifestView, ModelManifest};
use crate::text::{chars_eq, last_index_of, lemma_last_index, lemma_no_index, to_chars};

verus! {

/// The other spelling of a model directory: colons become slashes; else the last
/// slash becomes a colon; else the name itself.
pub open spec fn spec_alternate_name(s: Seq<char>) -> Seq<char> {
    if s.contains(':') {
        colons_to_slashes(s)
    } else {
        match last_index_of(s, '/') {
            Some(i) => s.take(i) + seq![':'] + s.skip(i + 1),
            None => s,
        }
    }
}

/// The other spelling of a model directory name.
pub fn alternate_name(s: &str) -> (r: String)
    ensures
        r@ == spec_alternate_name(s@),
{
    proof {
        reveal_strlit("/");
        reveal_strlit(":");
    }
    let c: Vec<char> = to_chars(s);
    let n: usize = c.len();
    let mut colon: bool = false;
    let mut last_slash: Option<usize> = None;
    let mut i: usize = 0;
    while i < n
        invariant
            n == c@.len(),
            c@ == s@,
            i <= n,
            colon == exists|j: int| 0 <= j < i && c@[j] == ':',
            last_slash matches Some(k) ==> k < i && c@[k as int] == '/' && forall|j: int| k < j < i ==> c@[j] != '/',
            last_slash is None ==> forall|j: int| 0 <= j < i ==> c@[j] != '/',
        decreases n - i,
    {
        if c[i] == ':' {
            colon = true;
        }
        if c[i] == '/' {
            last_slash = Some(i);
        }
        i = i + 1;
    }
    if colon {
        let mut out: String = String::new();
        let mut start: usize = 0;
        let mut k: usize = 0;
        while k < n
            invariant
                n == c@.len(),
                c@ == s@,
                start <= k <= n,
                out@ + s@.subrange(start as int, k as int) == colons_to_slashes(s@.subrange(0, k as int)),
            decreases n - k,
        {
            proof {
                reveal_strlit("/");
            }
            if c[k] == ':' {
                let seg: &str = s.substring_char(start, k);
                let ghost before = out@;
                out.append(seg);
                out.append("/");
                proof {
                    assert(colons_to_slashes(s@.subrange(0, k + 1)) =~= colons_to_slashes(s@.subrange(0, k as int)).push(
                        '/',
                    ));
                    assert(out@ =~= before + s@.subrange(start as int, k as int) + seq!['/']);
                    assert(s@.subrange(k + 1, k + 1) =~= Seq::<char>::empty());
                }
                start = k + 1;
            } else {
                proof {
                    assert(colons_to_slashes(s@.subrange(0, k + 1)) =~= colons_to_slashes(s@.subrange(0, k as int)).push(
                        s@[k as int],
                    ));
                    assert(s@.subrange(start as int, k + 1) =~= s@.subrange(start as int, k as int).push(s@[k as int]));
                }
            }
            k = k + 1;
        }
        let tail: &str = s.substring_char(start, n);
        let ghost before = out@;
        out.append(tail);
        proof {
            assert(out@ =~= before + s@.subrange(start as int, n as int));
            assert(s@.subrange(0, n as int) =~= s@);
            let j = choose|j: int| 0 <= j < n && c@[j] == ':';
            assert(s@.contains(':'));
        }
        out
    } else {
        proof {
            assert(!s@.contains(':'));
        }
        match last_slash {
            Some(k) => {
                let head: &str = s.substring_char(0, k);
                let rest: &str = s.substring_char(k + 1, n);
                proof {
                    lemma_last_index(s@, '/', k as int);
                    assert(head@ =~= s@.take(k as int));
                    assert(rest@ =~= s@.skip(k + 1));
                }
                String::from_str(head).concat(":").concat(rest)
            },
            None => {
                proof {
                    lemma_no_index(s@, '/');
                }
                String::from_str(s)
            },
        }
    }
}

/// Index of the first manifest named or published as `q`.
pub open spec fn find_model(list: Seq<ManifestView>, q: Seq<char>, from: int) -> Option<int>
    decreases list.len() - from,
{
    if from < 0 || from >= list.len() {
        None
    } else if list[from].name == q || list[from].repo_id == q {
        Some(from)
    } else {
        find_model(list, q, from + 1)
    }
}

proof fn lemma_find_model_from(list: Seq<ManifestView>, q: Seq<char>, from: int)
    requires
        0 <= from <= list.len(),
    ensures
        match find_model(list, q, from) {
            Some(i) => {
                &&& from <= i < list.len()
                &&& (list[i].name == q || list[i].repo_id == q)
                &&& forall|j: int| from <= j < i ==> list[j].name != q && list[j].repo_id != q
            },
            None => forall|j: int| from <= j < list.len() ==> list[j].name != q && list[j].repo_id != q,
        },
    decreases list.len() - from,
{
    if from < list.len() {
        lemma_find_model_from(list, q, from + 1);
    }
}

/// A manifest is found by its name or by its repository id alike: the lookup gives
/// the first entry of the list whose name or repository id is `q`, and gives nothing
/// only when no entry has `q` as name or as repository id.
pub proof fn lemma_find_manifest_first_match(list: Seq<ModelManifest>, q: Seq<char>)
    ensures
        match find_model(manifest_views(list), q, 0) {
            Some(i) => {
                &&& 0 <= i < list.len()
                &&& (list[i]@.name == q || list[i]@.repo_id == q)
                &&& forall|j: int| 0 <= j < i ==> list[j]@.name != q && list[j]@.repo_id != q
            },
            None => forall|j: int| 0 <= j < list.len() ==> list[j]@.name != q && list[j]@.repo_id != q,
        },
{
    let v = manifest_views(list);
    lemma_find_model_from(v, q, 0);
    assert(v.len() == list.len());
    assert forall|j: int| #![trigger list[j]] 0 <= j < list.len() implies v[j] == list[j]@ by {}
    match find_model(v, q, 0) {
        Some(i) => {
            assert(v[i] == list[i]@);
            assert forall|j: int| 0 <= j < i implies list[j]@.name != q && list[j]@.repo_id != q by {
                assert(v[j] == list[j]@);
            }
        },
        None => {
            assert forall|j: int| 0 <= j < list.len() implies list[j]@.name != q && list[j]@.repo_id != q by {
                assert(v[j] == list[j]@);
            }
        },
    }
}

/// The views of a list of manifests.
pub open spec fn manifest_views(list: Seq<ModelManifest>) -> Seq<ManifestView> {
    list.map_values(|m: ModelManifest| m@)
}

/// Index of the first manifest of `list` named or published as `q`.
pub fn find_manifest(list: &Vec<ModelManifest>, q: &str) -> (r: Option<usize>)
    ensures
        r matches Some(i) ==> i < list@.len() && find_model(manifest_views(list@), q@, 0) == Some(i as int),
        r is None ==> find_model(manifest_views(list@), q@, 0) is None,
{
    let ghost v = manifest_views(list@);
    let mut i: usize = 0;
    while i < list.len()
        invariant
            v == manifest_views(list@),
            v.len() == list@.len(),
            i <= v.len(),
            find_model(v, q@, 0) == find_model(v, q@, i as int),
        decreases v.len() - i,
    {
        let name: Vec<char> = to_chars(list[i].name.as_str());
        let repo: Vec<char> = to_chars(list[i].repo_id.as_str());
        proof {
            assert(v[i as int] == list@[i as int]@);
        }
        if chars_eq(&name, q) || chars_eq(&repo, q) {
            return Some(i);
        }
        i = i + 1;
    }
    None
}

/// The manifest of `model_name` (an escaped slash `%2F` read as `/`): the first
/// installed model named or published under it, else the verified catalog's.
pub fn get_manifest(installed: &Vec<ModelManifest>, model_name: &str) -> (r: Option<ModelManifest>)
    ensures
        ({
            let q = unescape_slashes(model_name@);
            match find_model(manifest_views(installed@), q, 0) {
                Some(i) => r matches Some(m) && m@ == installed@[i]@,
                None => match find_model(crate::manifest::spec_catalog(), q, 0) {
                    Some(j) => r matches Some(m) && m@ == crate::manifest::spec_catalog()[j],
                    None => r is None,
                },
            }
        }),
{
    let clean: String = crate::api::unescape(model_name);
    if let Some(i) = find_manifest(installed, clean.as_str()) {
        proof {
            assert(manifest_views(installed@)[i as int] == installed@[i as int]@);
        }
        return Some(installed[i].duplicate());
    }
    let catalog: Vec<ModelManifest> = get_verified_manifests();
    proof {
        assert(manifest_views(catalog@) =~= crate::manifest::spec_catalog());
    }
    match find_manifest(&catalog, clean.as_str()) {
        Some(j) => {
            proof {
                assert(manifest_views(catalog@)[j as int] == catalog@[j as int]@);
            }
            Some(catalog[j].duplicate())
        },
        None => None,
    }
}

/// `x` and `m` share a name or a repository.
pub open spec fn same_model(x: ModelManifest, m: ModelManifest) -> bool {
    x.name@ == m.name@ || x.repo_id@ == m.repo_id@
}

/// Add `m` to the listing unless a model of the same name or repository is there.
pub fn add_if_new(models: &mut Vec<ModelManifest>, m: ModelManifest)
    ensures
        ({
            let clash = exists|i: int| 0 <= i < old(models)@.len() && same_model(#[trigger] old(models)@[i], m);
            final(models)@ == if clash {
                old(models)@
            } else {
                old(models)@.push(m)
            }
        }),
{
    let name: Vec<char> = to_chars(m.name.as_str());
    let repo: Vec<char> = to_chars(m.repo_id.as_str());
    let ghost ms = models@;
    let n: usize = models.len();
    let mut i: usize = 0;
    while i < n
        invariant
            n == ms.len(),
            models@ == ms,
            i <= n,
            name@ == m.name@,
            repo@ == m.repo_id@,
            forall|j: int| 0 <= j < i ==> !same_model(#[trigger] ms[j], m),
        decreases n - i,
    {
        let a: Vec<char> = to_chars(models[i].name.as_str());
        let b: Vec<char> = to_chars(models[i].repo_id.as_str());
        proof {
            assert(a@ == ms[i as int].name@);
            assert(b@ == ms[i as int].repo_id@);
            if a@.len() == name@.len() {
                assert(a@.subrange(0, name@.len() as int) =~= a@);
            }
            if b@.len() == repo@.len() {
                assert(b@.subrange(0, repo@.len() as int) =~= b@);
            }
        }
        if (a.len() == name.len() && crate::text::chars_match_at(&a, 0, m.name.as_str())) || (b.len() == repo.len()
            && crate::text::chars_match_at(&b, 0, m.repo_id.as_str())) {
            assert(same_model(ms[i as int], m));
            return;
        }
        assert(a@ != m.name@);
        assert(b@ != m.repo_id@);
        assert(!same_model(ms[i as int], m));
        i = i + 1;
    }
    models.push(m);
}

/// Where a model directory keeps its weights: `model.safetensors` under it, when it
/// resolves inside the models directory.
pub open spec fn weights_under(models_dir: Seq<char>, name: Seq<char>) -> Seq<Seq<char>> {
    match spec_resolve(models_dir, name) {
        Some(dir) => seq![path_join(dir, "model.safetensors"@)],
        None => Seq::empty(),
    }
}

/// The files that may hold the weights of `model_name` (an escaped slash read as
/// `/`), in the order they are tried: under its own directory, then under the
/// alternate spelling of the name.
pub open spec fn spec_weights_candidates(models_dir: Seq<char>, model_name: Seq<char>) -> Seq<Seq<char>> {
    let clean = unescape_slashes(model_name);
    weights_under(models_dir, clean) + weights_under(models_dir, spec_alternate_name(clean))
}

/// The files that may hold the weights of `model_name`, in the order they are tried;
/// the first that exists is the model's weights file. A spelling refused as a path
/// traversal contributes none.
pub fn weights_candidates(config: &RuntimeConfig, model_name: &str) -> (v: Vec<String>)
    ensures
        texts(v@) == spec_weights_candidates(config.models_dir@, model_name@),
{
    proof {
        reveal_strlit("model.safetensors");
    }
    let clean: String = crate::api::unescape(model_name);
    let alt: String = alternate_name(clean.as_str());
    let mut v: Vec<String> = Vec::new();
    if let Ok(dir) = config.safe_resolve_model_path(clean.as_str()) {
        v.push(join_path(dir.as_str(), "model.safetensors"));
    }
    let ghost first = v@;
    if let Ok(dir) = config.safe_resolve_model_path(alt.as_str()) {
        v.push(join_path(dir.as_str(), "model.safetensors"));
    }
    proof {
        let c = unescape_slashes(model_name@);
        assert(texts(first) =~= weights_under(config.models_dir@, c));
        assert(texts(v@) =~= weights_under(config.models_dir@, c) + weights_under(
            config.models_dir@,
            spec_alternate_name(c),
        ));
    }
    v
}

} // verus!

//! Storage layout, security constants, and the rule that keeps model identifiers
//! inside the models directory.

use vstd::prelude::*;

use crate::text::{to_chars, trim};
use crate::types::JepaError;

verus! {

pub const DEFAULT_HOST: &'static str = "127.0.0.1";

/// Model used by CLI commands when none is given.
pub const DEFAULT_MODEL: &'static str = "facebook/ijepa_vith14_1k";

pub const DEFAULT_PORT: u16 = 11435;

/// Maximum payload for single image embedding requests: 20 megabytes.
pub const MAX_IMAGE_PAYLOAD_SIZE: usize = 20 * 1024 * 1024;

/// Maximum payload for video file uploads: 200 megabytes.
pub const MAX_VIDEO_PAYLOAD_SIZE: usize = 200 * 1024 * 1024;

/// Temporal frames required for V-JEPA spatio-temporal representations.
pub const VJEPA_TEMPORAL_FRAMES: usize = 16;

/// `rel` appended to `dir` as `Path::join` does on Unix: an absolute `rel` replaces
/// `dir`, otherwise one separator is put between them unless `dir` is empty or
/// already ends with one.
pub open spec fn path_join(dir: Seq<char>, rel: Seq<char>) -> Seq<char> {
    if rel.len() > 0 && rel[0] == '/' {
        rel
    } else if dir.len() == 0 || dir.last() == '/' {
        dir + rel
    } else {
        dir + seq!['/'] + rel
    }
}

/// `rel` appended to `dir` as a path.
pub fn join_path(dir: &str, rel: &str) -> (p: String)
    ensures
        p@ == path_join(dir@, rel@),
{
    proof {
        reveal_strlit("/");
    }
    let r: Vec<char> = to_chars(rel);
    if r.len() > 0 && r[0] == '/' {
        return String::from_str(rel);
    }
    let d: Vec<char> = to_chars(dir);
    if d.len() == 0 || d[d.len() - 1] == '/' {
        String::from_str(dir).concat(rel)
    } else {
        String::from_str(dir).concat("/").concat(rel)
    }
}

/// Canonical runtime storage layout and network settings.
#[derive(Debug, Clone)]
pub struct RuntimeConfig {
    pub home_dir: String,
    pub models_dir: String,
    pub logs_dir: String,
    pub auth_token_path: String,
    pub keys_db_path: String,
    pub settings_path: String,
    /// Persisted few-shot gesture registry.
    pub gestures_path: String,
    pub host: String,
    pub port: u16,
    pub no_auth: bool,
    /// Browser origins allowed to call the API cross-site. Empty = same-origin only.
    pub cors_origins: Vec<String>,
}

/// `s` with every `:` turned into `/`.
pub open spec fn colons_to_slashes(s: Seq<char>) -> Seq<char> {
    s.map_values(|c: char| if c == ':' { '/' } else { c })
}

/// `s` without its trailing `/` characters.
pub open spec fn trim_trailing_slashes(s: Seq<char>) -> Seq<char>
    decreases s.len(),
{
    if s.len() > 0 && s.last() == '/' {
        trim_trailing_slashes(s.drop_last())
    } else {
        s
    }
}

/// Two consecutive dots occur in `s`.
pub open spec fn has_dotdot(s: Seq<char>) -> bool {
    exists|i: int| 0 <= i && i + 1 < s.len() && #[trigger] s[i] == '.' && s[i + 1] == '.'
}

/// `name` names no directory below the models directory: it is made of dots and
/// separators only (`""`, `"."`, `"./"`, ...).
pub open spec fn names_models_root(name: Seq<char>) -> bool {
    forall|i: int| 0 <= i < name.len() ==> (#[trigger] name[i] == '.' || name[i] == '/' || name[i] == ':')
}

/// Where `name` resolves under `models_dir`, or none when it is refused: it holds
/// `..`, it starts with `/` or `:` (an absolute path once colons become slashes),
/// or it resolves to the models directory itself.
pub open spec fn spec_resolve(models_dir: Seq<char>, name: Seq<char>) -> Option<Seq<char>> {
    if has_dotdot(name) {
        None
    } else if name.len() > 0 && (name[0] == '/' || name[0] == ':') {
        None
    } else if names_models_root(name) {
        None
    } else {
        Some(path_join(models_dir, trim_trailing_slashes(colons_to_slashes(name))))
    }
}

fn contains_dotdot(s: &Vec<char>) -> (r: bool)
    ensures
        r == has_dotdot(s@),
{
    if s.len() < 2 {
        return false;
    }
    let mut i: usize = 0;
    while i < s.len() - 1
        invariant
            s@.len() >= 2,
            i <= s@.len() - 1,
            forall|j: int| 0 <= j < i ==> !(#[trigger] s@[j] == '.' && s@[j + 1] == '.'),
        decreases s@.len() - i,
    {
        if s[i] == '.' && s[i + 1] == '.' {
            return true;
        }
        i = i + 1;
    }
    false
}

/// `s` with its colons turned into slashes and its trailing slashes dropped.
fn normalise_identifier(s: &str) -> (r: String)
    ensures
        r@ == trim_trailing_slashes(colons_to_slashes(s@)),
{
    proof {
        reveal_strlit("/");
    }
    let n: usize = s.unicode_len();
    let mut hi: usize = n;
    assert(s@.subrange(0, n as int) =~= s@);
    while hi > 0 && (s.get_char(hi - 1) == '/' || s.get_char(hi - 1) == ':')
        invariant
            n == s@.len(),
            hi <= n,
            trim_trailing_slashes(colons_to_slashes(s@)) == trim_trailing_slashes(
                colons_to_slashes(s@.subrange(0, hi as int)),
            ),
        decreases hi,
    {
        proof {
            let c = colons_to_slashes(s@.subrange(0, hi as int));
            assert(c.drop_last() =~= colons_to_slashes(s@.subrange(0, hi - 1)));
        }
        hi = hi - 1;
    }
    proof {
        let c = colons_to_slashes(s@.subrange(0, hi as int));
        if hi > 0 {
            assert(c.last() != '/');
        }
    }
    let mut out: String = String::new();
    let mut start: usize = 0;
    let mut i: usize = 0;
    while i < hi
        invariant
            n == s@.len(),
            hi <= n,
            start <= i <= hi,
            out@ + s@.subrange(start as int, i as int) == colons_to_slashes(s@.subrange(0, i as int)),
            forall|j: int| start <= j < i ==> s@[j] != ':',
        decreases hi - i,
    {
        proof {
            reveal_strlit("/");
        }
        if s.get_char(i) == ':' {
            let seg: &str = s.substring_char(start, i);
            out.append(seg);
            out.append("/");
            start = i + 1;
            proof {
                assert(colons_to_slashes(s@.subrange(0, i + 1)) =~= colons_to_slashes(s@.subrange(0, i as int)).push(
                    '/',
                ));
                assert(s@.subrange(start as int, i + 1) =~= Seq::<char>::empty());
            }
        } else {
            proof {
                assert(colons_to_slashes(s@.subrange(0, i + 1)) =~= colons_to_slashes(s@.subrange(0, i as int)).push(
                    s@[i as int],
                ));
                assert(s@.subrange(start as int, i + 1) =~= s@.subrange(start as int, i as int).push(s@[i as int]));
            }
        }
        i = i + 1;
    }
    let rest: &str = s.substring_char(start, hi);
    out.append(rest);
    proof {
        let sub = s@.subrange(start as int, hi as int);
        assert forall|k: int| 0 <= k < sub.len() implies #[trigger] sub[k] != ':' by {
            assert(sub[k] == s@[start + k]);
        }
        assert(sub =~= colons_to_slashes(sub));
    }
    out
}

impl RuntimeConfig {
    /// The layout under `home_dir`: `models/`, `logs/`, `auth.token`, `keys.json`,
    /// `settings.json` and `gestures.json`.
    pub fn init(home_dir: &str, host: String, port: u16, no_auth: bool) -> (c: Self)
        ensures
            c.home_dir@ == home_dir@,
            c.models_dir@ == path_join(home_dir@, "models"@),
            c.logs_dir@ == path_join(home_dir@, "logs"@),
            c.auth_token_path@ == path_join(home_dir@, "auth.token"@),
            c.keys_db_path@ == path_join(home_dir@, "keys.json"@),
            c.settings_path@ == path_join(home_dir@, "settings.json"@),
            c.gestures_path@ == path_join(home_dir@, "gestures.json"@),
            c.host@ == host@,
            c.port == port,
            c.no_auth == no_auth,
            c.cors_origins@.len() == 0,
    {
        RuntimeConfig {
            home_dir: String::from_str(home_dir),
            models_dir: join_path(home_dir, "models"),
            logs_dir: join_path(home_dir, "logs"),
            auth_token_path: join_path(home_dir, "auth.token"),
            keys_db_path: join_path(home_dir, "keys.json"),
            settings_path: join_path(home_dir, "settings.json"),
            gestures_path: join_path(home_dir, "gestures.json"),
            host,
            port,
            no_auth,
            cors_origins: Vec::new(),
        }
    }

    /// Resolve a model name or file under the models directory. Refused, as a path
    /// traversal: any `..`, and absolute references (a leading `/`, or a leading `:`,
    /// which becomes `/`). Colons become directory separators and trailing
    /// separators are dropped. (Whether an existing parent directory canonicalises
    /// inside the models directory is checked on the file system by the caller.)
    pub fn safe_resolve_model_path(&self, model_name_or_file: &str) -> (r: Result<String, JepaError>)
        ensures
            r is Ok <==> spec_resolve(self.models_dir@, model_name_or_file@) is Some,
            r matches Ok(p) ==> spec_resolve(self.models_dir@, model_name_or_file@) == Some(p@),
            r matches Err(e) ==> e is PathTraversal,
    {
        let chars: Vec<char> = to_chars(model_name_or_file);
        if contains_dotdot(&chars) {
            return Err(JepaError::PathTraversal(String::from_str("Identifier contains invalid sequence '..'")));
        }
        if chars.len() > 0 && (chars[0] == '/' || chars[0] == ':') {
            return Err(
                JepaError::PathTraversal(
                    String::from_str("Absolute path references not allowed in model identifier: ").concat(
                        model_name_or_file,
                    ),
                ),
            );
        }
        let mut only_dots: bool = true;
        let mut i: usize = 0;
        while i < chars.len()
            invariant
                i <= chars@.len(),
                only_dots == forall|j: int| 0 <= j < i ==> (#[trigger] chars@[j] == '.' || chars@[j] == '/' || chars@[j]
                    == ':'),
            decreases chars@.len() - i,
        {
            if chars[i] != '.' && chars[i] != '/' && chars[i] != ':' {
                only_dots = false;
            }
            i = i + 1;
        }
        if only_dots {
            return Err(
                JepaError::PathTraversal(
                    String::from_str("Model identifier resolves to the models directory itself: ").concat(
                        model_name_or_file,
                    ),
                ),
            );
        }
        let sanitized: String = normalise_identifier(model_name_or_file);
        proof {
            let c = colons_to_slashes(model_name_or_file@);
            lemma_trim_keeps_head(c);
            if c.len() > 0 {
                assert(c[0] != '/');
            }
        }
        Ok(join_path(self.models_dir.as_str(), sanitized.as_str()))
    }
}

proof fn lemma_trim_keeps_head(s: Seq<char>)
    ensures
        trim_trailing_slashes(s).len() <= s.len(),
        trim_trailing_slashes(s) == s.subrange(0, trim_trailing_slashes(s).len() as int),
    decreases s.len(),
{
    if s.len() > 0 && s.last() == '/' {
        lemma_trim_keeps_head(s.drop_last());
        assert(s.drop_last().subrange(0, trim_trailing_slashes(s).len() as int) =~= s.subrange(
            0,
            trim_trailing_slashes(s).len() as int,
        ));
    } else {
        assert(s.subrange(0, s.len() as int) =~= s);
    }
}

/// Trimming trailing slashes keeps every character up to the last non-slash.
proof fn lemma_trim_keeps_non_slash(s: Seq<char>, i: int)
    requires
        0 <= i < s.len(),
        s[i] != '/',
    ensures
        i < trim_trailing_slashes(s).len(),
    decreases s.len(),
{
    lemma_trim_keeps_head(s);
    if s.len() > 0 && s.last() == '/' {
        lemma_trim_keeps_non_slash(s.drop_last(), i);
    }
}

/// A name the resolver accepts stays strictly below the models directory: the result
/// is the directory, a separator where one is needed, and a relative path with no
/// `..` in it that names something other than the directory itself.
pub proof fn lemma_resolved_stays_inside(models_dir: Seq<char>, name: Seq<char>)
    requires
        spec_resolve(models_dir, name) is Some,
    ensures
        ({
            let rel = trim_trailing_slashes(colons_to_slashes(name));
            &&& !has_dotdot(rel)
            &&& rel.len() > 0
            &&& rel[0] != '/'
            &&& exists|i: int| 0 <= i < rel.len() && #[trigger] rel[i] != '.' && rel[i] != '/'
            &&& spec_resolve(models_dir, name)->0 == path_join(models_dir, rel)
            &&& spec_resolve(models_dir, name)->0.subrange(0, models_dir.len() as int) == models_dir
        }),
{
    let c = colons_to_slashes(name);
    let rel = trim_trailing_slashes(c);
    lemma_trim_keeps_head(c);
    if has_dotdot(rel) {
        let i = choose|i: int| 0 <= i && i + 1 < rel.len() && #[trigger] rel[i] == '.' && rel[i + 1] == '.';
        assert(rel[i] == c[i] && rel[i + 1] == c[i + 1]);
        assert(name[i] == '.' && name[i + 1] == '.');
        assert(has_dotdot(name));
    }
    let i = choose|i: int| 0 <= i < name.len() && !(#[trigger] name[i] == '.' || name[i] == '/' || name[i] == ':');
    assert(c[i] == name[i]);
    assert(c[i] != '/');
    lemma_trim_keeps_non_slash(c, i);
    assert(rel[i] == c[i]);
    assert(rel[0] == c[0]);
    let p = path_join(models_dir, rel);
    assert(p.subrange(0, models_dir.len() as int) =~= models_dir);
}

/// The bind address is the loopback interface.
pub open spec fn spec_is_loopback(host: Seq<char>) -> bool {
    host == "127.0.0.1"@ || host == "localhost"@
}

/// Whether `host` names the loopback interface.
pub fn is_loopback_host(host: &str) -> (r: bool)
    ensures
        r == spec_is_loopback(host@),
{
    let h: Vec<char> = to_chars(host);
    crate::text::chars_eq(&h, "127.0.0.1") || crate::text::chars_eq(&h, "localhost")
}

/// Authentication may only be turned off on a loopback bind.
pub fn no_auth_permitted(no_auth: bool, host: &str) -> (r: bool)
    ensures
        r == (!no_auth || spec_is_loopback(host@)),
{
    !no_auth || is_loopback_host(host)
}

/// The characters of each string.
pub open spec fn texts(s: Seq<String>) -> Seq<Seq<char>> {
    s.map_values(|x: String| x@)
}

/// Each string trimmed.
pub open spec fn trimmed_texts(s: Seq<String>) -> Seq<Seq<char>> {
    s.map_values(|x: String| crate::text::trimmed(x@))
}

/// Keep non-empty texts.
pub open spec fn non_empty() -> spec_fn(Seq<char>) -> bool {
    |t: Seq<char>| t.len() > 0
}

/// The allowed CORS origins: each trimmed, blanks dropped.
pub fn cors_origins_from(raw: &Vec<String>) -> (out: Vec<String>)
    ensures
        texts(out@) == trimmed_texts(raw@).filter(non_empty()),
{
    let ghost target = trimmed_texts(raw@);
    let mut out: Vec<String> = Vec::new();
    let mut i: usize = 0;
    while i < raw.len()
        invariant
            i <= raw@.len(),
            target == trimmed_texts(raw@),
            texts(out@) == target.take(i as int).filter(non_empty()),
        decreases raw@.len() - i,
    {
        let t: String = trim(raw[i].as_str());
        let ghost before = out@;
        proof {
            reveal(Seq::filter);
            assert(target.take(i + 1).drop_last() =~= target.take(i as int));
            assert(target.take(i + 1).last() == t@);
        }
        if t.unicode_len() > 0 {
            out.push(t);
            assert(texts(out@) =~= texts(before).push(target[i as int]));
        }
        i = i + 1;
    }
    assert(target.take(raw@.len() as int) =~= target);
    out
}

} // verus!

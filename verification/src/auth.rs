//! API keys: token generation, SHA-256 digests (tokens are only ever stored as
//! digests), constant-time lookup, expiry and role-based access control.

use vstd::prelude::*;

use crate::text::{chars_match_at, to_chars};
use crate::types::{CreateKeyRequest, JepaError, Role};

verus! {

/// Lower-case hexadecimal digits, by value.
pub open spec fn hex_digits() -> Seq<char> {
    seq!['0', '1', '2', '3', '4', '5', '6', '7', '8', '9', 'a', 'b', 'c', 'd', 'e', 'f']
}

/// Lower-case hexadecimal text of `b`: two digits per byte, high nibble first.
pub open spec fn spec_hex(b: Seq<u8>) -> Seq<char>
    decreases b.len(),
{
    if b.len() == 0 {
        Seq::empty()
    } else {
        spec_hex(b.drop_last()) + seq![hex_digits()[b.last() as int / 16], hex_digits()[b.last() as int % 16]]
    }
}

fn hex_char(n: u8) -> (s: &'static str)
    requires
        n < 16,
    ensures
        s@ == seq![hex_digits()[n as int]],
{
    proof {
        reveal_strlit("0");
        reveal_strlit("1");
        reveal_strlit("2");
        reveal_strlit("3");
        reveal_strlit("4");
        reveal_strlit("5");
        reveal_strlit("6");
        reveal_strlit("7");
        reveal_strlit("8");
        reveal_strlit("9");
        reveal_strlit("a");
        reveal_strlit("b");
        reveal_strlit("c");
        reveal_strlit("d");
        reveal_strlit("e");
        reveal_strlit("f");
    }
    let s: &'static str = match n {
        0 => "0",
        1 => "1",
        2 => "2",
        3 => "3",
        4 => "4",
        5 => "5",
        6 => "6",
        7 => "7",
        8 => "8",
        9 => "9",
        10 => "a",
        11 => "b",
        12 => "c",
        13 => "d",
        14 => "e",
        _ => "f",
    };
    assert(s@ =~= seq![hex_digits()[n as int]]);
    s
}

/// Lower-case hexadecimal encoding, as `hex::encode` produces it.
pub fn hex_encode(bytes: &[u8]) -> (s: String)
    ensures
        s@ == spec_hex(bytes@),
{
    let mut out: String = String::new();
    proof {
        assert(bytes@.take(0) =~= Seq::<u8>::empty());
    }
    let mut i: usize = 0;
    while i < bytes.len()
        invariant
            i <= bytes@.len(),
            out@ == spec_hex(bytes@.take(i as int)),
        decreases bytes@.len() - i,
    {
        let b: u8 = bytes[i];
        out.append(hex_char(b / 16));
        out.append(hex_char(b % 16));
        proof {
            assert(bytes@.take(i + 1).drop_last() =~= bytes@.take(i as int));
            assert(bytes@.take(i + 1).last() == b);
        }
        i = i + 1;
    }
    assert(bytes@.take(bytes@.len() as int) =~= bytes@);
    out
}

/// The SHA-256 digest of `data`.
pub uninterp spec fn sha256(data: Seq<u8>) -> Seq<u8>;

/// Calls `sha2::Sha256::digest`. The digest is named, not described (that would be
/// the whole algorithm); the claims are that it is a function of the input bytes
/// and that it is 32 bytes long.
#[verifier::external_body]
fn sha256_digest(data: &[u8]) -> (d: Vec<u8>)
    ensures
        d@ == sha256(data@),
        d@.len() == 32,
{
    <sha2::Sha256 as sha2::Digest>::digest(data).to_vec()
}

/// Calls `rand::random::<[u8; 32]>()`. The bytes come from the thread-local CSPRNG,
/// so only their number is claimed.
#[verifier::external_body]
fn random_token_bytes() -> (b: Vec<u8>)
    ensures
        b@.len() == 32,
{
    rand::random::<[u8; 32]>().to_vec()
}

/// Calls `subtle::ConstantTimeEq::ct_eq` on two byte slices and converts the `Choice`
/// to `bool`: true exactly when the slices have the same length and the same bytes
/// (the comparison of equal-length slices takes the same time whatever they hold).
#[verifier::external_body]
fn ct_eq_bytes(a: &[u8], b: &[u8]) -> (r: bool)
    ensures
        r == (a@ == b@),
{
    bool::from(<[u8] as subtle::ConstantTimeEq>::ct_eq(a, b))
}

/// Hex SHA-256 of the UTF-8 bytes of a token: what is stored in place of the token.
pub open spec fn spec_token_digest(raw: Seq<char>) -> Seq<char> {
    spec_hex(sha256(vstd::utf8::encode_utf8(raw)))
}

/// Every token starts with this.
pub open spec fn token_scheme() -> Seq<char> {
    "jepa_sec_"@
}

/// The first `n` characters of `s` (all of it when shorter).
pub open spec fn take_chars(s: Seq<char>, n: int) -> Seq<char> {
    if s.len() <= n {
        s
    } else {
        s.take(n)
    }
}

/// The first `n` characters of `s`.
pub fn take_prefix(s: &str, n: usize) -> (r: String)
    ensures
        r@ == take_chars(s@, n as int),
{
    let len: usize = s.unicode_len();
    if len <= n {
        String::from_str(s)
    } else {
        let head: &str = s.substring_char(0, n);
        assert(head@ =~= s@.take(n as int));
        String::from_str(head)
    }
}

/// A stored API key. `token_hash` is the hex SHA-256 of the token; times are
/// milliseconds since the Unix epoch.
#[derive(Debug, Clone)]
pub struct ApiKeyRecord {
    pub key_prefix: String,
    pub token_hash: String,
    pub role: Role,
    pub name: String,
    pub created_at_ms: i64,
    pub expires_at_ms: Option<i64>,
}

/// An [`ApiKeyRecord`] with its strings as characters.
pub struct KeyView {
    pub key_prefix: Seq<char>,
    pub token_hash: Seq<char>,
    pub role: Role,
    pub name: Seq<char>,
    pub created_at_ms: i64,
    pub expires_at_ms: Option<i64>,
}

impl View for ApiKeyRecord {
    type V = KeyView;

    open spec fn view(&self) -> KeyView {
        KeyView {
            key_prefix: self.key_prefix@,
            token_hash: self.token_hash@,
            role: self.role,
            name: self.name@,
            created_at_ms: self.created_at_ms,
            expires_at_ms: self.expires_at_ms,
        }
    }
}

impl ApiKeyRecord {
    /// A field-by-field copy.
    pub fn duplicate(&self) -> (r: Self)
        ensures
            r@ == self@,
    {
        ApiKeyRecord {
            key_prefix: self.key_prefix.clone(),
            token_hash: self.token_hash.clone(),
            role: self.role,
            name: self.name.clone(),
            created_at_ms: self.created_at_ms,
            expires_at_ms: self.expires_at_ms,
        }
    }
}

/// What [`AuthManager::create_key`] hands back: the only time the raw token is shown.
#[derive(Debug, Clone)]
pub struct CreateKeyResponse {
    pub key_prefix: String,
    pub raw_token: String,
    pub role: Role,
    pub name: String,
    pub created_at_ms: i64,
}

/// Index of the first key in `s` whose digest is `d`, searching from `from`.
pub open spec fn find_digest(s: Seq<KeyView>, d: Seq<char>, from: int) -> Option<int>
    decreases s.len() - from,
{
    if from < 0 || from >= s.len() {
        None
    } else if s[from].token_hash == d {
        Some(from)
    } else {
        find_digest(s, d, from + 1)
    }
}

/// `s` after storing `r` under its digest: it replaces the key with the same digest,
/// or is appended.
pub open spec fn upserted(s: Seq<KeyView>, r: KeyView) -> Seq<KeyView> {
    match find_digest(s, r.token_hash, 0) {
        Some(i) => s.update(i, r),
        None => s.push(r),
    }
}

/// No two keys share a digest.
pub open spec fn digests_unique(s: Seq<KeyView>) -> bool {
    forall|i: int, j: int| 0 <= i < j < s.len() ==> s[i].token_hash != s[j].token_hash
}

/// A per-millisecond day.
pub const MS_PER_DAY: i64 = 86_400_000;

/// The record a request is answered with when authentication is turned off.
pub open spec fn bypass_record(prefix: Seq<char>, hash: Seq<char>, name: Seq<char>, now_ms: i64) -> KeyView {
    KeyView {
        key_prefix: prefix,
        token_hash: hash,
        role: Role::Admin,
        name,
        created_at_ms: now_ms,
        expires_at_ms: None,
    }
}

/// Why a token is refused, or the record it grants.
pub enum KeyCheck {
    Granted(KeyView),
    Unknown,
    Expired,
    NotAdmin,
}

/// The outcome of presenting a token whose digest is `d` for an endpoint needing
/// `required` at time `now_ms`.
pub open spec fn spec_check_key(s: Seq<KeyView>, d: Seq<char>, required: Role, now_ms: i64) -> KeyCheck {
    match find_digest(s, d, 0) {
        None => KeyCheck::Unknown,
        Some(i) => if s[i].expires_at_ms matches Some(exp) && now_ms > exp {
            KeyCheck::Expired
        } else if required == Role::Admin && s[i].role != Role::Admin {
            KeyCheck::NotAdmin
        } else {
            KeyCheck::Granted(s[i])
        },
    }
}

proof fn lemma_find_digest_found(s: Seq<KeyView>, d: Seq<char>, from: int)
    requires
        find_digest(s, d, from) is Some,
    ensures
        from <= find_digest(s, d, from)->0 < s.len(),
        s[find_digest(s, d, from)->0].token_hash == d,
    decreases s.len() - from,
{
    if s[from].token_hash != d {
        lemma_find_digest_found(s, d, from + 1);
    }
}

proof fn lemma_find_digest_none(s: Seq<KeyView>, d: Seq<char>, from: int)
    requires
        0 <= from,
        forall|j: int| from <= j < s.len() ==> s[j].token_hash != d,
    ensures
        find_digest(s, d, from) is None,
    decreases s.len() - from,
{
    if from < s.len() {
        lemma_find_digest_none(s, d, from + 1);
    }
}

/// The keys of `s` as characters.
pub open spec fn key_views(s: Seq<ApiKeyRecord>) -> Seq<KeyView> {
    s.map_values(|r: ApiKeyRecord| r@)
}

/// Keep the keys whose prefix is not `p`.
pub open spec fn keep_unless(p: Seq<char>) -> spec_fn(KeyView) -> bool {
    |k: KeyView| k.key_prefix != p
}

/// `r` is what a token check answers: the bypass record when authentication is off,
/// else the outcome of [`spec_check_key`] on the token's digest.
pub open spec fn token_verdict(
    no_auth: bool,
    keys: Seq<KeyView>,
    candidate: Seq<char>,
    required: Role,
    now_ms: i64,
    r: Result<ApiKeyRecord, JepaError>,
) -> bool {
    if no_auth {
        r matches Ok(k) && k@ == bypass_record("no_auth"@, "no_auth"@, "Dev Loopback Bypass"@, now_ms)
    } else {
        match spec_check_key(keys, spec_token_digest(candidate), required, now_ms) {
            KeyCheck::Granted(k) => r matches Ok(g) && g@ == k,
            KeyCheck::Unknown => r matches Err(JepaError::AuthError(m)) && m@
                == "Invalid or missing Bearer authorization token"@,
            KeyCheck::Expired => r matches Err(JepaError::AuthError(m)) && m@ == "API key has expired"@,
            KeyCheck::NotAdmin => r matches Err(JepaError::Forbidden(m)) && m@
                == "Endpoint requires administrative privileges"@,
        }
    }
}

/// API key store. Keys are held by digest, never by token.
pub struct AuthManager {
    keys: Vec<ApiKeyRecord>,
    no_auth_enabled: bool,
}

impl AuthManager {
    /// The stored keys, in the order they were first stored.
    pub closed spec fn keys(&self) -> Seq<KeyView> {
        key_views(self.keys@)
    }

    /// Whether authentication is turned off (loopback development only).
    pub closed spec fn no_auth(&self) -> bool {
        self.no_auth_enabled
    }

    pub open spec fn well_formed(&self) -> bool {
        digests_unique(self.keys())
    }

    /// Whether authentication is turned off.
    pub fn no_auth_enabled(&self) -> (r: bool)
        ensures
            r == self.no_auth(),
    {
        self.no_auth_enabled
    }

    /// An empty store.
    pub fn new(no_auth: bool) -> (m: Self)
        ensures
            m.well_formed(),
            m.keys() == Seq::<KeyView>::empty(),
            m.no_auth() == no_auth,
    {
        let m = AuthManager { keys: Vec::new(), no_auth_enabled: no_auth };
        assert(m.keys() =~= Seq::<KeyView>::empty());
        m
    }

    /// Hex SHA-256 of a token. Tokens are never stored in clear: the store and
    /// `keys.json` are keyed by this digest, so a leaked file does not leak the keys.
    pub fn token_digest(raw_token: &str) -> (d: String)
        ensures
            d@ == spec_token_digest(raw_token@),
    {
        let digest: Vec<u8> = sha256_digest(raw_token.as_bytes());
        hex_encode(digest.as_slice())
    }

    /// A fresh token: `jepa_sec_` and 32 random bytes in hex.
    pub fn generate_token_string() -> (t: String)
        ensures
            exists|b: Seq<u8>| b.len() == 32 && t@ == token_scheme() + spec_hex(b),
    {
        let bytes: Vec<u8> = random_token_bytes();
        let hex: String = hex_encode(bytes.as_slice());
        proof {
            reveal_strlit("jepa_sec_");
        }
        let t: String = String::from_str("jepa_sec_").concat(hex.as_str());
        assert(t@ == token_scheme() + spec_hex(bytes@));
        t
    }

    /// Index of the key whose digest is `digest`.
    fn position(&self, digest: &String) -> (r: Option<usize>)
        ensures
            r matches Some(i) ==> i < self.keys().len() && find_digest(self.keys(), digest@, 0) == Some(
                i as int,
            ),
            r is None ==> find_digest(self.keys(), digest@, 0) is None,
    {
        let ghost s = self.keys();
        let wanted: &[u8] = digest.as_str().as_bytes();
        let mut i: usize = 0;
        while i < self.keys.len()
            invariant
                s == self.keys(),
                s.len() == self.keys@.len(),
                i <= s.len(),
                wanted@ == vstd::utf8::encode_utf8(digest@),
                forall|j: int| 0 <= j < i ==> s[j].token_hash != digest@,
            decreases s.len() - i,
        {
            let stored: &[u8] = self.keys[i].token_hash.as_str().as_bytes();
            let same: bool = stored.len() == wanted.len() && ct_eq_bytes(stored, wanted);
            proof {
                assert(s[i as int] == self.keys@[i as int]@);
                vstd::utf8::encode_utf8_decode_utf8(digest@);
                vstd::utf8::encode_utf8_decode_utf8(s[i as int].token_hash);
            }
            if same {
                proof {
                    lemma_find_digest_none(s.take(i as int), digest@, 0);
                    lemma_first_match(s, digest@, i as int);
                }
                return Some(i);
            }
            i = i + 1;
        }
        proof {
            lemma_find_digest_none(s, digest@, 0);
        }
        None
    }

    /// Store `record` under its digest, replacing a key with the same digest.
    pub fn upsert(&mut self, record: ApiKeyRecord)
        requires
            old(self).well_formed(),
        ensures
            final(self).well_formed(),
            final(self).no_auth() == old(self).no_auth(),
            final(self).keys() == upserted(old(self).keys(), record@),
    {
        let ghost s = self.keys();
        let ghost r = record@;
        match self.position(&record.token_hash) {
            Some(i) => {
                self.keys.set(i, record);
                proof {
                    lemma_find_digest_found(s, r.token_hash, 0);
                    assert(self.keys() =~= s.update(i as int, r));
                }
            },
            None => {
                self.keys.push(record);
                proof {
                    assert(self.keys() =~= s.push(r));
                    assert forall|j: int| 0 <= j < s.len() implies s[j].token_hash != r.token_hash by {
                        if s[j].token_hash == r.token_hash {
                            lemma_find_digest_some(s, r.token_hash, 0, j);
                        }
                    }
                }
            },
        }
    }

    /// Build the store from the keys read from disk and the admin token. Files
    /// written before digests were introduced are keyed by the raw token: such a key
    /// (one starting with `jepa_sec_`) is replaced by its digest. The admin token is
    /// always present afterwards, as an admin key.
    pub fn init(loaded: Vec<(String, ApiKeyRecord)>, admin_token: &str, no_auth: bool, now_ms: i64) -> (m: Self)
        ensures
            m.well_formed(),
            m.no_auth() == no_auth,
            m.keys() == upserted(
                loaded_keys(loaded@),
                KeyView {
                    key_prefix: take_chars(admin_token@, 12),
                    token_hash: spec_token_digest(admin_token@),
                    role: Role::Admin,
                    name: "Default Admin Key"@,
                    created_at_ms: now_ms,
                    expires_at_ms: None,
                },
            ),
    {
        let mut m = AuthManager::new(no_auth);
        let mut i: usize = 0;
        while i < loaded.len()
            invariant
                i <= loaded@.len(),
                m.well_formed(),
                m.no_auth() == no_auth,
                m.keys() == loaded_keys(loaded@.take(i as int)),
            decreases loaded@.len() - i,
        {
            let (key, record) = (&loaded[i].0, &loaded[i].1);
            let key_chars: Vec<char> = to_chars(key.as_str());
            let legacy: bool = chars_match_at(&key_chars, 0, "jepa_sec_");
            let digest: String = if legacy {
                AuthManager::token_digest(key.as_str())
            } else {
                key.clone()
            };
            let mut migrated: ApiKeyRecord = record.duplicate();
            migrated.token_hash = digest;
            proof {
                reveal_strlit("jepa_sec_");
                assert(loaded@.take(i + 1).drop_last() =~= loaded@.take(i as int));
                assert(migrated@ == migrated_key(loaded@[i as int]));
            }
            m.upsert(migrated);
            i = i + 1;
        }
        assert(loaded@.take(loaded@.len() as int) =~= loaded@);
        let admin = ApiKeyRecord {
            key_prefix: take_prefix(admin_token, 12),
            token_hash: AuthManager::token_digest(admin_token),
            role: Role::Admin,
            name: String::from_str("Default Admin Key"),
            created_at_ms: now_ms,
            expires_at_ms: None,
        };
        m.upsert(admin);
        m
    }

    /// Register a new key for `req` with a fresh token, created at `now_ms` and
    /// expiring `expire_days` days later when given.
    pub fn create_key(&mut self, req: CreateKeyRequest, now_ms: i64) -> (resp: CreateKeyResponse)
        requires
            old(self).well_formed(),
            req.expire_days matches Some(d) ==> i64::MIN <= now_ms + d * MS_PER_DAY <= i64::MAX,
        ensures
            final(self).well_formed(),
            final(self).no_auth() == old(self).no_auth(),
            exists|b: Seq<u8>| b.len() == 32 && resp.raw_token@ == token_scheme() + spec_hex(b),
            resp.key_prefix@ == take_chars(resp.raw_token@, 12),
            resp.role == req.role,
            resp.name@ == req.name@,
            resp.created_at_ms == now_ms,
            final(self).keys() == upserted(
                old(self).keys(),
                KeyView {
                    key_prefix: resp.key_prefix@,
                    token_hash: spec_token_digest(resp.raw_token@),
                    role: req.role,
                    name: req.name@,
                    created_at_ms: now_ms,
                    expires_at_ms: match req.expire_days {
                        Some(d) => Some((now_ms + d * MS_PER_DAY) as i64),
                        None => None,
                    },
                },
            ),
    {
        let raw_token: String = AuthManager::generate_token_string();
        let key_prefix: String = take_prefix(raw_token.as_str(), 12);
        let expires_at_ms: Option<i64> = match req.expire_days {
            Some(d) => {
                assert(-0x8000_0000_0000_0000 * 86_400_000 <= d * 86_400_000 <= 0x8000_0000_0000_0000
                    * 86_400_000) by (nonlinear_arith)
                    requires
                        -0x8000_0000_0000_0000 <= d <= 0x8000_0000_0000_0000,
                ;
                let at: i128 = (now_ms as i128) + (d as i128) * (MS_PER_DAY as i128);
                Some(at as i64)
            },
            None => None,
        };
        let record = ApiKeyRecord {
            key_prefix: key_prefix.clone(),
            token_hash: AuthManager::token_digest(raw_token.as_str()),
            role: req.role,
            name: req.name.clone(),
            created_at_ms: now_ms,
            expires_at_ms,
        };
        self.upsert(record);
        CreateKeyResponse { key_prefix, raw_token, role: req.role, name: req.name, created_at_ms: now_ms }
    }

    /// All stored keys.
    pub fn list_keys(&self) -> (out: Vec<ApiKeyRecord>)
        ensures
            key_views(out@) == self.keys(),
    {
        let mut out: Vec<ApiKeyRecord> = Vec::new();
        let mut i: usize = 0;
        while i < self.keys.len()
            invariant
                i <= self.keys@.len(),
                self.keys().len() == self.keys@.len(),
                key_views(out@) == self.keys().take(i as int),
            decreases self.keys@.len() - i,
        {
            let ghost before = out@;
            out.push(self.keys[i].duplicate());
            proof {
                assert(self.keys()[i as int] == self.keys@[i as int]@);
                assert(key_views(out@) =~= key_views(before).push(self.keys()[i as int]));
                assert(self.keys().take(i + 1) =~= self.keys().take(i as int).push(self.keys()[i as int]));
            }
            i = i + 1;
        }
        assert(self.keys().take(i as int) =~= self.keys());
        out
    }

    /// Remove every key whose prefix is `prefix`; whether one was found.
    pub fn revoke_key(&mut self, prefix: &str) -> (found: bool)
        requires
            old(self).well_formed(),
        ensures
            final(self).well_formed(),
            final(self).no_auth() == old(self).no_auth(),
            final(self).keys() == old(self).keys().filter(keep_unless(prefix@)),
            found == exists|i: int| 0 <= i < old(self).keys().len() && #[trigger] old(self).keys()[i].key_prefix == prefix@,
    {
        let ghost s = self.keys();
        let wanted: Vec<char> = to_chars(prefix);
        let mut kept: Vec<ApiKeyRecord> = Vec::new();
        let mut found: bool = false;
        let mut i: usize = 0;
        while i < self.keys.len()
            invariant
                s == self.keys(),
                s.len() == self.keys@.len(),
                i <= s.len(),
                wanted@ == prefix@,
                key_views(kept@) == s.take(i as int).filter(keep_unless(prefix@)),
                found == exists|j: int| 0 <= j < i && #[trigger] s[j].key_prefix == prefix@,
            decreases s.len() - i,
        {
            let rec: &ApiKeyRecord = &self.keys[i];
            let p: Vec<char> = to_chars(rec.key_prefix.as_str());
            let same: bool = p.len() == wanted.len() && chars_match_at(&p, 0, prefix);
            proof {
                reveal(Seq::filter);
                assert(s[i as int] == self.keys@[i as int]@);
                assert(s.take(i + 1).drop_last() =~= s.take(i as int));
                assert(s.take(i + 1).last() == s[i as int]);
                if p@.len() == wanted@.len() {
                    assert(p@.subrange(0, prefix@.len() as int) =~= p@);
                }
            }
            if same {
                found = true;
                proof {
                    reveal(Seq::filter);
                    assert(s.take(i + 1).filter(keep_unless(prefix@)) =~= s.take(i as int).filter(
                        keep_unless(prefix@),
                    ));
                }
            } else {
                let ghost before = kept@;
                kept.push(rec.duplicate());
                proof {
                    reveal(Seq::filter);
                    assert(key_views(kept@) =~= key_views(before).push(s[i as int]));
                    assert(s.take(i + 1).filter(keep_unless(prefix@)) =~= s.take(i as int).filter(
                        keep_unless(prefix@),
                    ).push(s[i as int]));
                }
            }
            i = i + 1;
        }
        assert(s.take(s.len() as int) =~= s);
        self.keys = kept;
        proof {
            lemma_filter_keeps_unique(s, prefix@);
        }
        found
    }

    /// Check a token for an endpoint needing `required` at time `now_ms`: unknown
    /// tokens and expired keys fail authentication, an inference key on an admin
    /// endpoint is forbidden. With authentication turned off every token passes as
    /// an admin.
    pub fn validate_token_at(&self, candidate_token: &str, required_role: Role, now_ms: i64) -> (r: Result<
        ApiKeyRecord,
        JepaError,
    >)
        requires
            self.well_formed(),
        ensures
            token_verdict(self.no_auth(), self.keys(), candidate_token@, required_role, now_ms, r),
    {
        if self.no_auth_enabled {
            return Ok(
                ApiKeyRecord {
                    key_prefix: String::from_str("no_auth"),
                    token_hash: String::from_str("no_auth"),
                    role: Role::Admin,
                    name: String::from_str("Dev Loopback Bypass"),
                    created_at_ms: now_ms,
                    expires_at_ms: None,
                },
            );
        }
        let candidate: String = AuthManager::token_digest(candidate_token);
        let i: usize = match self.position(&candidate) {
            Some(i) => i,
            None => {
                return Err(
                    JepaError::AuthError(String::from_str("Invalid or missing Bearer authorization token")),
                );
            },
        };
        let record: &ApiKeyRecord = &self.keys[i];
        proof {
            assert(self.keys()[i as int] == record@);
        }
        if let Some(exp) = record.expires_at_ms {
            if now_ms > exp {
                return Err(JepaError::AuthError(String::from_str("API key has expired")));
            }
        }
        match required_role {
            Role::Inference => Ok(record.duplicate()),
            Role::Admin => {
                if record.role == Role::Admin {
                    Ok(record.duplicate())
                } else {
                    Err(JepaError::Forbidden(String::from_str("Endpoint requires administrative privileges")))
                }
            },
        }
    }

    /// [`Self::validate_token_at`] at the current time.
    pub fn validate_token(&self, candidate_token: &str, required_role: Role) -> (r: Result<ApiKeyRecord, JepaError>)
        requires
            self.well_formed(),
        ensures
            exists|now_ms: i64|
                now_ms >= 0 && #[trigger] token_verdict(
                    self.no_auth(),
                    self.keys(),
                    candidate_token@,
                    required_role,
                    now_ms,
                    r,
                ),
    {
        let now: i64 = crate::clock::now_millis();
        let r = self.validate_token_at(candidate_token, required_role, now);
        r
    }
}

/// What is stored is found again: after storing `r`, its digest leads to `r`, and no
/// two keys share a digest.
pub proof fn lemma_upserted_finds(s: Seq<KeyView>, r: KeyView)
    requires
        digests_unique(s),
    ensures
        digests_unique(upserted(s, r)),
        find_digest(upserted(s, r), r.token_hash, 0) matches Some(i) && upserted(s, r)[i] == r,
{
    match find_digest(s, r.token_hash, 0) {
        Some(i) => {
            lemma_find_digest_found(s, r.token_hash, 0);
            let t = s.update(i, r);
            assert forall|a: int, b: int| 0 <= a < b < t.len() implies t[a].token_hash != t[b].token_hash by {
                assert(s[a].token_hash != s[b].token_hash);
            }
            assert forall|j: int| 0 <= j < i implies t[j].token_hash != r.token_hash by {
                assert(s[j].token_hash != s[i].token_hash);
            }
            lemma_first_match(t, r.token_hash, i);
        },
        None => {
            let t = s.push(r);
            assert forall|j: int| 0 <= j < s.len() implies s[j].token_hash != r.token_hash by {
                if s[j].token_hash == r.token_hash {
                    lemma_find_digest_some(s, r.token_hash, 0, j);
                }
            }
            assert forall|a: int, b: int| 0 <= a < b < t.len() implies t[a].token_hash != t[b].token_hash by {
                if b < s.len() {
                    assert(s[a].token_hash != s[b].token_hash);
                }
            }
            lemma_first_match(t, r.token_hash, s.len() as int);
        },
    }
}

/// A freshly stored key answers its own token: granted unless it has expired, and
/// refused on admin endpoints when it is an inference key. A token whose digest is
/// stored nowhere is unknown.
pub proof fn lemma_stored_key_checks(s: Seq<KeyView>, r: KeyView, required: Role, now_ms: i64, d: Seq<char>)
    requires
        digests_unique(s),
    ensures
        spec_check_key(upserted(s, r), r.token_hash, required, now_ms) == if r.expires_at_ms matches Some(exp)
            && now_ms > exp {
            KeyCheck::Expired
        } else if required == Role::Admin && r.role != Role::Admin {
            KeyCheck::NotAdmin
        } else {
            KeyCheck::Granted(r)
        },
        (forall|j: int| 0 <= j < s.len() ==> #[trigger] s[j].token_hash != d) && d != r.token_hash
            ==> spec_check_key(upserted(s, r), d, required, now_ms) == KeyCheck::Unknown,
{
    lemma_upserted_finds(s, r);
    let t = upserted(s, r);
    if (forall|j: int| 0 <= j < s.len() ==> #[trigger] s[j].token_hash != d) && d != r.token_hash {
        assert forall|j: int| 0 <= j < t.len() implies t[j].token_hash != d by {
            match find_digest(s, r.token_hash, 0) {
                Some(i) => {
                    lemma_find_digest_found(s, r.token_hash, 0);
                    if j != i {
                        assert(t[j] == s[j]);
                    }
                },
                None => {
                    if j < s.len() {
                        assert(t[j] == s[j]);
                    }
                },
            }
        }
        lemma_find_digest_none(t, d, 0);
    }
}

/// Revoking a prefix leaves no key with that prefix, and keeps every other key.
pub proof fn lemma_revoked_prefix_gone(s: Seq<KeyView>, p: Seq<char>)
    ensures
        forall|i: int| 0 <= i < s.filter(keep_unless(p)).len() ==> #[trigger] s.filter(keep_unless(p))[i].key_prefix != p,
        forall|i: int| 0 <= i < s.len() && s[i].key_prefix != p ==> s.filter(keep_unless(p)).contains(#[trigger] s[i]),
{
    broadcast use vstd::seq_lib::group_filter_ensures;

    assert forall|i: int| 0 <= i < s.filter(keep_unless(p)).len() implies #[trigger] s.filter(keep_unless(p))[i].key_prefix
        != p by {
        assert(keep_unless(p)(s.filter(keep_unless(p))[i]));
    }
    assert forall|i: int| 0 <= i < s.len() && s[i].key_prefix != p implies s.filter(keep_unless(p)).contains(
        #[trigger] s[i],
    ) by {
        assert(keep_unless(p)(s[i]));
    }
}

/// A revoked key is gone for good: after a key is stored and its prefix revoked, its
/// token is refused as unknown for every role at every time, with the message of an
/// unknown token, and a second revocation of the prefix finds nothing.
pub proof fn lemma_revoked_key_refused(
    s: Seq<KeyView>,
    r: KeyView,
    raw: Seq<char>,
    required: Role,
    now_ms: i64,
    res: Result<ApiKeyRecord, JepaError>,
)
    requires
        digests_unique(s),
        r.token_hash == spec_token_digest(raw),
    ensures
        ({
            let u = upserted(s, r).filter(keep_unless(r.key_prefix));
            &&& spec_check_key(u, r.token_hash, required, now_ms) == KeyCheck::Unknown
            &&& token_verdict(false, u, raw, required, now_ms, res) ==> (res matches Err(JepaError::AuthError(m))
                && m@ == "Invalid or missing Bearer authorization token"@)
            &&& !(exists|i: int| 0 <= i < u.len() && #[trigger] u[i].key_prefix == r.key_prefix)
            &&& u.filter(keep_unless(r.key_prefix)) == u
        }),
{
    let t = upserted(s, r);
    let p = r.key_prefix;
    let u = t.filter(keep_unless(p));
    lemma_upserted_finds(s, r);
    let i = find_digest(t, r.token_hash, 0)->0;
    lemma_find_digest_found(t, r.token_hash, 0);
    assert forall|k: int| 0 <= k < t.len() && #[trigger] t[k].token_hash == r.token_hash implies t[k].key_prefix
        == p by {
        if k != i {
            if k < i {
                assert(t[k].token_hash != t[i].token_hash);
            } else {
                assert(t[i].token_hash != t[k].token_hash);
            }
        }
    }
    lemma_filter_drops_hash(t, p, r.token_hash);
    lemma_find_digest_none(u, r.token_hash, 0);
    lemma_revoked_prefix_gone(t, p);
    lemma_filter_keeps_all(u, p);
}

/// Filtering out prefix `p` drops every key whose digest is `d`, when each such key
/// has prefix `p`.
proof fn lemma_filter_drops_hash(s: Seq<KeyView>, p: Seq<char>, d: Seq<char>)
    requires
        forall|k: int| 0 <= k < s.len() && #[trigger] s[k].token_hash == d ==> s[k].key_prefix == p,
    ensures
        forall|j: int| 0 <= j < s.filter(keep_unless(p)).len() ==> #[trigger] s.filter(keep_unless(p))[j].token_hash != d,
    decreases s.len(),
{
    reveal(Seq::filter);
    if s.len() > 0 {
        let q = s.drop_last();
        assert forall|k: int| 0 <= k < q.len() && #[trigger] q[k].token_hash == d implies q[k].key_prefix == p by {
            assert(q[k] == s[k]);
        }
        lemma_filter_drops_hash(q, p, d);
        assert(s.last() == s[s.len() - 1]);
    }
}

/// A sequence with no key of prefix `p` is unchanged by filtering `p` out.
proof fn lemma_filter_keeps_all(s: Seq<KeyView>, p: Seq<char>)
    requires
        forall|i: int| 0 <= i < s.len() ==> #[trigger] s[i].key_prefix != p,
    ensures
        s.filter(keep_unless(p)) == s,
    decreases s.len(),
{
    reveal(Seq::filter);
    if s.len() > 0 {
        let q = s.drop_last();
        assert forall|i: int| 0 <= i < q.len() implies #[trigger] q[i].key_prefix != p by {
            assert(q[i] == s[i]);
        }
        lemma_filter_keeps_all(q, p);
        assert(s.last() == s[s.len() - 1]);
        assert(q.push(s.last()) =~= s);
    }
}

/// A key read from disk under `key`, with the digest it is stored under.
pub open spec fn migrated_key(entry: (String, ApiKeyRecord)) -> KeyView {
    let k = entry.0@;
    KeyView {
        token_hash: if k.len() >= 9 && k.take(9) == token_scheme() {
            spec_token_digest(k)
        } else {
            k
        },
        ..entry.1@
    }
}

/// The store after storing each loaded key in turn.
pub open spec fn loaded_keys(loaded: Seq<(String, ApiKeyRecord)>) -> Seq<KeyView>
    decreases loaded.len(),
{
    if loaded.len() == 0 {
        Seq::empty()
    } else {
        upserted(loaded_keys(loaded.drop_last()), migrated_key(loaded.last()))
    }
}

proof fn lemma_first_match(s: Seq<KeyView>, d: Seq<char>, i: int)
    requires
        0 <= i < s.len(),
        s[i].token_hash == d,
        forall|j: int| 0 <= j < i ==> s[j].token_hash != d,
    ensures
        find_digest(s, d, 0) == Some(i),
{
    lemma_find_prefix(s, d, 0, i);
}

proof fn lemma_find_prefix(s: Seq<KeyView>, d: Seq<char>, from: int, i: int)
    requires
        0 <= from <= i < s.len(),
        s[i].token_hash == d,
        forall|j: int| from <= j < i ==> s[j].token_hash != d,
    ensures
        find_digest(s, d, from) == Some(i),
    decreases i - from,
{
    if from < i {
        lemma_find_prefix(s, d, from + 1, i);
    }
}

proof fn lemma_find_digest_some(s: Seq<KeyView>, d: Seq<char>, from: int, j: int)
    requires
        0 <= from <= j < s.len(),
        s[j].token_hash == d,
    ensures
        find_digest(s, d, from) is Some,
    decreases j - from,
{
    if from < j && s[from].token_hash != d {
        lemma_find_digest_some(s, d, from + 1, j);
    }
}

proof fn lemma_filter_from(s: Seq<KeyView>, p: Seq<char>, a: int)
    requires
        0 <= a < s.filter(keep_unless(p)).len(),
    ensures
        exists|b: int| 0 <= b < s.len() && s[b] == s.filter(keep_unless(p))[a],
    decreases s.len(),
{
    reveal(Seq::filter);
    let init = s.drop_last();
    let fi = init.filter(keep_unless(p));
    if keep_unless(p)(s.last()) && a == fi.len() {
        assert(s[s.len() - 1] == s.filter(keep_unless(p))[a]);
    } else {
        lemma_filter_from(init, p, a);
        let b = choose|b: int| 0 <= b < init.len() && init[b] == fi[a];
        assert(s[b] == s.filter(keep_unless(p))[a]);
    }
}

proof fn lemma_filter_keeps_unique(s: Seq<KeyView>, p: Seq<char>)
    requires
        digests_unique(s),
    ensures
        digests_unique(s.filter(keep_unless(p))),
    decreases s.len(),
{
    reveal(Seq::filter);
    let f = s.filter(keep_unless(p));
    if s.len() > 0 {
        let init = s.drop_last();
        assert(digests_unique(init));
        lemma_filter_keeps_unique(init, p);
        let fi = init.filter(keep_unless(p));
        if keep_unless(p)(s.last()) {
            assert(f =~= fi.push(s.last()));
            assert forall|a: int| 0 <= a < fi.len() implies fi[a].token_hash != s.last().token_hash by {
                lemma_filter_from(init, p, a);
                let b = choose|b: int| 0 <= b < init.len() && init[b] == fi[a];
                assert(s[b] == init[b]);
            }
        } else {
            assert(f =~= fi);
        }
    }
}

} // verus!

//! Request gate of the HTTP API: Bearer token authentication with its HTTP answers,
//! the session-token rule of the embedded testbench, and the audit trail.

use std::collections::VecDeque;

use vstd::prelude::*;

use crate::auth::{bypass_record, spec_check_key, spec_token_digest, ApiKeyRecord, AuthManager, KeyCheck, KeyView};
use crate::text::{chars_eq, chars_match_at, to_chars};
use crate::types::Role;

verus! {

broadcast use vstd::std_specs::vecdeque::group_vec_dequeue_axioms;

/// `s` starts with `p`.
pub open spec fn starts_with(s: Seq<char>, p: Seq<char>) -> bool {
    p.len() <= s.len() && s.take(p.len() as int) == p
}

fn has_prefix(s: &Vec<char>, p: &str) -> (r: bool)
    ensures
        r == starts_with(s@, p@),
{
    let r: bool = chars_match_at(s, 0, p);
    proof {
        if p@.len() <= s@.len() {
            assert(s@.subrange(0, p@.len() as int) =~= s@.take(p@.len() as int));
        }
    }
    r
}

/// The token of an `Authorization: Bearer <token>` header.
pub open spec fn spec_bearer(header: Option<Seq<char>>) -> Option<Seq<char>> {
    match header {
        Some(v) => if starts_with(v, "Bearer "@) {
            Some(v.skip(7))
        } else {
            None
        },
        None => None,
    }
}

pub open spec fn opt_chars(o: Option<&str>) -> Option<Seq<char>> {
    match o {
        Some(s) => Some(s@),
        None => None,
    }
}

/// The token carried by an `Authorization` header value, if it is a Bearer one.
pub fn bearer_token<'a>(authorization: Option<&'a str>) -> (t: Option<&'a str>)
    ensures
        opt_chars(t) == spec_bearer(opt_chars(authorization)),
{
    proof {
        reveal_strlit("Bearer ");
    }
    match authorization {
        Some(v) => {
            let chars: Vec<char> = to_chars(v);
            if has_prefix(&chars, "Bearer ") {
                let tok: &str = v.substring_char(7, chars.len());
                assert(tok@ =~= v@.skip(7));
                Some(tok)
            } else {
                None
            }
        },
        None => None,
    }
}

/// An HTTP answer refusing a request.
#[derive(Debug, Clone)]
pub struct Rejection {
    pub status: u16,
    pub message: String,
}

/// `r` is how a request with `authorization` is answered, for an endpoint needing
/// `required`, at time `now_ms`.
pub open spec fn request_verdict(
    no_auth: bool,
    keys: Seq<KeyView>,
    authorization: Option<Seq<char>>,
    required: Role,
    now_ms: i64,
    r: Result<ApiKeyRecord, Rejection>,
) -> bool {
    if no_auth {
        r matches Ok(k) && k@ == bypass_record("dev_local"@, "none"@, "Local Dev Bypass"@, now_ms)
    } else {
        match spec_bearer(authorization) {
            None => r matches Err(rej) && rej.status == 401 && rej.message@
                == "Missing or malformed Authorization header. Expected: Bearer <token>"@,
            Some(tok) => match spec_check_key(keys, spec_token_digest(tok), required, now_ms) {
                KeyCheck::Granted(k) => r matches Ok(g) && g@ == k,
                KeyCheck::Unknown => r matches Err(rej) && rej.status == 403 && rej.message@
                    == "Authentication failed: Invalid or missing Bearer authorization token"@,
                KeyCheck::Expired => r matches Err(rej) && rej.status == 403 && rej.message@
                    == "Authentication failed: API key has expired"@,
                KeyCheck::NotAdmin => r matches Err(rej) && rej.status == 403 && rej.message@
                    == "Authorization forbidden: Endpoint requires administrative privileges"@,
            },
        }
    }
}

/// Authenticate a request by its `Authorization` header at time `now_ms`: no Bearer
/// token is 401, a refused token 403 with the reason. With authentication turned
/// off every request passes as an admin.
pub fn authenticate_request_at(
    authorization: Option<&str>,
    auth_manager: &AuthManager,
    required_role: Role,
    now_ms: i64,
) -> (r: Result<ApiKeyRecord, Rejection>)
    requires
        auth_manager.well_formed(),
    ensures
        request_verdict(auth_manager.no_auth(), auth_manager.keys(), opt_chars(authorization), required_role, now_ms, r),
{
    if auth_manager.no_auth_enabled() {
        return Ok(
            ApiKeyRecord {
                key_prefix: String::from_str("dev_local"),
                token_hash: String::from_str("none"),
                role: Role::Admin,
                name: String::from_str("Local Dev Bypass"),
                created_at_ms: now_ms,
                expires_at_ms: None,
            },
        );
    }
    let token: &str = match bearer_token(authorization) {
        Some(t) => t,
        None => {
            return Err(
                Rejection {
                    status: 401,
                    message: String::from_str(
                        "Missing or malformed Authorization header. Expected: Bearer <token>",
                    ),
                },
            );
        },
    };
    let v = auth_manager.validate_token_at(token, required_role, now_ms);
    proof {
        reveal_strlit("Authentication failed: ");
        reveal_strlit("Authorization forbidden: ");
        reveal_strlit("Invalid or missing Bearer authorization token");
        reveal_strlit("API key has expired");
        reveal_strlit("Endpoint requires administrative privileges");
        reveal_strlit("Authentication failed: Invalid or missing Bearer authorization token");
        reveal_strlit("Authentication failed: API key has expired");
        reveal_strlit("Authorization forbidden: Endpoint requires administrative privileges");
        assert("Authentication failed: "@ + "Invalid or missing Bearer authorization token"@
            =~= "Authentication failed: Invalid or missing Bearer authorization token"@);
        assert("Authentication failed: "@ + "API key has expired"@
            =~= "Authentication failed: API key has expired"@);
        assert("Authorization forbidden: "@ + "Endpoint requires administrative privileges"@
            =~= "Authorization forbidden: Endpoint requires administrative privileges"@);
    }
    match v {
        Ok(k) => {
            Ok(k)
        },
        Err(e) => Err(Rejection { status: 403, message: e.message() }),
    }
}

/// [`authenticate_request_at`] at the current time.
pub fn authenticate_request(authorization: Option<&str>, auth_manager: &AuthManager, required_role: Role) -> (r: Result<
    ApiKeyRecord,
    Rejection,
>)
    requires
        auth_manager.well_formed(),
    ensures
        exists|now_ms: i64|
            now_ms >= 0 && #[trigger] request_verdict(
                auth_manager.no_auth(),
                auth_manager.keys(),
                opt_chars(authorization),
                required_role,
                now_ms,
                r,
            ),
{
    let now: i64 = crate::clock::now_millis();
    authenticate_request_at(authorization, auth_manager, required_role, now)
}

/// How the testbench's request for the session token is answered.
#[derive(Debug, Clone)]
pub enum SessionDecision {
    /// Authentication is off: there is no token to hand out.
    NoAuth,
    /// Refused with 403 and this reason.
    Refused(String),
    /// Hand out the admin token.
    Issue,
}

/// A [`SessionDecision`] with its reason as characters.
pub enum SessionVerdict {
    NoAuth,
    Refused(Seq<char>),
    Issue,
}

impl View for SessionDecision {
    type V = SessionVerdict;

    open spec fn view(&self) -> SessionVerdict {
        match self {
            SessionDecision::NoAuth => SessionVerdict::NoAuth,
            SessionDecision::Refused(m) => SessionVerdict::Refused(m@),
            SessionDecision::Issue => SessionVerdict::Issue,
        }
    }
}

/// The `Host` header names the loopback interface.
pub open spec fn loopback_host_header(h: Seq<char>) -> bool {
    starts_with(h, "127.0.0.1"@) || starts_with(h, "localhost"@) || starts_with(h, "[::1]"@)
}

/// The session-token rule: only from loopback (by `Host` header, or because the
/// server is bound to 127.0.0.1), and only to a same-origin page or a direct
/// navigation (`Sec-Fetch-Site` `same-origin` or `none`; absent counts as
/// `same-origin`).
pub open spec fn spec_session_decision(
    no_auth: bool,
    host_header: Seq<char>,
    config_host: Seq<char>,
    fetch_site: Seq<char>,
) -> SessionVerdict {
    if no_auth {
        SessionVerdict::NoAuth
    } else if !loopback_host_header(host_header) && config_host != "127.0.0.1"@ {
        SessionVerdict::Refused("Session token retrieval only permitted from local loopback"@)
    } else if fetch_site != "same-origin"@ && fetch_site != "none"@ {
        SessionVerdict::Refused("Session token is only issued to the embedded testbench (same-origin)"@)
    } else {
        SessionVerdict::Issue
    }
}

/// Decide the session-token request from the `Host` and `Sec-Fetch-Site` headers
/// (absent headers read as empty and `same-origin`).
pub fn session_token_decision(
    no_auth: bool,
    host_header: Option<&str>,
    config_host: &str,
    fetch_site: Option<&str>,
) -> (d: SessionDecision)
    ensures
        d@ == spec_session_decision(
                no_auth,
                match host_header {
                    Some(h) => h@,
                    None => Seq::empty(),
                },
                config_host@,
                match fetch_site {
                    Some(f) => f@,
                    None => "same-origin"@,
                },
        ),
{
    if no_auth {
        return SessionDecision::NoAuth;
    }
    let host: Vec<char> = match host_header {
        Some(h) => to_chars(h),
        None => Vec::new(),
    };
    let loopback: bool = has_prefix(&host, "127.0.0.1") || has_prefix(&host, "localhost") || has_prefix(
        &host,
        "[::1]",
    );
    let cfg: Vec<char> = to_chars(config_host);
    if !loopback && !chars_eq(&cfg, "127.0.0.1") {
        return SessionDecision::Refused(
            String::from_str("Session token retrieval only permitted from local loopback"),
        );
    }
    let site: Vec<char> = match fetch_site {
        Some(f) => to_chars(f),
        None => to_chars("same-origin"),
    };
    if !chars_eq(&site, "same-origin") && !chars_eq(&site, "none") {
        return SessionDecision::Refused(
            String::from_str("Session token is only issued to the embedded testbench (same-origin)"),
        );
    }
    SessionDecision::Issue
}

/// Entries the audit trail keeps.
pub const AUDIT_CAPACITY: usize = 100;

/// Requests under `/api/` are audited; static assets are not.
pub open spec fn spec_is_audited(path: Seq<char>) -> bool {
    starts_with(path, "/api/"@)
}

/// Whether a request to `path` goes into the audit trail.
pub fn is_audited_path(path: &str) -> (r: bool)
    ensures
        r == spec_is_audited(path@),
{
    let p: Vec<char> = to_chars(path);
    has_prefix(&p, "/api/")
}

/// `s` after recording `e`: newest first, the oldest dropped past the capacity.
pub open spec fn recorded<T>(s: Seq<T>, e: T) -> Seq<T> {
    seq![e] + if s.len() >= AUDIT_CAPACITY {
        s.drop_last()
    } else {
        s
    }
}

/// Rolling trail of the last requests, newest first.
pub struct AuditTrail<T> {
    entries: VecDeque<T>,
}

impl<T> AuditTrail<T> {
    /// The entries, newest first.
    pub closed spec fn entries(&self) -> Seq<T> {
        self.entries@
    }

    pub fn new() -> (a: Self)
        ensures
            a.entries() == Seq::<T>::empty(),
    {
        AuditTrail { entries: VecDeque::new() }
    }

    /// Record an entry at the front, dropping the oldest past [`AUDIT_CAPACITY`].
    pub fn record(&mut self, entry: T)
        ensures
            final(self).entries() == recorded(old(self).entries(), entry),
    {
        if self.entries.len() >= AUDIT_CAPACITY {
            let _ = self.entries.pop_back();
        }
        self.entries.push_front(entry);
    }

    pub fn len(&self) -> (n: usize)
        ensures
            n == self.entries().len(),
    {
        self.entries.len()
    }

    /// The `i`-th entry, newest first.
    pub fn get(&self, i: usize) -> (r: Option<&T>)
        ensures
            r matches Some(x) ==> i < self.entries().len() && *x == self.entries()[i as int],
            r is None <==> i >= self.entries().len(),
    {
        if i < self.entries.len() {
            Some(&self.entries[i])
        } else {
            None
        }
    }
}

/// The trail never holds more than [`AUDIT_CAPACITY`] entries, and the newest entry
/// comes first.
pub proof fn lemma_audit_bounded<T>(s: Seq<T>, e: T)
    requires
        s.len() <= AUDIT_CAPACITY,
    ensures
        recorded(s, e).len() <= AUDIT_CAPACITY,
        recorded(s, e)[0] == e,
        forall|i: int| 0 <= i < recorded(s, e).len() - 1 ==> #[trigger] recorded(s, e)[i + 1] == s[i],
{
}

} // verus!

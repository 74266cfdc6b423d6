use jepa::auth::AuthManager;
use jepa::gate::{authenticate_request, authenticate_request_at, bearer_token, is_audited_path, session_token_decision, AuditTrail, SessionDecision};
use jepa::types::{CreateKeyRequest, Role};

const NOW: i64 = 1_767_225_600_000;

#[test]
fn bearer_tokens_are_extracted() {
    assert_eq!(bearer_token(Some("Bearer abc")), Some("abc"));
    assert_eq!(bearer_token(Some("Bearer ")), Some(""));
    assert_eq!(bearer_token(Some("Basic abc")), None);
    assert_eq!(bearer_token(Some("bearer abc")), None);
    assert_eq!(bearer_token(None), None);
}

#[test]
fn requests_are_answered_401_403_or_granted() {
    let mut auth = AuthManager::init(Vec::new(), "jepa_sec_admin_token", false, NOW);
    let k = auth.create_key(CreateKeyRequest { name: "ci".to_string(), role: Role::Inference, expire_days: None }, NOW);
    let missing = authenticate_request_at(None, &auth, Role::Inference, NOW).unwrap_err();
    assert_eq!(missing.status, 401);
    assert_eq!(missing.message, "Missing or malformed Authorization header. Expected: Bearer <token>");
    let wrong = authenticate_request_at(Some("Bearer nope"), &auth, Role::Inference, NOW).unwrap_err();
    assert_eq!(wrong.status, 403);
    assert_eq!(wrong.message, "Authentication failed: Invalid or missing Bearer authorization token");
    let header = format!("Bearer {}", k.raw_token);
    let forbidden = authenticate_request_at(Some(&header), &auth, Role::Admin, NOW).unwrap_err();
    assert_eq!(forbidden.status, 403);
    assert_eq!(forbidden.message, "Authorization forbidden: Endpoint requires administrative privileges");
    assert_eq!(authenticate_request_at(Some(&header), &auth, Role::Inference, NOW).unwrap().name, "ci");
    assert!(authenticate_request(Some("Bearer jepa_sec_admin_token"), &auth, Role::Admin).is_ok());
}

#[test]
fn no_auth_requests_pass_as_local_dev() {
    let auth = AuthManager::init(Vec::new(), "jepa_sec_admin_token", true, NOW);
    let r = authenticate_request_at(None, &auth, Role::Admin, NOW).unwrap();
    assert_eq!(r.key_prefix, "dev_local");
    assert_eq!(r.name, "Local Dev Bypass");
}

#[test]
fn session_token_only_for_same_origin_loopback() {
    assert!(matches!(session_token_decision(true, None, "0.0.0.0", None), SessionDecision::NoAuth));
    assert!(matches!(session_token_decision(false, Some("127.0.0.1:11435"), "0.0.0.0", None), SessionDecision::Issue));
    assert!(matches!(session_token_decision(false, Some("[::1]:11435"), "0.0.0.0", Some("none")), SessionDecision::Issue));
    assert!(matches!(
        session_token_decision(false, Some("192.168.1.2:11435"), "0.0.0.0", None),
        SessionDecision::Refused(m) if m == "Session token retrieval only permitted from local loopback"
    ));
    assert!(matches!(session_token_decision(false, Some("example.com"), "127.0.0.1", None), SessionDecision::Issue));
    assert!(matches!(
        session_token_decision(false, Some("localhost:11435"), "127.0.0.1", Some("cross-site")),
        SessionDecision::Refused(_)
    ));
}

#[test]
fn audit_trail_keeps_the_newest_hundred() {
    let mut trail: AuditTrail<u32> = AuditTrail::new();
    for i in 0..150u32 {
        trail.record(i);
    }
    assert_eq!(trail.len(), 100);
    assert_eq!(trail.get(0), Some(&149));
    assert_eq!(trail.get(99), Some(&50));
    assert_eq!(trail.get(100), None);
    assert!(is_audited_path("/api/status"));
    assert!(!is_audited_path("/app.js"));
    assert!(!is_audited_path("/api"));
}

use jepa::auth::{hex_encode, take_prefix, ApiKeyRecord, AuthManager};
use jepa::types::{CreateKeyRequest, JepaError, Role};

const NOW: i64 = 1_767_225_600_000;

#[test]
fn hex_is_lower_case_two_digits_per_byte() {
    assert_eq!(hex_encode(&[]), "");
    assert_eq!(hex_encode(&[0x00, 0x0f, 0xa5, 0xff]), "000fa5ff");
}

#[test]
fn digest_is_hex_sha256() {
    assert_eq!(
        AuthManager::token_digest("abc"),
        "ba7816bf8f01cfea414140de5dae2223b00361a396177a9cb410ff61f20015ad"
    );
    assert_eq!(
        AuthManager::token_digest(""),
        "e3b0c44298fc1c149afbf4c8996fb92427ae41e4649b934ca495991b7852b855"
    );
}

#[test]
fn generated_tokens_are_fresh_and_well_formed() {
    let a = AuthManager::generate_token_string();
    let b = AuthManager::generate_token_string();
    assert_ne!(a, b);
    assert!(a.starts_with("jepa_sec_"));
    assert_eq!(a.len(), 9 + 64);
    assert!(a[9..].chars().all(|c| c.is_ascii_hexdigit() && !c.is_ascii_uppercase()));
}

#[test]
fn prefixes_take_the_first_characters() {
    assert_eq!(take_prefix("jepa_sec_0123456789", 12), "jepa_sec_012");
    assert_eq!(take_prefix("short", 12), "short");
}

fn request(name: &str, role: Role, days: Option<i64>) -> CreateKeyRequest {
    CreateKeyRequest { name: name.to_string(), role, expire_days: days }
}

#[test]
fn created_keys_validate_by_role_and_are_stored_as_digests() {
    let admin = AuthManager::generate_token_string();
    let mut auth = AuthManager::init(Vec::new(), &admin, false, NOW);
    let created = auth.create_key(request("ci", Role::Inference, None), NOW);
    assert_eq!(created.key_prefix, created.raw_token[..12]);

    assert_eq!(auth.validate_token_at(&admin, Role::Admin, NOW).unwrap().role, Role::Admin);
    assert_eq!(auth.validate_token_at(&created.raw_token, Role::Inference, NOW).unwrap().name, "ci");
    assert!(matches!(auth.validate_token_at(&created.raw_token, Role::Admin, NOW), Err(JepaError::Forbidden(_))));
    assert!(matches!(auth.validate_token_at("jepa_sec_nope", Role::Inference, NOW), Err(JepaError::AuthError(_))));

    for r in auth.list_keys() {
        assert_ne!(r.token_hash, admin);
        assert_ne!(r.token_hash, created.raw_token);
        assert_eq!(r.token_hash.len(), 64);
    }
    assert!(auth.list_keys().iter().any(|r| r.token_hash == AuthManager::token_digest(&created.raw_token)));
}

#[test]
fn keys_expire() {
    let mut auth = AuthManager::init(Vec::new(), "jepa_sec_admin", false, NOW);
    let k = auth.create_key(request("short", Role::Admin, Some(1)), NOW);
    assert!(auth.validate_token_at(&k.raw_token, Role::Admin, NOW + 1000).is_ok());
    let late = NOW + 86_400_000 + 1;
    assert!(matches!(
        auth.validate_token_at(&k.raw_token, Role::Admin, late),
        Err(JepaError::AuthError(m)) if m == "API key has expired"
    ));
    // The wall-clock variant uses the current time.
    let long = auth.create_key(request("long", Role::Inference, Some(100_000)), NOW);
    assert!(auth.validate_token(&long.raw_token, Role::Inference).is_ok());
    assert!(auth.validate_token(&k.raw_token, Role::Inference).is_err());
}

#[test]
fn revoking_by_prefix_removes_the_key() {
    let mut auth = AuthManager::init(Vec::new(), "jepa_sec_admin", false, NOW);
    let k = auth.create_key(request("tmp", Role::Inference, None), NOW);
    assert_eq!(auth.list_keys().len(), 2);
    assert!(auth.revoke_key(&k.key_prefix));
    assert!(!auth.revoke_key(&k.key_prefix));
    assert_eq!(auth.list_keys().len(), 1);
    assert!(auth.validate_token_at(&k.raw_token, Role::Inference, NOW).is_err());
}

#[test]
fn legacy_files_keyed_by_raw_token_migrate() {
    let old_token = format!("jepa_sec_{}", "ab".repeat(32));
    let legacy = ApiKeyRecord {
        key_prefix: "jepa_sec_abc".to_string(),
        token_hash: "hash_x".to_string(),
        role: Role::Inference,
        name: "old".to_string(),
        created_at_ms: 0,
        expires_at_ms: None,
    };
    let auth = AuthManager::init(vec![(old_token.clone(), legacy)], "jepa_sec_admin", false, NOW);
    assert_eq!(auth.validate_token_at(&old_token, Role::Inference, NOW).unwrap().name, "old");
    assert!(auth.list_keys().iter().all(|r| r.token_hash != old_token));
    assert!(auth.list_keys().iter().any(|r| r.token_hash == AuthManager::token_digest(&old_token)));
}

#[test]
fn no_auth_lets_everything_through_as_admin() {
    let auth = AuthManager::init(Vec::new(), "jepa_sec_admin", true, NOW);
    let r = auth.validate_token_at("anything", Role::Admin, NOW).unwrap();
    assert_eq!(r.role, Role::Admin);
    assert_eq!(r.key_prefix, "no_auth");
    assert!(auth.no_auth_enabled());
}

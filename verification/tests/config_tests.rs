use jepa::config::{cors_origins_from, is_loopback_host, join_path, no_auth_permitted, RuntimeConfig};
use jepa::types::JepaError;

fn config() -> RuntimeConfig {
    RuntimeConfig::init("/home/u/.jepa", "127.0.0.1".to_string(), 11435, false)
}

#[test]
fn layout_lives_under_the_home_directory() {
    let c = config();
    assert_eq!(c.models_dir, "/home/u/.jepa/models");
    assert_eq!(c.keys_db_path, "/home/u/.jepa/keys.json");
    assert_eq!(c.auth_token_path, "/home/u/.jepa/auth.token");
    assert_eq!(c.gestures_path, "/home/u/.jepa/gestures.json");
    assert!(c.cors_origins.is_empty());
    assert_eq!(join_path("a/", "b"), "a/b");
    assert_eq!(join_path("", "b"), "b");
    assert_eq!(join_path("a", "/b"), "/b");
}

#[test]
fn model_names_resolve_inside_the_models_directory() {
    let c = config();
    assert_eq!(c.safe_resolve_model_path("facebook/dinov2-small").unwrap(), "/home/u/.jepa/models/facebook/dinov2-small");
    assert_eq!(c.safe_resolve_model_path("facebook:dinov2-small").unwrap(), "/home/u/.jepa/models/facebook/dinov2-small");
    assert_eq!(c.safe_resolve_model_path("org/name//").unwrap(), "/home/u/.jepa/models/org/name");
}

#[test]
fn traversal_and_absolute_names_are_refused() {
    let c = config();
    assert!(matches!(c.safe_resolve_model_path("../etc/passwd"), Err(JepaError::PathTraversal(_))));
    assert!(matches!(c.safe_resolve_model_path("a/../../b"), Err(JepaError::PathTraversal(_))));
    assert!(matches!(c.safe_resolve_model_path("/etc/passwd"), Err(JepaError::PathTraversal(_))));
    assert!(matches!(c.safe_resolve_model_path(":etc"), Err(JepaError::PathTraversal(_))));
    // Names that resolve to the models directory itself.
    assert!(matches!(c.safe_resolve_model_path(""), Err(JepaError::PathTraversal(_))));
    assert!(matches!(c.safe_resolve_model_path("./"), Err(JepaError::PathTraversal(_))));
}

#[test]
fn no_auth_only_on_loopback() {
    assert!(is_loopback_host("127.0.0.1"));
    assert!(is_loopback_host("localhost"));
    assert!(!is_loopback_host("0.0.0.0"));
    assert!(no_auth_permitted(true, "localhost"));
    assert!(!no_auth_permitted(true, "0.0.0.0"));
    assert!(no_auth_permitted(false, "0.0.0.0"));
}

#[test]
fn cors_origins_are_trimmed_and_blanks_dropped() {
    let raw = vec![" http://localhost:5173 ".to_string(), "   ".to_string(), "https://a.example".to_string()];
    assert_eq!(cors_origins_from(&raw), vec!["http://localhost:5173".to_string(), "https://a.example".to_string()]);
}

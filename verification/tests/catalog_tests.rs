use jepa::api::{delete_name, delete_target, frame_interval_ms, CameraControlQuery, DeleteModelPayload, DeleteModelQuery};
use jepa::catalog::{add_if_new, alternate_name, get_manifest};
use jepa::manifest::get_verified_manifests;

#[test]
fn alternate_spellings() {
    assert_eq!(alternate_name("facebook:dinov2-small"), "facebook/dinov2-small");
    assert_eq!(alternate_name("org/sub/name"), "org/sub:name");
    assert_eq!(alternate_name("plain"), "plain");
}

#[test]
fn manifests_are_found_installed_first_then_in_the_catalog() {
    let catalog = get_verified_manifests();
    let mut installed = vec![catalog[1].clone()];
    installed[0].disk_size_bytes = 1234;
    let name = installed[0].name.clone();
    let found = get_manifest(&installed, &name).unwrap();
    assert_eq!(found.disk_size_bytes, 1234);
    let other = catalog[0].name.replace('/', "%2F");
    assert_eq!(get_manifest(&installed, &other).unwrap().name, catalog[0].name);
    assert!(get_manifest(&installed, "nobody/nothing").is_none());
}

#[test]
fn listings_skip_duplicates() {
    let catalog = get_verified_manifests();
    let mut models = vec![catalog[0].clone()];
    add_if_new(&mut models, catalog[0].clone());
    assert_eq!(models.len(), 1);
    add_if_new(&mut models, catalog[1].clone());
    assert_eq!(models.len(), 2);
}

#[test]
fn deletion_requests_name_their_model() {
    assert_eq!(delete_name("  /facebook%2Fdinov2-small "), "facebook/dinov2-small");
    assert_eq!(delete_name("a%2fb%2Fc"), "a/b/c");
    assert_eq!(delete_name("%2"), "%2");
    let q = DeleteModelQuery { name: None };
    let body = DeleteModelPayload { name: None, model: Some("m".to_string()) };
    assert_eq!(delete_target(&q, Some(&body)).unwrap(), "m");
    let q2 = DeleteModelQuery { name: Some("q".to_string()) };
    assert_eq!(delete_target(&q2, Some(&body)).unwrap(), "q");
    assert_eq!(delete_target(&q, None).unwrap_err().status, 400);
}

#[test]
fn camera_queries_default_and_clamp() {
    assert_eq!(CameraControlQuery { device: None, fps: None }.resolve(), (0, 10));
    assert_eq!(CameraControlQuery { device: Some(2), fps: Some(100) }.resolve(), (2, 30));
    assert_eq!(CameraControlQuery { device: None, fps: Some(0) }.resolve(), (0, 1));
    assert_eq!(frame_interval_ms(0), 100);
    assert_eq!(frame_interval_ms(30), 33);
}

#[test]
fn weights_are_looked_for_under_both_spellings() {
    let cfg = jepa::config::RuntimeConfig::init("/home/u/.jepa", "127.0.0.1".to_string(), 11435, false);
    assert_eq!(
        jepa::catalog::weights_candidates(&cfg, "facebook%2Fvjepa2-vitl-fpc64-256"),
        vec![
            "/home/u/.jepa/models/facebook/vjepa2-vitl-fpc64-256/model.safetensors".to_string(),
            "/home/u/.jepa/models/facebook/vjepa2-vitl-fpc64-256/model.safetensors".to_string(),
        ]
    );
    assert_eq!(
        jepa::catalog::weights_candidates(&cfg, "ijepa"),
        vec!["/home/u/.jepa/models/ijepa/model.safetensors".to_string(); 2]
    );
    assert!(jepa::catalog::weights_candidates(&cfg, "../etc").is_empty());
}

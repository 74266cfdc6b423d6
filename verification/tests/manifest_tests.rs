use jepa::manifest::{get_verified_manifests, JepafileConfig};
use jepa::types::{JepaError, ModelModality};

#[test]
fn test_all_verified_manifests_valid() {
    let manifests = get_verified_manifests();
    assert!(!manifests.is_empty());
    assert!(manifests.len() >= 8);

    // Verify multi-organization catalog coverage
    let has_google = manifests.iter().any(|m| m.name.starts_with("google/"));
    let has_microsoft = manifests.iter().any(|m| m.name.starts_with("microsoft/"));
    let has_timm = manifests.iter().any(|m| m.name.starts_with("timm/"));
    let has_facebook = manifests.iter().any(|m| m.name.starts_with("facebook"));

    assert!(has_google, "Catalog must include Google models");
    assert!(has_microsoft, "Catalog must include Microsoft models");
    assert!(has_timm, "Catalog must include TIMM models");
    assert!(has_facebook, "Catalog must include Facebook/Meta models");

    for m in manifests {
        assert!(m.patch_size == 14 || m.patch_size == 16);
        assert!(m.embed_dim % m.num_heads == 0);
        assert!(m.num_layers > 0);
        assert!(m.image_size > 0);
        assert!(!m.weights_file.is_empty());
    }
}

fn jepafile() -> JepafileConfig {
    JepafileConfig {
        name: "facebook/dinov2-large".to_string(),
        repo_id: "facebook/dinov2-large".to_string(),
        architecture: "DINOv2 ViT-L/14".to_string(),
        modality: ModelModality::Image,
        patch_size: 14,
        embed_dim: 1024,
        num_layers: 24,
        num_heads: 16,
        image_size: 224,
        frames: None,
        parameter_count: None,
        weights_file: None,
    }
}

#[test]
fn jepafile_validation_rules() {
    assert!(jepafile().validate().is_ok());
    let mut c = jepafile();
    c.name = "   ".to_string();
    assert!(matches!(c.validate(), Err(JepaError::InvalidPayload(_))));
    let mut c = jepafile();
    c.patch_size = 8;
    assert!(matches!(c.validate(), Err(JepaError::InvalidPayload(m)) if m.contains("patch_size 8")));
    let mut c = jepafile();
    c.num_heads = 10;
    assert!(matches!(c.validate(), Err(JepaError::InvalidPayload(m)) if m.contains("divisible")));
    let mut c = jepafile();
    c.num_layers = 0;
    assert!(c.validate().is_err());
    let mut c = jepafile();
    c.image_size = 0;
    assert!(c.validate().is_err());
    let mut c = jepafile();
    c.image_size = 225;
    match c.validate() {
        Err(JepaError::InvalidPayload(m)) => assert_eq!(m, "image_size (225) must be a multiple of patch_size (14)"),
        other => panic!("unexpected {:?}", other),
    }
}

#[test]
fn jepafile_becomes_a_manifest_with_defaults() {
    let m = jepafile().to_manifest(42).unwrap();
    assert_eq!(m.name, "facebook/dinov2-large");
    assert_eq!(m.parameter_count, "Unknown");
    assert_eq!(m.weights_file, "model.safetensors");
    assert_eq!(m.disk_size_bytes, 42);
    assert!(m.created_at_ms > 1_600_000_000_000);
}

#[test]
fn zero_heads_are_refused_not_divided_by() {
    let mut c = jepafile();
    c.num_heads = 0;
    match c.validate() {
        Err(JepaError::InvalidPayload(m)) => assert_eq!(m, "embed_dim (1024) must be divisible by num_heads (0)"),
        other => panic!("unexpected {other:?}"),
    }
    assert!(c.to_manifest(0).is_err());
}

#[test]
fn the_catalog_offers_image_models_only() {
    let manifests = get_verified_manifests();
    assert_eq!(manifests.len(), 8);
    assert!(manifests.iter().all(|m| m.modality == ModelModality::Image && m.frames.is_none()));
    assert!(manifests.iter().all(|m| m.name != "facebookresearch/jepa:vjepa_vitl16"));
}

use jepa::types::JepaError;
use jepa::vit::checkpoint_report;
use jepa::vit::{candidate_sources, Source, VitVariant};

#[test]
fn fused_qkv_and_hf_names_are_candidates() {
    let names: Vec<String> = candidate_sources("blocks.3.attn.k_proj.weight")
        .into_iter()
        .map(|s| match s {
            Source::Named(n) => n,
            Source::FusedQkv { name, index } => format!("{name}#{index}"),
        })
        .collect();
    assert!(names.contains(&"encoder.layer.3.attention.attention.key.weight".to_string()));
    assert!(names.contains(&"vit.encoder.layer.3.attention.attention.key.weight".to_string()));
    assert!(names.contains(&"blocks.3.attn.qkv.weight#1".to_string()));
    let ls: Vec<String> = candidate_sources("blocks.0.ls1")
        .into_iter()
        .filter_map(|s| if let Source::Named(n) = s { Some(n) } else { None })
        .collect();
    assert!(ls.contains(&"encoder.layer.0.layer_scale1.lambda1".to_string()));
}

#[test]
fn candidate_sources_starts_with_the_target_itself() {
    let c = candidate_sources("norm.weight");
    match &c[0] {
        Source::Named(n) => assert_eq!(n, "norm.weight"),
        _ => panic!("first candidate must be the name itself"),
    }
    let names: Vec<String> = c
        .into_iter()
        .filter_map(|s| if let Source::Named(n) = s { Some(n) } else { None })
        .collect();
    assert!(names.contains(&"layernorm.weight".to_string()));
    assert!(names.contains(&"dinov2.layernorm.weight".to_string()));
    assert!(names.contains(&"encoder.layernorm.weight".to_string()));
}

#[test]
fn unrelated_names_have_only_themselves_as_candidate() {
    let c = candidate_sources("something.else");
    assert_eq!(c.len(), 1);
    let c = candidate_sources("blocks.7");
    assert_eq!(c.len(), 1);
}

#[test]
fn variants_report_cls_and_layer_scale() {
    assert!(!VitVariant::Plain.has_cls());
    assert!(VitVariant::Cls.has_cls());
    assert!(VitVariant::DinoV2.has_cls());
    assert!(!VitVariant::VJepa2.has_cls());
    assert!(VitVariant::DinoV2.has_layer_scale());
    assert!(!VitVariant::Cls.has_layer_scale());
    assert_eq!(VitVariant::default(), VitVariant::Plain);
}

#[test]
fn checkpoints_must_exist_and_cover_every_tensor() {
    match checkpoint_report("ijepa", "/m/ijepa/model.safetensors", false, 0, 0) {
        Err(JepaError::ModelNotFound(m)) => assert_eq!(
            m,
            "Weights for 'ijepa' not found at /m/ijepa/model.safetensors. Run `jepa pull ijepa` first."
        ),
        _ => panic!("a missing file is a model that was not pulled"),
    }
    let e = checkpoint_report("ijepa", "/m/w", true, 10, 12).err().unwrap();
    assert!(matches!(e, JepaError::WeightsIncomplete { loaded: 10, expected: 12 }));
    assert_eq!(e.message(), "Weights incomplete: 10/12 tensors loaded from checkpoint");
    let w = checkpoint_report("ijepa", "/m/w", true, 12, 12).unwrap();
    assert_eq!((w.loaded, w.expected, w.source.as_str()), (12, 12, "safetensors"));
    assert!(w.is_complete());
}

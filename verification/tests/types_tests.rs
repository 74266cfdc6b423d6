use jepa::types::device_name;
use jepa::types::{engine_error_status, HardwareBackend, JepaError, ModelModality, Role, WeightReport};

#[test]
fn errors_read_as_their_kind_and_payload() {
    assert_eq!(JepaError::ModelNotFound("x".to_string()).message(), "Model not found: x");
    assert_eq!(JepaError::PayloadTooLarge(10).message(), "Payload size exceeded limit: 10 bytes");
    assert_eq!(
        JepaError::WeightsIncomplete { loaded: 3, expected: 5 }.message(),
        "Weights incomplete: 3/5 tensors loaded from checkpoint"
    );
    assert_eq!(JepaError::RateLimitExceeded.message(), "Rate limit exceeded");
}

#[test]
fn errors_map_to_http_statuses() {
    assert_eq!(engine_error_status(&JepaError::ModelNotFound("x".to_string())), 409);
    assert_eq!(engine_error_status(&JepaError::InvalidPayload("x".to_string())), 400);
    assert_eq!(engine_error_status(&JepaError::ImageProcessing("x".to_string())), 400);
    assert_eq!(engine_error_status(&JepaError::WeightsIncomplete { loaded: 1, expected: 2 }), 422);
    assert_eq!(engine_error_status(&JepaError::Io("x".to_string())), 500);
}

#[test]
fn names_and_completeness() {
    assert_eq!(ModelModality::Multimodal.as_str(), "multimodal");
    assert_eq!(HardwareBackend::Cuda.label(), "CUDA (NVIDIA)");
    assert_eq!(Role::Inference.as_str(), "inference");
    assert!(WeightReport { loaded: 3, expected: 3, source: "f".to_string() }.is_complete());
    assert!(!WeightReport { loaded: 0, expected: 0, source: "f".to_string() }.is_complete());
    assert!(!WeightReport { loaded: 2, expected: 3, source: "f".to_string() }.is_complete());
}

#[test]
fn device_names_follow_the_backend() {
    assert_eq!(device_name(HardwareBackend::Cpu, None, "Ryzen 7", 16), "CPU - Ryzen 7 (16 Cores)");
    assert_eq!(device_name(HardwareBackend::Metal, None, "Apple M2", 8), "Apple Silicon GPU (Metal - Apple M2)");
    assert_eq!(device_name(HardwareBackend::Cuda, None, "x", 1), "NVIDIA GPU (CUDA)");
    assert_eq!(device_name(HardwareBackend::Cuda, Some("NVIDIA GPU (CUDA)"), "x", 1), "NVIDIA GPU (CUDA)");
    assert_eq!(device_name(HardwareBackend::Cpu, Some("custom"), "x", 1), "custom");
}

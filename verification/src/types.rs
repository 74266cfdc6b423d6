//! Shared data types and the runtime's error kinds.

use vstd::prelude::*;

use crate::text::{decimal, spec_decimal};

verus! {

/// Core error kinds across the runtime. Errors raised by outside libraries (I/O,
/// JSON, tensor framework) carry their message text.
#[derive(Debug)]
pub enum JepaError {
    ModelNotFound(String),
    DeviceError(String),
    InferenceError(String),
    AuthError(String),
    Forbidden(String),
    InvalidPayload(String),
    PayloadTooLarge(usize),
    RateLimitExceeded,
    CameraError(String),
    HubError(String),
    PathTraversal(String),
    Io(String),
    Serialization(String),
    ImageProcessing(String),
    Candle(String),
    WeightsIncomplete { loaded: usize, expected: usize },
}

/// The text shown for an error: its kind, then its payload.
pub open spec fn spec_error_message(e: JepaError) -> Seq<char> {
    match e {
        JepaError::ModelNotFound(s) => "Model not found: "@ + s@,
        JepaError::DeviceError(s) => "Device error: "@ + s@,
        JepaError::InferenceError(s) => "Inference execution failed: "@ + s@,
        JepaError::AuthError(s) => "Authentication failed: "@ + s@,
        JepaError::Forbidden(s) => "Authorization forbidden: "@ + s@,
        JepaError::InvalidPayload(s) => "Invalid request payload: "@ + s@,
        JepaError::PayloadTooLarge(n) => "Payload size exceeded limit: "@ + spec_decimal(n as nat) + " bytes"@,
        JepaError::RateLimitExceeded => "Rate limit exceeded"@,
        JepaError::CameraError(s) => "Camera capture error: "@ + s@,
        JepaError::HubError(s) => "Hugging Face Hub error: "@ + s@,
        JepaError::PathTraversal(s) => "Path traversal detected: "@ + s@,
        JepaError::Io(s) => "I/O error: "@ + s@,
        JepaError::Serialization(s) => "Serialization error: "@ + s@,
        JepaError::ImageProcessing(s) => "Image processing error: "@ + s@,
        JepaError::Candle(s) => "Candle framework error: "@ + s@,
        JepaError::WeightsIncomplete { loaded, expected } => "Weights incomplete: "@ + spec_decimal(loaded as nat)
            + "/"@ + spec_decimal(expected as nat) + " tensors loaded from checkpoint"@,
    }
}

impl JepaError {
    /// The error as shown to users.
    pub fn message(&self) -> (m: String)
        ensures
            m@ == spec_error_message(*self),
    {
        match self {
            JepaError::ModelNotFound(s) => String::from_str("Model not found: ").concat(s.as_str()),
            JepaError::DeviceError(s) => String::from_str("Device error: ").concat(s.as_str()),
            JepaError::InferenceError(s) => String::from_str("Inference execution failed: ").concat(s.as_str()),
            JepaError::AuthError(s) => String::from_str("Authentication failed: ").concat(s.as_str()),
            JepaError::Forbidden(s) => String::from_str("Authorization forbidden: ").concat(s.as_str()),
            JepaError::InvalidPayload(s) => String::from_str("Invalid request payload: ").concat(s.as_str()),
            JepaError::PayloadTooLarge(n) => {
                let r = String::from_str("Payload size exceeded limit: ").concat(decimal(*n as u64).as_str()).concat(
                    " bytes",
                );
                r
            },
            JepaError::RateLimitExceeded => String::from_str("Rate limit exceeded"),
            JepaError::CameraError(s) => String::from_str("Camera capture error: ").concat(s.as_str()),
            JepaError::HubError(s) => String::from_str("Hugging Face Hub error: ").concat(s.as_str()),
            JepaError::PathTraversal(s) => String::from_str("Path traversal detected: ").concat(s.as_str()),
            JepaError::Io(s) => String::from_str("I/O error: ").concat(s.as_str()),
            JepaError::Serialization(s) => String::from_str("Serialization error: ").concat(s.as_str()),
            JepaError::ImageProcessing(s) => String::from_str("Image processing error: ").concat(s.as_str()),
            JepaError::Candle(s) => String::from_str("Candle framework error: ").concat(s.as_str()),
            JepaError::WeightsIncomplete { loaded, expected } => {
                let r = String::from_str("Weights incomplete: ").concat(decimal(*loaded as u64).as_str()).concat(
                    "/",
                ).concat(decimal(*expected as u64).as_str()).concat(" tensors loaded from checkpoint");
                r
            },
        }
    }
}

/// HTTP status an engine error is answered with.
pub open spec fn spec_error_status(e: JepaError) -> u16 {
    match e {
        JepaError::ModelNotFound(_) => 409,
        JepaError::InvalidPayload(_) | JepaError::ImageProcessing(_) => 400,
        JepaError::WeightsIncomplete { .. } => 422,
        _ => 500,
    }
}

/// Map an engine error onto an HTTP status: a model that is not downloaded is a
/// conflict, a bad payload a client error, an incomplete checkpoint unprocessable.
pub fn engine_error_status(e: &JepaError) -> (status: u16)
    ensures
        status == spec_error_status(*e),
{
    match e {
        JepaError::ModelNotFound(_) => 409,
        JepaError::InvalidPayload(_) | JepaError::ImageProcessing(_) => 400,
        JepaError::WeightsIncomplete { .. } => 422,
        _ => 500,
    }
}

/// Supported representation learning modalities.
#[derive(Debug, Clone, Copy, PartialEq, Eq, Structural)]
pub enum ModelModality {
    Image,
    Video,
    Multimodal,
    Audio,
}

impl ModelModality {
    /// Lower-case name, as serialised.
    pub fn as_str(&self) -> (s: &'static str)
        ensures
            s@ == match *self {
                ModelModality::Image => "image"@,
                ModelModality::Video => "video"@,
                ModelModality::Multimodal => "multimodal"@,
                ModelModality::Audio => "audio"@,
            },
    {
        match self {
            ModelModality::Image => "image",
            ModelModality::Video => "video",
            ModelModality::Multimodal => "multimodal",
            ModelModality::Audio => "audio",
        }
    }
}

/// Compute acceleration backends.
#[derive(Debug, Clone, Copy, PartialEq, Eq, Structural)]
pub enum HardwareBackend {
    Metal,
    Cuda,
    Cpu,
}

impl HardwareBackend {
    /// Human-readable name shown in the status panel.
    pub fn label(&self) -> (s: &'static str)
        ensures
            s@ == match *self {
                HardwareBackend::Metal => "Metal (Apple Silicon)"@,
                HardwareBackend::Cuda => "CUDA (NVIDIA)"@,
                HardwareBackend::Cpu => "CPU (Optimized Multi-thread)"@,
            },
    {
        match self {
            HardwareBackend::Metal => "Metal (Apple Silicon)",
            HardwareBackend::Cuda => "CUDA (NVIDIA)",
            HardwareBackend::Cpu => "CPU (Optimized Multi-thread)",
        }
    }
}

/// The device name shown for `backend`: an explicit name wins; otherwise it is read
/// off the processor (`cpu_brand`, `cpu_threads` logical cores).
pub open spec fn spec_device_name(
    backend: HardwareBackend,
    name_override: Option<Seq<char>>,
    cpu_brand: Seq<char>,
    cpu_threads: nat,
) -> Seq<char> {
    match name_override {
        Some(custom) => custom,
        None => match backend {
            HardwareBackend::Metal => "Apple Silicon GPU (Metal - "@ + cpu_brand + ")"@,
            HardwareBackend::Cuda => "NVIDIA GPU (CUDA)"@,
            HardwareBackend::Cpu => "CPU - "@ + cpu_brand + " ("@ + spec_decimal(cpu_threads) + " Cores)"@,
        },
    }
}

/// The device name reported in hardware telemetry.
pub fn device_name(backend: HardwareBackend, name_override: Option<&str>, cpu_brand: &str, cpu_threads: usize) -> (s:
    String)
    ensures
        s@ == spec_device_name(
            backend,
            match name_override {
                Some(c) => Some(c@),
                None => None,
            },
            cpu_brand@,
            cpu_threads as nat,
        ),
{
    match name_override {
        Some(custom) => String::from_str(custom),
        None => match backend {
            HardwareBackend::Metal => String::from_str("Apple Silicon GPU (Metal - ").concat(cpu_brand).concat(")"),
            HardwareBackend::Cuda => String::from_str("NVIDIA GPU (CUDA)"),
            HardwareBackend::Cpu => String::from_str("CPU - ").concat(cpu_brand).concat(" (").concat(
                decimal(cpu_threads as u64).as_str(),
            ).concat(" Cores)"),
        },
    }
}

/// Checkpoint coverage of a loaded model. `loaded == expected` means every
/// parameter came from the safetensors file; anything else means the model is
/// (partially) random and its embeddings are meaningless.
#[derive(Debug, Clone)]
pub struct WeightReport {
    pub loaded: usize,
    pub expected: usize,
    pub source: String,
}

impl WeightReport {
    pub fn is_complete(&self) -> (r: bool)
        ensures
            r == (self.loaded == self.expected && self.expected > 0),
    {
        self.loaded == self.expected && self.expected > 0
    }
}

/// API token access scopes.
#[derive(Debug, Clone, Copy, PartialEq, Eq, Structural)]
pub enum Role {
    Admin,
    Inference,
}

impl Role {
    pub fn as_str(&self) -> (s: &'static str)
        ensures
            s@ == match *self {
                Role::Admin => "admin"@,
                Role::Inference => "inference"@,
            },
    {
        match self {
            Role::Admin => "admin",
            Role::Inference => "inference",
        }
    }
}

/// Key creation request payload.
#[derive(Debug, Clone)]
pub struct CreateKeyRequest {
    pub name: String,
    pub role: Role,
    pub expire_days: Option<i64>,
}

/// Camera device info.
#[derive(Debug, Clone)]
pub struct CameraDeviceInfo {
    pub index: usize,
    pub name: String,
}

} // verus!

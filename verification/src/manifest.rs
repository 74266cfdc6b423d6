//! Jepafile manifest schema, the verified built-in catalog, and validation rules.

use vstd::prelude::*;

use crate::clock::now_millis;
use crate::text::{char_is_whitespace, decimal, spec_decimal, spec_is_whitespace};
use crate::types::{JepaError, ModelModality};

verus! {

/// A string that `str::trim` reduces to nothing: every character is white space.
pub open spec fn is_blank(s: Seq<char>) -> bool {
    forall|i: int| 0 <= i < s.len() ==> spec_is_whitespace(#[trigger] s[i])
}

/// Whether `s` is empty once trimmed.
pub fn trimmed_is_empty(s: &str) -> (r: bool)
    ensures
        r == is_blank(s@),
{
    let n: usize = s.unicode_len();
    let mut i: usize = 0;
    while i < n
        invariant
            n == s@.len(),
            i <= n,
            forall|j: int| 0 <= j < i ==> spec_is_whitespace(#[trigger] s@[j]),
        decreases n - i,
    {
        if !char_is_whitespace(s.get_char(i)) {
            return false;
        }
        i = i + 1;
    }
    true
}

/// Canonical manifest of an installed or catalogued model.
#[derive(Debug, Clone)]
pub struct ModelManifest {
    pub name: String,
    pub repo_id: String,
    pub architecture: String,
    pub modality: ModelModality,
    pub patch_size: usize,
    pub embed_dim: usize,
    pub num_layers: usize,
    pub num_heads: usize,
    pub image_size: usize,
    pub frames: Option<usize>,
    pub parameter_count: String,
    pub disk_size_bytes: u64,
    pub weights_file: String,
    /// Milliseconds since the Unix epoch.
    pub created_at_ms: i64,
}

/// A manifest without its creation time.
pub struct ManifestView {
    pub name: Seq<char>,
    pub repo_id: Seq<char>,
    pub architecture: Seq<char>,
    pub modality: ModelModality,
    pub patch_size: nat,
    pub embed_dim: nat,
    pub num_layers: nat,
    pub num_heads: nat,
    pub image_size: nat,
    pub frames: Option<usize>,
    pub parameter_count: Seq<char>,
    pub disk_size_bytes: nat,
    pub weights_file: Seq<char>,
}

impl View for ModelManifest {
    type V = ManifestView;

    open spec fn view(&self) -> ManifestView {
        ManifestView {
            name: self.name@,
            repo_id: self.repo_id@,
            architecture: self.architecture@,
            modality: self.modality,
            patch_size: self.patch_size as nat,
            embed_dim: self.embed_dim as nat,
            num_layers: self.num_layers as nat,
            num_heads: self.num_heads as nat,
            image_size: self.image_size as nat,
            frames: self.frames,
            parameter_count: self.parameter_count@,
            disk_size_bytes: self.disk_size_bytes as nat,
            weights_file: self.weights_file@,
        }
    }
}

impl ModelManifest {
    /// A field-by-field copy.
    pub fn duplicate(&self) -> (r: Self)
        ensures
            r@ == self@,
            r.created_at_ms == self.created_at_ms,
    {
        ModelManifest {
            name: self.name.clone(),
            repo_id: self.repo_id.clone(),
            architecture: self.architecture.clone(),
            modality: self.modality,
            patch_size: self.patch_size,
            embed_dim: self.embed_dim,
            num_layers: self.num_layers,
            num_heads: self.num_heads,
            image_size: self.image_size,
            frames: self.frames,
            parameter_count: self.parameter_count.clone(),
            disk_size_bytes: self.disk_size_bytes,
            weights_file: self.weights_file.clone(),
            created_at_ms: self.created_at_ms,
        }
    }
}

/// The structural rules every loadable manifest obeys.
pub open spec fn manifest_shape_ok(m: ManifestView) -> bool {
    &&& (m.patch_size == 14 || m.patch_size == 16)
    &&& m.embed_dim > 0
    &&& m.num_heads > 0
    &&& m.embed_dim % m.num_heads == 0
    &&& m.num_layers > 0
    &&& m.image_size > 0
    &&& m.weights_file.len() > 0
}

/// One row of the catalog.
pub open spec fn row(
    name: Seq<char>,
    repo_id: Seq<char>,
    architecture: Seq<char>,
    modality: ModelModality,
    patch_size: nat,
    embed_dim: nat,
    num_layers: nat,
    num_heads: nat,
    frames: Option<usize>,
    parameter_count: Seq<char>,
    disk_size_bytes: nat,
) -> ManifestView {
    ManifestView {
        name,
        repo_id,
        architecture,
        modality,
        patch_size,
        embed_dim,
        num_layers,
        num_heads,
        image_size: 224,
        frames,
        parameter_count,
        disk_size_bytes,
        weights_file: "model.safetensors"@,
    }
}

/// The verified built-in catalog, in order.
pub open spec fn spec_catalog() -> Seq<ManifestView> {
    seq![
        row("google/vit-base-patch16-224"@, "google/vit-base-patch16-224"@, "ViT-B/16"@, ModelModality::Image, 16, 768, 12, 12, None, "86M"@, 343_000_000),
        row("google/siglip-base-patch16-224"@, "google/siglip-base-patch16-224"@, "SigLIP-B/16"@, ModelModality::Image, 16, 768, 12, 12, None, "86M"@, 343_000_000),
        row("microsoft/beit-base-patch16-224"@, "microsoft/beit-base-patch16-224"@, "BEiT-B/16"@, ModelModality::Image, 16, 768, 12, 12, None, "86M"@, 343_000_000),
        row("timm/vit_base_patch16_224.augreg_in21k"@, "timm/vit_base_patch16_224.augreg_in21k"@, "ViT-B/16"@, ModelModality::Image, 16, 768, 12, 12, None, "86M"@, 343_000_000),
        row("facebook/dinov2-small"@, "facebook/dinov2-small"@, "ViT-S/14"@, ModelModality::Image, 14, 384, 12, 6, None, "22M"@, 88_000_000),
        row("facebook/dinov2-base"@, "facebook/dinov2-base"@, "ViT-B/14"@, ModelModality::Image, 14, 768, 12, 12, None, "86M"@, 343_000_000),
        row("facebook/ijepa_vitb16_1k"@, "facebook/ijepa_vitb16_1k"@, "ViT-B/16"@, ModelModality::Image, 16, 768, 12, 12, None, "86M"@, 344_000_000),
        row("facebook/ijepa_vith14_1k"@, "facebook/ijepa_vith14_1k"@, "ViT-H/14"@, ModelModality::Image, 14, 1280, 32, 16, None, "632M"@, 2_528_000_000),
    ]
}

#[allow(clippy::too_many_arguments)]
fn catalog_entry(
    name: &str,
    repo_id: &str,
    architecture: &str,
    modality: ModelModality,
    patch_size: usize,
    embed_dim: usize,
    num_layers: usize,
    num_heads: usize,
    frames: Option<usize>,
    parameter_count: &str,
    disk_size_bytes: u64,
    created_at_ms: i64,
) -> (m: ModelManifest)
    ensures
        m@ == row(
            name@,
            repo_id@,
            architecture@,
            modality,
            patch_size as nat,
            embed_dim as nat,
            num_layers as nat,
            num_heads as nat,
            frames,
            parameter_count@,
            disk_size_bytes as nat,
        ),
        m.created_at_ms == created_at_ms,
{
    ModelManifest {
        name: String::from_str(name),
        repo_id: String::from_str(repo_id),
        architecture: String::from_str(architecture),
        modality,
        patch_size,
        embed_dim,
        num_layers,
        num_heads,
        image_size: 224,
        frames,
        parameter_count: String::from_str(parameter_count),
        disk_size_bytes,
        weights_file: String::from_str("model.safetensors"),
        created_at_ms,
    }
}

/// Retrieve verified built-in catalog manifest specifications, all stamped with the
/// time of the call.
pub fn get_verified_manifests() -> (out: Vec<ModelManifest>)
    ensures
        out@.map_values(|m: ModelManifest| m@) == spec_catalog(),
        forall|i: int|
            0 <= i < out@.len() ==> (#[trigger] out@[i]).created_at_ms == out@[0].created_at_ms
                && out@[i].created_at_ms >= 0,
{
    let now: i64 = now_millis();
    let mut out: Vec<ModelManifest> = Vec::new();
    out.push(catalog_entry("google/vit-base-patch16-224", "google/vit-base-patch16-224", "ViT-B/16", ModelModality::Image, 16, 768, 12, 12, None, "86M", 343_000_000, now));
    out.push(catalog_entry("google/siglip-base-patch16-224", "google/siglip-base-patch16-224", "SigLIP-B/16", ModelModality::Image, 16, 768, 12, 12, None, "86M", 343_000_000, now));
    out.push(catalog_entry("microsoft/beit-base-patch16-224", "microsoft/beit-base-patch16-224", "BEiT-B/16", ModelModality::Image, 16, 768, 12, 12, None, "86M", 343_000_000, now));
    out.push(catalog_entry("timm/vit_base_patch16_224.augreg_in21k", "timm/vit_base_patch16_224.augreg_in21k", "ViT-B/16", ModelModality::Image, 16, 768, 12, 12, None, "86M", 343_000_000, now));
    out.push(catalog_entry("facebook/dinov2-small", "facebook/dinov2-small", "ViT-S/14", ModelModality::Image, 14, 384, 12, 6, None, "22M", 88_000_000, now));
    out.push(catalog_entry("facebook/dinov2-base", "facebook/dinov2-base", "ViT-B/14", ModelModality::Image, 14, 768, 12, 12, None, "86M", 343_000_000, now));
    out.push(catalog_entry("facebook/ijepa_vitb16_1k", "facebook/ijepa_vitb16_1k", "ViT-B/16", ModelModality::Image, 16, 768, 12, 12, None, "86M", 344_000_000, now));
    out.push(catalog_entry("facebook/ijepa_vith14_1k", "facebook/ijepa_vith14_1k", "ViT-H/14", ModelModality::Image, 14, 1280, 32, 16, None, "632M", 2_528_000_000, now));
    assert(out@.map_values(|m: ModelManifest| m@) =~= spec_catalog());
    out
}


/// Whether `s` starts with `p`.
pub open spec fn has_prefix(s: Seq<char>, p: Seq<char>) -> bool {
    p.len() <= s.len() && s.take(p.len() as int) == p
}

/// Every catalog entry obeys the manifest rules and is an image model (no verified
/// video model is offered), and the catalog spans at least eight models from Google,
/// Microsoft, timm and Facebook/Meta.
pub proof fn lemma_catalog_is_loadable()
    ensures
        spec_catalog().len() >= 8,
        forall|i: int|
            0 <= i < spec_catalog().len() ==> (#[trigger] spec_catalog()[i]).modality == ModelModality::Image
                && spec_catalog()[i].frames is None,
        forall|i: int| 0 <= i < spec_catalog().len() ==> manifest_shape_ok(#[trigger] spec_catalog()[i]),
        exists|i: int| 0 <= i < spec_catalog().len() && has_prefix(#[trigger] spec_catalog()[i].name, "google/"@),
        exists|i: int| 0 <= i < spec_catalog().len() && has_prefix(#[trigger] spec_catalog()[i].name, "microsoft/"@),
        exists|i: int| 0 <= i < spec_catalog().len() && has_prefix(#[trigger] spec_catalog()[i].name, "timm/"@),
        exists|i: int| 0 <= i < spec_catalog().len() && has_prefix(#[trigger] spec_catalog()[i].name, "facebook"@),
{
    reveal_strlit("model.safetensors");
    reveal_strlit("google/");
    reveal_strlit("microsoft/");
    reveal_strlit("timm/");
    reveal_strlit("facebook");
    reveal_strlit("google/vit-base-patch16-224");
    reveal_strlit("microsoft/beit-base-patch16-224");
    reveal_strlit("timm/vit_base_patch16_224.augreg_in21k");
    reveal_strlit("facebook/dinov2-small");
    let c = spec_catalog();
    assert(c[0].name.take(7) =~= "google/"@);
    assert(has_prefix(c[0].name, "google/"@));
    assert(c[2].name.take(10) =~= "microsoft/"@);
    assert(has_prefix(c[2].name, "microsoft/"@));
    assert(c[3].name.take(5) =~= "timm/"@);
    assert(has_prefix(c[3].name, "timm/"@));
    assert(c[4].name.take(8) =~= "facebook"@);
    assert(has_prefix(c[4].name, "facebook"@));
    assert forall|i: int| 0 <= i < c.len() implies manifest_shape_ok(#[trigger] c[i]) by {
        assert(c[i].weights_file == "model.safetensors"@);
    }
}

/// Parsable manifest file schema (`Jepafile.json`).
#[derive(Debug, Clone)]
pub struct JepafileConfig {
    pub name: String,
    pub repo_id: String,
    pub architecture: String,
    pub modality: ModelModality,
    pub patch_size: usize,
    pub embed_dim: usize,
    pub num_layers: usize,
    pub num_heads: usize,
    pub image_size: usize,
    pub frames: Option<usize>,
    pub parameter_count: Option<String>,
    pub weights_file: Option<String>,
}

impl JepafileConfig {
    /// Every rule of the schema holds.
    pub open spec fn spec_valid(&self) -> bool {
        &&& !is_blank(self.name@)
        &&& !is_blank(self.repo_id@)
        &&& (self.patch_size == 14 || self.patch_size == 16)
        &&& self.embed_dim != 0
        &&& self.num_heads != 0
        &&& self.embed_dim % self.num_heads == 0
        &&& self.num_layers != 0
        &&& self.image_size != 0
        &&& self.image_size % self.patch_size == 0
    }

    /// Why the manifest is refused: the first rule it breaks, in the order the rules
    /// are checked; none when it is valid.
    pub open spec fn spec_validation_error(&self) -> Option<Seq<char>> {
        if is_blank(self.name@) {
            Some("Manifest 'name' must not be empty"@)
        } else if is_blank(self.repo_id@) {
            Some("Manifest 'repo_id' must not be empty"@)
        } else if self.patch_size != 14 && self.patch_size != 16 {
            Some("Unsupported patch_size "@ + spec_decimal(self.patch_size as nat) + ". Supported: 14 or 16"@)
        } else if self.embed_dim == 0 || self.num_heads == 0 || self.embed_dim % self.num_heads != 0 {
            Some(
                "embed_dim ("@ + spec_decimal(self.embed_dim as nat) + ") must be divisible by num_heads ("@
                    + spec_decimal(self.num_heads as nat) + ")"@,
            )
        } else if self.num_layers == 0 {
            Some("num_layers must be greater than 0"@)
        } else if self.image_size == 0 {
            Some("image_size must be greater than 0"@)
        } else if self.image_size % self.patch_size != 0 {
            Some(
                "image_size ("@ + spec_decimal(self.image_size as nat) + ") must be a multiple of patch_size ("@
                    + spec_decimal(self.patch_size as nat) + ")"@,
            )
        } else {
            None
        }
    }

    /// Strict schema validation: the first rule broken is reported (a zero head count
    /// fails the divisibility rule).
    pub fn validate(&self) -> (r: Result<(), JepaError>)
        ensures
            r is Ok <==> self.spec_valid(),
            match self.spec_validation_error() {
                None => r is Ok,
                Some(m) => r matches Err(JepaError::InvalidPayload(x)) && x@ == m,
            },
    {
        if trimmed_is_empty(self.name.as_str()) {
            return Err(JepaError::InvalidPayload(String::from_str("Manifest 'name' must not be empty")));
        }
        if trimmed_is_empty(self.repo_id.as_str()) {
            return Err(JepaError::InvalidPayload(String::from_str("Manifest 'repo_id' must not be empty")));
        }
        if self.patch_size != 14 && self.patch_size != 16 {
            let msg: String = String::from_str("Unsupported patch_size ").concat(
                decimal(self.patch_size as u64).as_str(),
            ).concat(". Supported: 14 or 16");
            return Err(JepaError::InvalidPayload(msg));
        }
        if self.embed_dim == 0 || self.num_heads == 0 || self.embed_dim % self.num_heads != 0 {
            let msg: String = String::from_str("embed_dim (").concat(decimal(self.embed_dim as u64).as_str()).concat(
                ") must be divisible by num_heads (",
            ).concat(decimal(self.num_heads as u64).as_str()).concat(")");
            return Err(JepaError::InvalidPayload(msg));
        }
        if self.num_layers == 0 {
            return Err(JepaError::InvalidPayload(String::from_str("num_layers must be greater than 0")));
        }
        if self.image_size == 0 {
            return Err(JepaError::InvalidPayload(String::from_str("image_size must be greater than 0")));
        }
        if self.image_size % self.patch_size != 0 {
            let msg: String = String::from_str("image_size (").concat(decimal(self.image_size as u64).as_str()).concat(
                ") must be a multiple of patch_size (",
            ).concat(decimal(self.patch_size as u64).as_str()).concat(")");
            return Err(JepaError::InvalidPayload(msg));
        }
        Ok(())
    }

    /// Convert to a canonical manifest with validation.
    pub fn to_manifest(&self, disk_size: u64) -> (r: Result<ModelManifest, JepaError>)
        ensures
            r is Ok <==> self.spec_valid(),
            match self.spec_validation_error() {
                None => r is Ok,
                Some(m) => r matches Err(JepaError::InvalidPayload(x)) && x@ == m,
            },
            r matches Ok(m) ==> {
                &&& m.name@ == self.name@
                &&& m.repo_id@ == self.repo_id@
                &&& m.architecture@ == self.architecture@
                &&& m.modality == self.modality
                &&& m.patch_size == self.patch_size
                &&& m.embed_dim == self.embed_dim
                &&& m.num_layers == self.num_layers
                &&& m.num_heads == self.num_heads
                &&& m.image_size == self.image_size
                &&& m.frames == self.frames
                &&& m.parameter_count@ == match self.parameter_count {
                    Some(p) => p@,
                    None => "Unknown"@,
                }
                &&& m.disk_size_bytes == disk_size
                &&& m.weights_file@ == match self.weights_file {
                    Some(w) => w@,
                    None => "model.safetensors"@,
                }
            },
    {
        self.validate()?;
        let parameter_count: String = match &self.parameter_count {
            Some(p) => p.clone(),
            None => String::from_str("Unknown"),
        };
        let weights_file: String = match &self.weights_file {
            Some(w) => w.clone(),
            None => String::from_str("model.safetensors"),
        };
        Ok(ModelManifest {
            name: self.name.clone(),
            repo_id: self.repo_id.clone(),
            architecture: self.architecture.clone(),
            modality: self.modality,
            patch_size: self.patch_size,
            embed_dim: self.embed_dim,
            num_layers: self.num_layers,
            num_heads: self.num_heads,
            image_size: self.image_size,
            frames: self.frames,
            parameter_count,
            disk_size_bytes: disk_size,
            weights_file,
            created_at_ms: now_millis(),
        })
    }
}

} // verus!

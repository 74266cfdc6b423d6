//! Backbone variants and the mapping from backbone parameter names to the tensor
//! names used by the checkpoint families in the wild (HF ViT / I-JEPA, HF DINOv2,
//! HF V-JEPA 2, timm / Meta with fused QKV).

use vstd::prelude::*;

use crate::types::{JepaError, WeightReport};
use crate::text::{chars_eq, chars_match_at, find_char, find_char_from, lemma_find_char_found, to_chars};

verus! {

/// Structural variant of the ViT backbone.
#[derive(Debug, Clone, Copy, PartialEq, Eq, Structural)]
pub enum VitVariant {
    /// Patch tokens only, mean-pooled (I-JEPA, V-JEPA).
    Plain,
    /// Learned CLS token, no LayerScale (HF `ViTModel`, timm ViT).
    Cls,
    /// CLS token + LayerScale on both residual branches (DINOv2).
    DinoV2,
    /// 3D tubelet embedding + rotary attention, no CLS (V-JEPA 2); not a 2D backbone.
    VJepa2,
}

impl Default for VitVariant {
    fn default() -> (v: Self)
        ensures
            v == VitVariant::Plain,
    {
        VitVariant::Plain
    }
}

impl VitVariant {
    /// Whether the backbone carries a learned CLS token (V-JEPA 2 has none).
    pub fn has_cls(self) -> (r: bool)
        ensures
            r <==> (self is Cls || self is DinoV2),
    {
        matches!(self, VitVariant::Cls | VitVariant::DinoV2)
    }

    pub fn has_layer_scale(self) -> (r: bool)
        ensures
            r == (self is DinoV2),
    {
        matches!(self, VitVariant::DinoV2)
    }
}

/// How the pooled representation is read out of the final tokens.
#[derive(Debug, Clone, Copy, PartialEq, Eq, Structural)]
pub enum Pooling {
    /// Mean of the patch tokens (I-JEPA, MAE-style encoders such as AudioMAE).
    Mean,
    /// The CLS token (supervised ViT, DINOv2).
    Cls,
}

/// Outcome of mapping a checkpoint onto the backbone.
#[derive(Debug, Clone)]
pub struct LoadOutcome {
    /// Parameters successfully copied from the checkpoint.
    pub loaded: usize,
    /// Parameters the backbone owns (all of them must be loaded for a usable model).
    pub expected: usize,
    /// Backbone parameter names that had no counterpart in the checkpoint.
    pub missing: Vec<String>,
    /// Whether positional embeddings were taken from the checkpoint.
    pub pos_embed_loaded: bool,
}

/// Where a backbone parameter may come from inside a checkpoint.
#[derive(Debug)]
pub enum Source {
    Named(String),
    /// Row-slice `index` (0 = q, 1 = k, 2 = v) of a fused `qkv` tensor.
    FusedQkv { name: String, index: usize },
}

/// A [`Source`] as characters.
pub enum SourceView {
    Named(Seq<char>),
    FusedQkv(Seq<char>, usize),
}

impl View for Source {
    type V = SourceView;

    open spec fn view(&self) -> SourceView {
        match self {
            Source::Named(n) => SourceView::Named(n@),
            Source::FusedQkv { name, index } => SourceView::FusedQkv(name@, *index),
        }
    }
}

pub open spec fn views(s: Seq<Source>) -> Seq<SourceView> {
    s.map_values(|x: Source| x@)
}

/// `name` under each checkpoint prefix: none, `vit.`, `dinov2.`, `model.`, `encoder.`.
pub open spec fn prefixed(name: Seq<char>) -> Seq<SourceView> {
    seq![
        SourceView::Named(name),
        SourceView::Named("vit."@ + name),
        SourceView::Named("dinov2."@ + name),
        SourceView::Named("model."@ + name),
        SourceView::Named("encoder."@ + name),
    ]
}

/// HF ViT / I-JEPA name of a block parameter.
pub open spec fn hf_vit_name(sub: Seq<char>) -> Option<Seq<char>> {
    if sub == "norm1.weight"@ {
        Some("layernorm_before.weight"@)
    } else if sub == "norm1.bias"@ {
        Some("layernorm_before.bias"@)
    } else if sub == "norm2.weight"@ {
        Some("layernorm_after.weight"@)
    } else if sub == "norm2.bias"@ {
        Some("layernorm_after.bias"@)
    } else if sub == "mlp.fc1.weight"@ {
        Some("intermediate.dense.weight"@)
    } else if sub == "mlp.fc1.bias"@ {
        Some("intermediate.dense.bias"@)
    } else if sub == "mlp.fc2.weight"@ {
        Some("output.dense.weight"@)
    } else if sub == "mlp.fc2.bias"@ {
        Some("output.dense.bias"@)
    } else {
        None
    }
}

/// HF V-JEPA 2 name: `attention.{query,key,value,proj}` directly under the layer.
pub open spec fn hf_vjepa2_name(sub: Seq<char>) -> Option<Seq<char>> {
    if sub == "attn.q_proj.weight"@ {
        Some("attention.query.weight"@)
    } else if sub == "attn.q_proj.bias"@ {
        Some("attention.query.bias"@)
    } else if sub == "attn.k_proj.weight"@ {
        Some("attention.key.weight"@)
    } else if sub == "attn.k_proj.bias"@ {
        Some("attention.key.bias"@)
    } else if sub == "attn.v_proj.weight"@ {
        Some("attention.value.weight"@)
    } else if sub == "attn.v_proj.bias"@ {
        Some("attention.value.bias"@)
    } else if sub == "attn.out_proj.weight"@ {
        Some("attention.proj.weight"@)
    } else if sub == "attn.out_proj.bias"@ {
        Some("attention.proj.bias"@)
    } else {
        None
    }
}

/// Attention naming shared by HF ViT and HF DINOv2.
pub open spec fn hf_attn_name(sub: Seq<char>) -> Option<Seq<char>> {
    if sub == "attn.q_proj.weight"@ {
        Some("attention.attention.query.weight"@)
    } else if sub == "attn.q_proj.bias"@ {
        Some("attention.attention.query.bias"@)
    } else if sub == "attn.k_proj.weight"@ {
        Some("attention.attention.key.weight"@)
    } else if sub == "attn.k_proj.bias"@ {
        Some("attention.attention.key.bias"@)
    } else if sub == "attn.v_proj.weight"@ {
        Some("attention.attention.value.weight"@)
    } else if sub == "attn.v_proj.bias"@ {
        Some("attention.attention.value.bias"@)
    } else if sub == "attn.out_proj.weight"@ {
        Some("attention.output.dense.weight"@)
    } else if sub == "attn.out_proj.bias"@ {
        Some("attention.output.dense.bias"@)
    } else {
        None
    }
}

/// HF DINOv2 naming: norms and MLP keep their names, LayerScale is renamed.
pub open spec fn hf_dino_name(sub: Seq<char>) -> Option<Seq<char>> {
    if sub == "ls1"@ {
        Some("layer_scale1.lambda1"@)
    } else if sub == "ls2"@ {
        Some("layer_scale2.lambda1"@)
    } else if sub == "norm1.weight"@ || sub == "norm1.bias"@ || sub == "norm2.weight"@ || sub
        == "norm2.bias"@ || sub == "mlp.fc1.weight"@ || sub == "mlp.fc1.bias"@ || sub
        == "mlp.fc2.weight"@ || sub == "mlp.fc2.bias"@ {
        Some(sub)
    } else {
        None
    }
}

/// `encoder.layer.{idx}.{name}` under every prefix, when there is a name.
pub open spec fn layer_sources(idx: Seq<char>, name: Option<Seq<char>>) -> Seq<SourceView> {
    match name {
        Some(n) => prefixed("encoder.layer."@ + idx + "."@ + n),
        None => seq![],
    }
}

/// timm / Meta naming: fused qkv, `attn.proj`, `ls*.gamma`.
pub open spec fn timm_sources(idx: Seq<char>, sub: Seq<char>) -> Seq<SourceView> {
    let blk = "blocks."@ + idx;
    if sub == "attn.q_proj.weight"@ {
        seq![SourceView::FusedQkv(blk + ".attn.qkv.weight"@, 0)]
    } else if sub == "attn.k_proj.weight"@ {
        seq![SourceView::FusedQkv(blk + ".attn.qkv.weight"@, 1)]
    } else if sub == "attn.v_proj.weight"@ {
        seq![SourceView::FusedQkv(blk + ".attn.qkv.weight"@, 2)]
    } else if sub == "attn.q_proj.bias"@ {
        seq![SourceView::FusedQkv(blk + ".attn.qkv.bias"@, 0)]
    } else if sub == "attn.k_proj.bias"@ {
        seq![SourceView::FusedQkv(blk + ".attn.qkv.bias"@, 1)]
    } else if sub == "attn.v_proj.bias"@ {
        seq![SourceView::FusedQkv(blk + ".attn.qkv.bias"@, 2)]
    } else if sub == "attn.out_proj.weight"@ {
        seq![SourceView::Named(blk + ".attn.proj.weight"@)]
    } else if sub == "attn.out_proj.bias"@ {
        seq![SourceView::Named(blk + ".attn.proj.bias"@)]
    } else if sub == "ls1"@ {
        seq![SourceView::Named(blk + ".ls1.gamma"@)]
    } else if sub == "ls2"@ {
        seq![SourceView::Named(blk + ".ls2.gamma"@)]
    } else {
        seq![]
    }
}

/// Candidates for parameter `sub` of block `idx`.
pub open spec fn block_sources(idx: Seq<char>, sub: Seq<char>) -> Seq<SourceView> {
    layer_sources(idx, hf_vit_name(sub)) + layer_sources(idx, hf_attn_name(sub)) + layer_sources(
        idx,
        hf_dino_name(sub),
    ) + layer_sources(idx, hf_vjepa2_name(sub)) + timm_sources(idx, sub)
}

/// `blocks.{idx}.{sub}` split at the first dot after the prefix, if `t` has that shape.
pub open spec fn block_parts(t: Seq<char>) -> Option<(Seq<char>, Seq<char>)> {
    if t.len() >= 7 && t.take(7) == "blocks."@ {
        let rest = t.skip(7);
        match find_char(rest, '.', 0) {
            Some(k) => Some((rest.take(k), rest.skip(k + 1))),
            None => None,
        }
    } else {
        None
    }
}

/// Every checkpoint name that may hold backbone parameter `t`, in the order tried.
pub open spec fn spec_candidate_sources(t: Seq<char>) -> Seq<SourceView> {
    seq![SourceView::Named(t)] + if t == "patch_embed.proj.weight"@ {
        prefixed("embeddings.patch_embeddings.projection.weight"@) + prefixed(
            "embeddings.patch_embeddings.proj.weight"@,
        )
    } else if t == "patch_embed.proj.bias"@ {
        prefixed("embeddings.patch_embeddings.projection.bias"@) + prefixed(
            "embeddings.patch_embeddings.proj.bias"@,
        )
    } else if t == "norm.weight"@ {
        prefixed("layernorm.weight"@)
    } else if t == "norm.bias"@ {
        prefixed("layernorm.bias"@)
    } else if t == "cls_token"@ {
        prefixed("embeddings.cls_token"@)
    } else {
        match block_parts(t) {
            Some((idx, sub)) => block_sources(idx, sub),
            None => seq![],
        }
    }
}

pub open spec fn opt_view(o: Option<&str>) -> Option<Seq<char>> {
    match o {
        Some(s) => Some(s@),
        None => None,
    }
}

fn push_source(out: &mut Vec<Source>, s: Source)
    ensures
        views(final(out)@) == views(old(out)@).push(s@),
{
    let ghost before = out@;
    out.push(s);
    assert(views(out@) =~= views(before).push(s@));
}

/// Push `name` under every prefix.
fn push_prefixed(out: &mut Vec<Source>, name: &str)
    ensures
        views(final(out)@) == views(old(out)@) + prefixed(name@),
{
    let ghost before = views(out@);
    push_source(out, Source::Named(String::from_str(name)));
    push_source(out, Source::Named(String::from_str("vit.").concat(name)));
    push_source(out, Source::Named(String::from_str("dinov2.").concat(name)));
    push_source(out, Source::Named(String::from_str("model.").concat(name)));
    push_source(out, Source::Named(String::from_str("encoder.").concat(name)));
    assert(views(out@) =~= before + prefixed(name@));
}

fn lookup_hf_vit<'a>(sub: &Vec<char>) -> (r: Option<&'a str>)
    ensures
        opt_view(r) == hf_vit_name(sub@),
{
    if chars_eq(sub, "norm1.weight") {
        Some("layernorm_before.weight")
    } else if chars_eq(sub, "norm1.bias") {
        Some("layernorm_before.bias")
    } else if chars_eq(sub, "norm2.weight") {
        Some("layernorm_after.weight")
    } else if chars_eq(sub, "norm2.bias") {
        Some("layernorm_after.bias")
    } else if chars_eq(sub, "mlp.fc1.weight") {
        Some("intermediate.dense.weight")
    } else if chars_eq(sub, "mlp.fc1.bias") {
        Some("intermediate.dense.bias")
    } else if chars_eq(sub, "mlp.fc2.weight") {
        Some("output.dense.weight")
    } else if chars_eq(sub, "mlp.fc2.bias") {
        Some("output.dense.bias")
    } else {
        None
    }
}

fn lookup_hf_vjepa2<'a>(sub: &Vec<char>) -> (r: Option<&'a str>)
    ensures
        opt_view(r) == hf_vjepa2_name(sub@),
{
    if chars_eq(sub, "attn.q_proj.weight") {
        Some("attention.query.weight")
    } else if chars_eq(sub, "attn.q_proj.bias") {
        Some("attention.query.bias")
    } else if chars_eq(sub, "attn.k_proj.weight") {
        Some("attention.key.weight")
    } else if chars_eq(sub, "attn.k_proj.bias") {
        Some("attention.key.bias")
    } else if chars_eq(sub, "attn.v_proj.weight") {
        Some("attention.value.weight")
    } else if chars_eq(sub, "attn.v_proj.bias") {
        Some("attention.value.bias")
    } else if chars_eq(sub, "attn.out_proj.weight") {
        Some("attention.proj.weight")
    } else if chars_eq(sub, "attn.out_proj.bias") {
        Some("attention.proj.bias")
    } else {
        None
    }
}

fn lookup_hf_attn<'a>(sub: &Vec<char>) -> (r: Option<&'a str>)
    ensures
        opt_view(r) == hf_attn_name(sub@),
{
    if chars_eq(sub, "attn.q_proj.weight") {
        Some("attention.attention.query.weight")
    } else if chars_eq(sub, "attn.q_proj.bias") {
        Some("attention.attention.query.bias")
    } else if chars_eq(sub, "attn.k_proj.weight") {
        Some("attention.attention.key.weight")
    } else if chars_eq(sub, "attn.k_proj.bias") {
        Some("attention.attention.key.bias")
    } else if chars_eq(sub, "attn.v_proj.weight") {
        Some("attention.attention.value.weight")
    } else if chars_eq(sub, "attn.v_proj.bias") {
        Some("attention.attention.value.bias")
    } else if chars_eq(sub, "attn.out_proj.weight") {
        Some("attention.output.dense.weight")
    } else if chars_eq(sub, "attn.out_proj.bias") {
        Some("attention.output.dense.bias")
    } else {
        None
    }
}

fn lookup_hf_dino<'a>(sub: &Vec<char>, sub_str: &'a str) -> (r: Option<&'a str>)
    requires
        sub@ == sub_str@,
    ensures
        opt_view(r) == hf_dino_name(sub@),
{
    if chars_eq(sub, "ls1") {
        Some("layer_scale1.lambda1")
    } else if chars_eq(sub, "ls2") {
        Some("layer_scale2.lambda1")
    } else if chars_eq(sub, "norm1.weight") || chars_eq(sub, "norm1.bias") || chars_eq(
        sub,
        "norm2.weight",
    ) || chars_eq(sub, "norm2.bias") || chars_eq(sub, "mlp.fc1.weight") || chars_eq(
        sub,
        "mlp.fc1.bias",
    ) || chars_eq(sub, "mlp.fc2.weight") || chars_eq(sub, "mlp.fc2.bias") {
        Some(sub_str)
    } else {
        None
    }
}

/// Push `encoder.layer.{idx}.{name}` under every prefix when there is a name.
fn push_layer(out: &mut Vec<Source>, idx: &str, name: Option<&str>)
    ensures
        views(final(out)@) == views(old(out)@) + layer_sources(idx@, opt_view(name)),
{
    match name {
        Some(n) => {
            let full: String = String::from_str("encoder.layer.").concat(idx).concat(".").concat(n);
            push_prefixed(out, full.as_str());
        },
        None => {
            assert(views(out@) =~= views(out@) + layer_sources(idx@, opt_view(name)));
        },
    }
}

fn push_timm(out: &mut Vec<Source>, idx: &str, sub: &Vec<char>)
    ensures
        views(final(out)@) == views(old(out)@) + timm_sources(idx@, sub@),
{
    let ghost before = views(out@);
    let blk: String = String::from_str("blocks.").concat(idx);
    if chars_eq(sub, "attn.q_proj.weight") {
        push_source(out, Source::FusedQkv { name: blk.concat(".attn.qkv.weight"), index: 0 });
    } else if chars_eq(sub, "attn.k_proj.weight") {
        push_source(out, Source::FusedQkv { name: blk.concat(".attn.qkv.weight"), index: 1 });
    } else if chars_eq(sub, "attn.v_proj.weight") {
        push_source(out, Source::FusedQkv { name: blk.concat(".attn.qkv.weight"), index: 2 });
    } else if chars_eq(sub, "attn.q_proj.bias") {
        push_source(out, Source::FusedQkv { name: blk.concat(".attn.qkv.bias"), index: 0 });
    } else if chars_eq(sub, "attn.k_proj.bias") {
        push_source(out, Source::FusedQkv { name: blk.concat(".attn.qkv.bias"), index: 1 });
    } else if chars_eq(sub, "attn.v_proj.bias") {
        push_source(out, Source::FusedQkv { name: blk.concat(".attn.qkv.bias"), index: 2 });
    } else if chars_eq(sub, "attn.out_proj.weight") {
        push_source(out, Source::Named(blk.concat(".attn.proj.weight")));
    } else if chars_eq(sub, "attn.out_proj.bias") {
        push_source(out, Source::Named(blk.concat(".attn.proj.bias")));
    } else if chars_eq(sub, "ls1") {
        push_source(out, Source::Named(blk.concat(".ls1.gamma")));
    } else if chars_eq(sub, "ls2") {
        push_source(out, Source::Named(blk.concat(".ls2.gamma")));
    }
    assert(views(out@) =~= before + timm_sources(idx@, sub@));
}

/// All checkpoint names that may hold a given backbone parameter.
pub fn candidate_sources(target: &str) -> (out: Vec<Source>)
    ensures
        views(out@) == spec_candidate_sources(target@),
{
    proof {
        reveal_strlit("blocks.");
    }
    let t: Vec<char> = to_chars(target);
    let mut out: Vec<Source> = Vec::new();
    push_source(&mut out, Source::Named(String::from_str(target)));
    let ghost head = views(out@);
    assert(head =~= seq![SourceView::Named(target@)]);
    if chars_eq(&t, "patch_embed.proj.weight") {
        push_prefixed(&mut out, "embeddings.patch_embeddings.projection.weight");
        push_prefixed(&mut out, "embeddings.patch_embeddings.proj.weight");
    } else if chars_eq(&t, "patch_embed.proj.bias") {
        push_prefixed(&mut out, "embeddings.patch_embeddings.projection.bias");
        push_prefixed(&mut out, "embeddings.patch_embeddings.proj.bias");
    } else if chars_eq(&t, "norm.weight") {
        push_prefixed(&mut out, "layernorm.weight");
    } else if chars_eq(&t, "norm.bias") {
        push_prefixed(&mut out, "layernorm.bias");
    } else if chars_eq(&t, "cls_token") {
        push_prefixed(&mut out, "embeddings.cls_token");
    } else {
        let n: usize = t.len();
        if n >= 7 && chars_match_at(&t, 0, "blocks.") {
            proof {
                assert(t@.take(7) =~= t@.subrange(0, 7));
            }
            let ghost rest = t@.skip(7);
            match find_char_from(&t, '.', 7) {
                Some(dot) => {
                    proof {
                        lemma_find_char_found(t@, '.', 7);
                        lemma_find_shift(t@, '.', 7);
                    }
                    let idx: &str = target.substring_char(7, dot);
                    let sub_str: &str = target.substring_char(dot + 1, n);
                    let sub: Vec<char> = to_chars(sub_str);
                    assert(idx@ =~= rest.take(dot - 7));
                    assert(sub@ =~= rest.skip(dot - 7 + 1));
                    push_layer(&mut out, idx, lookup_hf_vit(&sub));
                    push_layer(&mut out, idx, lookup_hf_attn(&sub));
                    push_layer(&mut out, idx, lookup_hf_dino(&sub, sub_str));
                    push_layer(&mut out, idx, lookup_hf_vjepa2(&sub));
                    push_timm(&mut out, idx, &sub);
                    assert(block_parts(target@) == Some((idx@, sub@)));
                    assert(views(out@) =~= head + block_sources(idx@, sub@));
                },
                None => {
                    proof {
                        lemma_find_shift(t@, '.', 7);
                    }
                    assert(block_parts(target@) is None);
                },
            }
        } else {
            assert(block_parts(target@) is None);
        }
    }
    assert(views(out@) =~= spec_candidate_sources(target@));
    out
}

proof fn lemma_find_char_at(s: Seq<char>, c: char, from: int, k: int)
    requires
        0 <= from <= k < s.len(),
        s[k] == c,
        forall|j: int| from <= j < k ==> s[j] != c,
    ensures
        find_char(s, c, from) == Some(k),
    decreases k - from,
{
    if from < k {
        lemma_find_char_at(s, c, from + 1, k);
    }
}

/// The candidates of `blocks.{idx}.{sub}`, for a block index without a dot, are the
/// name itself followed by the candidates of parameter `sub` of block `idx`.
proof fn lemma_block_candidates(idx: Seq<char>, sub: Seq<char>)
    requires
        forall|j: int| 0 <= j < idx.len() ==> idx[j] != '.',
    ensures
        spec_candidate_sources("blocks."@ + idx + "."@ + sub) == seq![
            SourceView::Named("blocks."@ + idx + "."@ + sub),
        ] + block_sources(idx, sub),
{
    reveal_strlit("blocks.");
    reveal_strlit(".");
    reveal_strlit("patch_embed.proj.weight");
    reveal_strlit("patch_embed.proj.bias");
    reveal_strlit("norm.weight");
    reveal_strlit("norm.bias");
    reveal_strlit("cls_token");
    let t = "blocks."@ + idx + "."@ + sub;
    let rest = t.skip(7);
    assert(t.take(7) =~= "blocks."@);
    assert(rest =~= idx + "."@ + sub);
    assert(rest[idx.len() as int] == '.');
    assert forall|j: int| 0 <= j < idx.len() implies rest[j] != '.' by {
        assert(rest[j] == idx[j]);
    }
    lemma_find_char_at(rest, '.', 0, idx.len() as int);
    assert(rest.take(idx.len() as int) =~= idx);
    assert(rest.skip(idx.len() as int + 1) =~= sub);
    assert(block_parts(t) == Some((idx, sub)));
    assert(t[0] == 'b');
    assert(t != "patch_embed.proj.weight"@);
    assert(t != "patch_embed.proj.bias"@);
    assert(t != "norm.weight"@);
    assert(t != "norm.bias"@);
    assert(t != "cls_token"@);
}

proof fn lemma_layer_sources_named(idx: Seq<char>, name: Option<Seq<char>>)
    ensures
        forall|i: int|
            0 <= i < layer_sources(idx, name).len() ==> layer_sources(idx, name)[i] is Named,
{
}

/// `blocks.{idx}.{sub}` may be loaded from a fused qkv tensor only as row slice `row`
/// of `blocks.{idx}{fused}`: that slice is its last candidate and no other slice of a
/// fused tensor is among them.
pub open spec fn fused_candidate_is(idx: Seq<char>, sub: Seq<char>, fused: Seq<char>, row: usize) -> bool {
    let c = spec_candidate_sources("blocks."@ + idx + "."@ + sub);
    let f = SourceView::FusedQkv("blocks."@ + idx + fused, row);
    &&& c.len() > 0
    &&& c.last() == f
    &&& forall|i: int| 0 <= i < c.len() && c[i] is FusedQkv ==> c[i] == f
}

proof fn lemma_fused_candidate(idx: Seq<char>, sub: Seq<char>, fused: Seq<char>, row: usize)
    requires
        forall|j: int| 0 <= j < idx.len() ==> idx[j] != '.',
        timm_sources(idx, sub) == seq![SourceView::FusedQkv("blocks."@ + idx + fused, row)],
    ensures
        fused_candidate_is(idx, sub, fused, row),
{
    lemma_block_candidates(idx, sub);
    lemma_layer_sources_named(idx, hf_vit_name(sub));
    lemma_layer_sources_named(idx, hf_attn_name(sub));
    lemma_layer_sources_named(idx, hf_dino_name(sub));
    lemma_layer_sources_named(idx, hf_vjepa2_name(sub));
    let l1 = layer_sources(idx, hf_vit_name(sub));
    let l2 = layer_sources(idx, hf_attn_name(sub));
    let l3 = layer_sources(idx, hf_dino_name(sub));
    let l4 = layer_sources(idx, hf_vjepa2_name(sub));
    let named = seq![SourceView::Named("blocks."@ + idx + "."@ + sub)] + l1 + l2 + l3 + l4;
    assert forall|i: int| 0 <= i < named.len() implies named[i] is Named by {
        if i >= 1 + l1.len() + l2.len() + l3.len() {
            assert(named[i] == l4[i - 1 - l1.len() - l2.len() - l3.len()]);
        } else if i >= 1 + l1.len() + l2.len() {
            assert(named[i] == l3[i - 1 - l1.len() - l2.len()]);
        } else if i >= 1 + l1.len() {
            assert(named[i] == l2[i - 1 - l1.len()]);
        } else if i >= 1 {
            assert(named[i] == l1[i - 1]);
        }
    }
    let c = spec_candidate_sources("blocks."@ + idx + "."@ + sub);
    assert(c =~= named + timm_sources(idx, sub));
    assert forall|i: int| 0 <= i < c.len() && c[i] is FusedQkv implies c[i] == SourceView::FusedQkv(
        "blocks."@ + idx + fused,
        row,
    ) by {
        if i < named.len() {
            assert(c[i] == named[i]);
        }
    }
}

/// A checkpoint with a fused qkv tensor feeds the query, key and value projections of
/// block `idx` from row slices 0, 1 and 2 of `blocks.{idx}.attn.qkv.weight` (and of
/// `.bias` for the biases), whatever the block index, as long as it has no dot.
pub proof fn lemma_fused_qkv_rows(idx: Seq<char>)
    requires
        forall|j: int| 0 <= j < idx.len() ==> idx[j] != '.',
    ensures
        fused_candidate_is(idx, "attn.q_proj.weight"@, ".attn.qkv.weight"@, 0),
        fused_candidate_is(idx, "attn.k_proj.weight"@, ".attn.qkv.weight"@, 1),
        fused_candidate_is(idx, "attn.v_proj.weight"@, ".attn.qkv.weight"@, 2),
        fused_candidate_is(idx, "attn.q_proj.bias"@, ".attn.qkv.bias"@, 0),
        fused_candidate_is(idx, "attn.k_proj.bias"@, ".attn.qkv.bias"@, 1),
        fused_candidate_is(idx, "attn.v_proj.bias"@, ".attn.qkv.bias"@, 2),
{
    reveal_strlit("attn.q_proj.weight");
    reveal_strlit("attn.k_proj.weight");
    reveal_strlit("attn.v_proj.weight");
    reveal_strlit("attn.q_proj.bias");
    reveal_strlit("attn.k_proj.bias");
    reveal_strlit("attn.v_proj.bias");
    assert("attn.k_proj.weight"@ != "attn.q_proj.weight"@) by {
        assert("attn.k_proj.weight"@[5] != "attn.q_proj.weight"@[5]);
    }
    assert("attn.v_proj.weight"@ != "attn.q_proj.weight"@) by {
        assert("attn.v_proj.weight"@[5] != "attn.q_proj.weight"@[5]);
    }
    assert("attn.v_proj.weight"@ != "attn.k_proj.weight"@) by {
        assert("attn.v_proj.weight"@[5] != "attn.k_proj.weight"@[5]);
    }
    assert("attn.k_proj.bias"@ != "attn.q_proj.bias"@) by {
        assert("attn.k_proj.bias"@[5] != "attn.q_proj.bias"@[5]);
    }
    assert("attn.v_proj.bias"@ != "attn.q_proj.bias"@) by {
        assert("attn.v_proj.bias"@[5] != "attn.q_proj.bias"@[5]);
    }
    assert("attn.v_proj.bias"@ != "attn.k_proj.bias"@) by {
        assert("attn.v_proj.bias"@[5] != "attn.k_proj.bias"@[5]);
    }
    lemma_fused_candidate(idx, "attn.q_proj.weight"@, ".attn.qkv.weight"@, 0);
    lemma_fused_candidate(idx, "attn.k_proj.weight"@, ".attn.qkv.weight"@, 1);
    lemma_fused_candidate(idx, "attn.v_proj.weight"@, ".attn.qkv.weight"@, 2);
    lemma_fused_candidate(idx, "attn.q_proj.bias"@, ".attn.qkv.bias"@, 0);
    lemma_fused_candidate(idx, "attn.k_proj.bias"@, ".attn.qkv.bias"@, 1);
    lemma_fused_candidate(idx, "attn.v_proj.bias"@, ".attn.qkv.bias"@, 2);
}

/// Searching from `k` in `s` is searching from 0 in `s.skip(k)`, shifted by `k`.
proof fn lemma_find_shift(s: Seq<char>, c: char, k: int)
    requires
        0 <= k <= s.len(),
    ensures
        match find_char(s, c, k) {
            Some(i) => find_char(s.skip(k), c, 0) == Some(i - k),
            None => find_char(s.skip(k), c, 0) is None,
        },
{
    lemma_find_shift_from(s, c, k, k);
}

proof fn lemma_find_shift_from(s: Seq<char>, c: char, k: int, j: int)
    requires
        0 <= k <= j <= s.len(),
    ensures
        match find_char(s, c, j) {
            Some(i) => find_char(s.skip(k), c, j - k) == Some(i - k),
            None => find_char(s.skip(k), c, j - k) is None,
        },
    decreases s.len() - j,
{
    if j < s.len() {
        assert(s.skip(k)[j - k] == s[j]);
        if s[j] != c {
            lemma_find_shift_from(s, c, k, j + 1);
        }
    }
}

/// What loading a checkpoint into a backbone answers: a missing weights file is a
/// model that was not pulled; anything less than full coverage is refused, since a
/// partly random backbone still returns vectors of the right size.
pub open spec fn checkpoint_verdict_ok(found: bool, loaded: usize, expected: usize) -> bool {
    found && loaded == expected
}

/// The answer to loading the checkpoint at `path` for `model_name`: `found` is whether
/// the file exists, `loaded` and `expected` the tensors the loader matched and the
/// backbone has (meaningful only when found).
pub fn checkpoint_report(model_name: &str, path: &str, found: bool, loaded: usize, expected: usize) -> (r: Result<
    WeightReport,
    JepaError,
>)
    ensures
        r is Ok <==> checkpoint_verdict_ok(found, loaded, expected),
        r matches Ok(w) ==> w.loaded == loaded && w.expected == expected && w.source@ == "safetensors"@,
        !found ==> (r matches Err(JepaError::ModelNotFound(m)) && m@ == "Weights for '"@ + model_name@
            + "' not found at "@ + path@ + ". Run `jepa pull "@ + model_name@ + "` first."@),
        found && loaded != expected ==> (r matches Err(JepaError::WeightsIncomplete { loaded: l, expected: e })
            && l == loaded && e == expected),
{
    if !found {
        let m: String = String::from_str("Weights for '").concat(model_name).concat("' not found at ").concat(
            path,
        ).concat(". Run `jepa pull ").concat(model_name).concat("` first.");
        return Err(JepaError::ModelNotFound(m));
    }
    if loaded != expected {
        return Err(JepaError::WeightsIncomplete { loaded, expected });
    }
    Ok(WeightReport { loaded, expected, source: String::from_str("safetensors") })
}

} // verus!

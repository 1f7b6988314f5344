//! The memory that a variant needs at a precision, from its parameter counts.
use super::config::{lemma_presets_expand, Sd3Config, Variant};
use super::quant::{block_bytes, bytes_per_param, QLinear};
use super::transformer::{widths_fit, JointBlock, Linear, MlpEmbed, PatchEmbed};
use crate::request::Quant;
use vstd::prelude::*;

verus! {

/// The bytes of 32 dense parameters, two bytes each.
pub const DENSE_BLOCK_BYTES: u64 = 64;

/// The activations of a render and the device context, in GiB. They grow with the resolution and not
/// with the model, so they are added to the weights.
pub const ACTIVATION_OVERHEAD_GIB: u64 = 14;

/// The allocator's slack over the whole footprint, in percent.
pub const FRAG_MARGIN: u64 = 8;

/// The bytes of a GiB.
pub const GIB: u64 = 1_073_741_824;

pub const CLIP_L_PARAMS: u64 = 123_000_000;

pub const CLIP_BIGG_PARAMS: u64 = 695_000_000;

pub const T5_XXL_PARAMS: u64 = 4_762_000_000;

pub const VAE_PARAMS: u64 = 84_000_000;

/// The precision that a variant is loaded at. Only the transformer's projections are quantized.
#[derive(Clone, Copy, Debug, PartialEq, Eq, Structural)]
pub enum Precision {
    Bf16,
    Q8,
    Q4,
}

impl Precision {
    pub open spec fn level(self) -> Option<Quant> {
        match self {
            Precision::Bf16 => None,
            Precision::Q8 => Some(Quant::Q8),
            Precision::Q4 => Some(Quant::Q4),
        }
    }

    /// The quantization of the projections; none where they stay dense.
    pub fn quant(self) -> (r: Option<Quant>)
        ensures
            r == self.level(),
    {
        match self {
            Precision::Bf16 => None,
            Precision::Q8 => Some(Quant::Q8),
            Precision::Q4 => Some(Quant::Q4),
        }
    }

    /// The bytes of 32 projection parameters.
    pub open spec fn projection_bytes(self) -> int {
        match self.level() {
            Some(q) => block_bytes(q),
            None => DENSE_BLOCK_BYTES as int,
        }
    }

    /// The bytes of 32 projection parameters at this precision.
    pub fn dit_bytes_per_param(self) -> (r: u64)
        ensures
            r == self.projection_bytes(),
    {
        match self.quant() {
            Some(q) => bytes_per_param(q),
            None => DENSE_BLOCK_BYTES,
        }
    }
}

/// The parameters of a variant's parts.
#[derive(Clone, Copy, Debug, PartialEq, Eq, Structural)]
pub struct ParamCounts {
    /// The transformer's projections, which are quantized.
    pub dit_quantized: u64,
    /// The rest of the transformer, which stays dense.
    pub dit_dense: u64,
    pub text_encoders: u64,
    pub vae: u64,
}

impl ParamCounts {
    /// The sum of the parts.
    pub open spec fn sum(self) -> int {
        self.dit_quantized + self.dit_dense + self.text_encoders + self.vae
    }

    /// All parameters.
    pub fn total(&self) -> (r: u64)
        requires
            self.sum() <= u64::MAX,
        ensures
            r == self.sum(),
    {
        self.dit_quantized + self.dit_dense + self.text_encoders + self.vae
    }
}

/// The layers of block `i`.
pub open spec fn block_of(cfg: &Sd3Config, i: int) -> JointBlock {
    JointBlock::of(cfg, cfg.pre_only(i), cfg.dual(i))
}

/// The quantized parameters of the first `n` blocks.
pub open spec fn blocks_quantized(cfg: &Sd3Config, n: nat) -> int
    decreases n,
{
    if n == 0 {
        0
    } else {
        blocks_quantized(cfg, (n - 1) as nat) + block_of(cfg, n - 1).quantized_params()
    }
}

/// The dense parameters of the first `n` blocks.
pub open spec fn blocks_dense(cfg: &Sd3Config, n: nat) -> int
    decreases n,
{
    if n == 0 {
        0
    } else {
        blocks_dense(cfg, (n - 1) as nat) + block_of(cfg, n - 1).dense_params()
    }
}

/// The parameters of the layers that are quantized: every block's projections, the context embedder
/// and the output projection.
pub open spec fn dit_quantized(cfg: &Sd3Config) -> int {
    blocks_quantized(cfg, cfg.num_layers as nat) + QLinear::dense(
        cfg.joint_attention_dim,
        cfg.inner_dim,
        true,
    ).params() + QLinear::dense(cfg.inner_dim, cfg.patch_features() as usize, true).params()
}

/// The parameters of the layers that stay dense: the modulation layers, the timestep and text
/// embedders, the output modulation, the patch convolution and the positional table.
pub open spec fn dit_dense(cfg: &Sd3Config) -> int {
    blocks_dense(cfg, cfg.num_layers as nat) + MlpEmbed::of(
        cfg.timestep_channels,
        cfg.inner_dim,
    ).params() + MlpEmbed::of(cfg.pooled_dim, cfg.inner_dim).params() + (Linear {
        in_dim: cfg.inner_dim,
        out_dim: (2 * cfg.inner_dim) as usize,
    }).params() + (PatchEmbed {
        in_channels: cfg.in_channels,
        patch_size: cfg.patch_size,
        max_size: cfg.pos_embed_max_size,
        inner: cfg.inner_dim,
    }).params()
}

/// The parameters of block `i`, over its widths.
proof fn lemma_block(cfg: &Sd3Config, i: int)
    requires
        widths_fit(cfg),
    ensures
        ({
            let d = cfg.inner_dim as int;
            let f = cfg.hidden();
            let square = d * d + d;
            let mlp = (d * f + f) + (f * d + d);
            let b = block_of(cfg, i);
            let (p, u) = (cfg.pre_only(i), cfg.dual(i));
            &&& d * d >= 0 && d * f >= 0 && f * d >= 0 && f >= 0
            &&& b.quantized_params() == 7 * square + mlp + (if p {
                0
            } else {
                square + mlp
            }) + (if u {
                4 * square
            } else {
                0
            })
            &&& b.dense_params() == (if u {
                9 * square
            } else {
                6 * square
            }) + (if p {
                2 * square
            } else {
                6 * square
            })
        }),
{
    let d = cfg.inner_dim as int;
    let f = cfg.hidden();
    assert(d * d >= 0 && d * f >= 0 && f * d >= 0) by (nonlinear_arith)
        requires
            d >= 0,
            f >= 0,
    ;
    assert(d * (9 * d) == 9 * (d * d)) by (nonlinear_arith);
    assert(d * (6 * d) == 6 * (d * d)) by (nonlinear_arith);
    assert(d * (2 * d) == 2 * (d * d)) by (nonlinear_arith);
}

proof fn lemma_blocks_grow(cfg: &Sd3Config, n: nat, m: nat)
    requires
        n <= m,
        widths_fit(cfg),
    ensures
        0 <= blocks_quantized(cfg, n) <= blocks_quantized(cfg, m),
        0 <= blocks_dense(cfg, n) <= blocks_dense(cfg, m),
    decreases m,
{
    if m > 0 {
        lemma_block(cfg, m - 1);
        if n < m {
            lemma_blocks_grow(cfg, n, (m - 1) as nat);
        } else {
            lemma_blocks_grow(cfg, (m - 1) as nat, (m - 1) as nat);
        }
    }
}

/// Factors of products that fit, and of their parts.
proof fn lemma_parts(d: int, joint: int, patch_dim: int, ts: int, pooled: int, c: int, p: int, m: int)
    requires
        0 <= d,
        0 <= joint,
        0 <= patch_dim,
        0 <= ts,
        0 <= pooled,
        0 <= c,
        0 <= p,
        0 <= m,
    ensures
        0 <= joint * d,
        0 <= d * patch_dim,
        0 <= ts * d,
        0 <= pooled * d,
        0 <= d * d,
        d * (2 * d) == 2 * (d * d),
        0 <= d * c,
        0 <= d * c * p <= d * c * p * p,
        0 <= m * m * d,
{
    assert(0 <= joint * d && 0 <= d * patch_dim && 0 <= ts * d && 0 <= pooled * d && 0 <= d * d)
        by (nonlinear_arith)
        requires
            0 <= d,
            0 <= joint,
            0 <= patch_dim,
            0 <= ts,
            0 <= pooled,
    ;
    assert(d * (2 * d) == 2 * (d * d)) by (nonlinear_arith);
    let a = d * c;
    assert(0 <= a) by (nonlinear_arith)
        requires
            a == d * c,
            0 <= d,
            0 <= c,
    ;
    let b = a * p;
    assert(0 <= b) by (nonlinear_arith)
        requires
            b == a * p,
            0 <= a,
            0 <= p,
    ;
    assert(b <= b * p) by (nonlinear_arith)
        requires
            b == a * p,
            0 <= b,
            0 <= p,
    ;
    assert(0 <= m * m) by (nonlinear_arith)
        requires
            0 <= m,
    ;
    assert(0 <= m * m * d) by (nonlinear_arith)
        requires
            0 <= m * m,
            0 <= d,
    ;
}

/// The parameters of a transformer: of the projections that are quantized, and of the layers that
/// stay dense.
pub fn dit_param_counts(cfg: &Sd3Config) -> (r: (u64, u64))
    requires
        widths_fit(cfg),
        cfg.inner_dim * cfg.in_channels <= u64::MAX,
        cfg.pos_embed_max_size * cfg.pos_embed_max_size <= u64::MAX,
        dit_quantized(cfg) <= u64::MAX,
        dit_dense(cfg) <= u64::MAX,
    ensures
        r.0 == dit_quantized(cfg),
        r.1 == dit_dense(cfg),
{
    let d: u64 = cfg.inner_dim as u64;
    let f: u64 = cfg.ff_hidden() as u64;
    let joint: u64 = cfg.joint_attention_dim as u64;
    let patch_dim: u64 = cfg.patch_dim() as u64;
    let ts: u64 = cfg.timestep_channels as u64;
    let pooled: u64 = cfg.pooled_dim as u64;
    let pos_max: u64 = cfg.pos_embed_max_size as u64;
    let in_ch: u64 = cfg.in_channels as u64;
    let patch: u64 = cfg.patch_size as u64;
    proof {
        lemma_blocks_grow(cfg, 0, cfg.num_layers as nat);
        lemma_parts(
            d as int,
            joint as int,
            patch_dim as int,
            ts as int,
            pooled as int,
            in_ch as int,
            patch as int,
            pos_max as int,
        );
    }
    let d2: u64 = d * d;
    let square: u64 = d2 + d;
    let mut quantized: u64 = 0;
    let mut dense: u64 = 0;
    let mut i: usize = 0;
    while i < cfg.num_layers
        invariant
            i <= cfg.num_layers,
            widths_fit(cfg),
            d == cfg.inner_dim,
            f == cfg.hidden(),
            d2 == d * d,
            square == d2 + d,
            quantized == blocks_quantized(cfg, i as nat),
            dense == blocks_dense(cfg, i as nat),
            blocks_quantized(cfg, cfg.num_layers as nat) <= u64::MAX,
            blocks_dense(cfg, cfg.num_layers as nat) <= u64::MAX,
        decreases cfg.num_layers - i,
    {
        proof {
            lemma_block(cfg, i as int);
            lemma_blocks_grow(cfg, (i + 1) as nat, cfg.num_layers as nat);
        }
        let pre_only = cfg.context_pre_only_last && i == cfg.num_layers - 1;
        let dual = cfg.is_dual_block(i);
        // The image projections of the joint attention, then the text ones.
        quantized += 4 * square;
        quantized += 3 * square;
        let mlp: u64 = (d * f + f) + (f * d + d);
        quantized += mlp;
        if !pre_only {
            quantized += square;
            quantized += mlp;
        }
        if dual {
            quantized += 4 * square;
        }
        let img_chunks: u64 = if dual {
            9
        } else {
            6
        };
        dense += img_chunks * square;
        let ctx_chunks: u64 = if pre_only {
            2
        } else {
            6
        };
        dense += ctx_chunks * square;
        i += 1;
    }
    quantized += joint * d + d;
    quantized += d * patch_dim + patch_dim;
    dense += (ts * d + d) + (d * d + d);
    dense += (pooled * d + d) + (d * d + d);
    dense += d * (2 * d) + 2 * d;
    dense += d * in_ch * patch * patch + d;
    dense += pos_max * pos_max * d;
    (quantized, dense)
}

/// The parameter counts of a variant.
pub open spec fn counts_of(variant: Variant) -> ParamCounts {
    ParamCounts {
        dit_quantized: match variant {
            Variant::Large | Variant::LargeTurbo => 5_352_673_984,
            Variant::Medium => 1_467_529_792,
        },
        dit_dense: match variant {
            Variant::Large | Variant::LargeTurbo => 2_793_597_056,
            Variant::Medium => 1_002_126_336,
        },
        text_encoders: (CLIP_L_PARAMS + CLIP_BIGG_PARAMS + T5_XXL_PARAMS) as u64,
        vae: VAE_PARAMS,
    }
}

/// The parameters of the first `n` blocks, of which `k` are dual and none drops its text output.
proof fn lemma_counted(cfg: &Sd3Config, n: nat, k: nat)
    requires
        widths_fit(cfg),
        n < cfg.num_layers,
        forall|i: int| 0 <= i < n ==> (#[trigger] cfg.dual(i) <==> i < k),
    ensures
        ({
            let d = cfg.inner_dim as int;
            let f = cfg.hidden();
            let square = d * d + d;
            let mlp = (d * f + f) + (f * d + d);
            let duals = if n < k {
                n as int
            } else {
                k as int
            };
            &&& blocks_quantized(cfg, n) == n * (8 * square + 2 * mlp) + duals * (4 * square)
            &&& blocks_dense(cfg, n) == n * (12 * square) + duals * (3 * square)
        }),
    decreases n,
{
    let d = cfg.inner_dim as int;
    let f = cfg.hidden();
    let square = d * d + d;
    let mlp = (d * f + f) + (f * d + d);
    if n == 0 {
        assert(0 * (8 * square + 2 * mlp) == 0 && 0 * (4 * square) == 0 && 0 * (12 * square) == 0
            && 0 * (3 * square) == 0);
    } else {
        let m = (n - 1) as nat;
        lemma_counted(cfg, m, k);
        lemma_block(cfg, m as int);
        assert(cfg.dual(m as int) <==> m < k);
        let q = 8 * square + 2 * mlp;
        assert(n * q == m * q + q) by (nonlinear_arith)
            requires
                n == m + 1,
        ;
        assert(n * (12 * square) == m * (12 * square) + 12 * square) by (nonlinear_arith)
            requires
                n == m + 1,
        ;
        if m < k {
            assert(n * (4 * square) == m * (4 * square) + 4 * square) by (nonlinear_arith)
                requires
                    n == m + 1,
            ;
            assert(n * (3 * square) == m * (3 * square) + 3 * square) by (nonlinear_arith)
                requires
                    n == m + 1,
            ;
        }
    }
}

/// The parameter counts of a variant are those of the layers of its geometry.
pub proof fn law_counts_come_from_the_geometry(variant: Variant, cfg: &Sd3Config)
    requires
        variant.has_config(cfg),
    ensures
        widths_fit(cfg),
        dit_quantized(cfg) == counts_of(variant).dit_quantized,
        dit_dense(cfg) == counts_of(variant).dit_dense,
{
    lemma_presets_expand(variant, cfg);
    let last = (cfg.num_layers - 1) as nat;
    let layers = cfg.dual_attention_layers@;
    let k: nat = match variant {
        Variant::Medium => 13,
        _ => 0,
    };
    assert forall|i: int| 0 <= i < cfg.num_layers implies (#[trigger] cfg.dual(i) <==> i < k) by {
        if i < k {
            assert(cfg.dual_attention_layers[i] == i);
        }
    }
    lemma_counted(cfg, last, k);
    lemma_block(cfg, last as int);
    assert(cfg.dual(last as int) <==> last < k);
    assert(cfg.pre_only(last as int));
    let d = cfg.inner_dim as int;
    let f = cfg.hidden();
    let square = d * d + d;
    let mlp = (d * f + f) + (f * d + d);
    let all = cfg.num_layers as nat;
    assert(blocks_quantized(cfg, all) == blocks_quantized(cfg, last) + 7 * square + mlp);
    assert(blocks_dense(cfg, all) == blocks_dense(cfg, last) + 8 * square);
    let table = cfg.pos_embed_max_size * cfg.pos_embed_max_size;
    if variant == Variant::Medium {
        assert(d == 1536 && f == 6144);
        assert(square == 2360832 && mlp == 18882048);
        assert(last * (8 * square + 2 * mlp) == 1302967296) by (nonlinear_arith)
            requires
                last == 23,
                8 * square + 2 * mlp == 56650752,
        ;
        assert(k * (4 * square) == 122763264) by (nonlinear_arith)
            requires
                k == 13,
                4 * square == 9443328,
        ;
        assert(last * (12 * square) == 651589632) by (nonlinear_arith)
            requires
                last == 23,
                12 * square == 28329984,
        ;
        assert(k * (3 * square) == 92072448) by (nonlinear_arith)
            requires
                k == 13,
                3 * square == 7082496,
        ;
        assert(blocks_quantized(cfg, last) == 1425730560);
        assert(blocks_dense(cfg, last) == 743662080);
        assert(table == 147456);
        assert(table * d == 226492416);
    } else {
        assert(d == 2432 && f == 9728);
        assert(square == 5917056 && mlp == 47329152);
        assert(last * (8 * square + 2 * mlp) == 5253805824) by (nonlinear_arith)
            requires
                last == 37,
                8 * square + 2 * mlp == 141994752,
        ;
        assert(k * (4 * square) == 0) by (nonlinear_arith)
            requires
                k == 0,
                4 * square == 23668224,
        ;
        assert(last * (12 * square) == 2627172864) by (nonlinear_arith)
            requires
                last == 37,
                12 * square == 71004672,
        ;
        assert(k * (3 * square) == 0) by (nonlinear_arith)
            requires
                k == 0,
                3 * square == 17751168,
        ;
        assert(blocks_quantized(cfg, last) == 5253805824);
        assert(blocks_dense(cfg, last) == 2627172864);
        assert(table == 36864);
        assert(table * d == 89653248);
    }
    assert(cfg.patch_features() == 64);
    assert(d * cfg.in_channels * cfg.patch_size * cfg.patch_size == d * 64);
    assert(MlpEmbed::of(cfg.timestep_channels, cfg.inner_dim).params() == 257 * d + square);
    assert(MlpEmbed::of(cfg.pooled_dim, cfg.inner_dim).params() == 2049 * d + square);
    assert(d * (2 * d) == 2 * (d * d)) by (nonlinear_arith);
}

/// The parameters of a variant's parts.
pub fn param_counts(variant: Variant) -> (r: ParamCounts)
    ensures
        r == counts_of(variant),
{
    let cfg = variant.config();
    proof {
        law_counts_come_from_the_geometry(variant, &cfg);
    }
    let (dit_quantized, dit_dense) = dit_param_counts(&cfg);
    ParamCounts {
        dit_quantized,
        dit_dense,
        text_encoders: CLIP_L_PARAMS + CLIP_BIGG_PARAMS + T5_XXL_PARAMS,
        vae: VAE_PARAMS,
    }
}

/// The weight bytes of a variant at a precision.
#[derive(Clone, Copy, Debug, PartialEq, Eq, Structural)]
pub struct MemoryProfile {
    pub variant: Variant,
    pub precision: Precision,
    /// The transformer's projections, quantized or dense.
    pub dit_quantized_bytes: u64,
    pub dit_dense_bytes: u64,
    pub text_encoder_bytes: u64,
    pub vae_bytes: u64,
}

/// The memory in tenths of a GiB for this many weight bytes: weights and activations, with the
/// allocator's slack over both, rounded up.
pub open spec fn gate(weight_bytes: int) -> int {
    let scaled = (weight_bytes + ACTIVATION_OVERHEAD_GIB * GIB) * (100 + FRAG_MARGIN) * 10;
    (scaled + 100 * GIB - 1) / (100 * GIB)
}

/// The slack as one factor.
proof fn lemma_gate(w: int)
    ensures
        gate(w) == ((w + 15032385536) * 1080 + 107374182399) / 107374182400,
{
    let x = w + ACTIVATION_OVERHEAD_GIB * GIB;
    assert(x * (100 + FRAG_MARGIN) * 10 == x * 1080) by (nonlinear_arith)
        requires
            FRAG_MARGIN == 8,
    ;
}

impl MemoryProfile {
    /// The bytes of all weights.
    pub open spec fn bytes(self) -> int {
        self.dit_quantized_bytes + self.dit_dense_bytes + self.text_encoder_bytes + self.vae_bytes
    }

    /// The bytes of all weights, without activations or slack.
    pub fn weight_bytes(&self) -> (r: u64)
        requires
            self.bytes() <= u64::MAX,
        ensures
            r == self.bytes(),
    {
        self.dit_quantized_bytes + self.dit_dense_bytes + self.text_encoder_bytes + self.vae_bytes
    }

    /// The memory that a device must have, in tenths of a GiB.
    pub fn min_memory_gb(&self) -> (r: u64)
        requires
            self.bytes() <= u64::MAX,
        ensures
            r == gate(self.bytes()),
    {
        proof {
            lemma_gate(self.bytes());
        }
        let weights: u128 = self.weight_bytes() as u128;
        let footprint: u128 = weights + (ACTIVATION_OVERHEAD_GIB * GIB) as u128;
        let factor: u128 = ((100 + FRAG_MARGIN) * 10) as u128;
        assert(factor == 1080);
        let scaled: u128 = footprint * factor;
        let unit: u128 = (100 * GIB) as u128;
        let tenths: u128 = (scaled + unit - 1) / unit;
        tenths as u64
    }
}

/// The weight bytes of a variant's parts at a precision.
pub open spec fn profile_of(variant: Variant, precision: Precision) -> MemoryProfile {
    let c = counts_of(variant);
    MemoryProfile {
        variant,
        precision,
        dit_quantized_bytes: (c.dit_quantized * precision.projection_bytes() / 32) as u64,
        dit_dense_bytes: (2 * c.dit_dense) as u64,
        text_encoder_bytes: (2 * c.text_encoders) as u64,
        vae_bytes: (2 * c.vae) as u64,
    }
}

/// The weight bytes of a variant at a precision. The projections of every variant are whole blocks.
pub fn memory_profile(variant: Variant, precision: Precision) -> (r: MemoryProfile)
    ensures
        r == profile_of(variant, precision),
        32 * r.dit_quantized_bytes == counts_of(variant).dit_quantized * precision.projection_bytes(),
{
    let counts = param_counts(variant);
    let per_block: u64 = precision.dit_bytes_per_param();
    proof {
        assert(counts.dit_quantized * per_block == counts_of(variant).dit_quantized
            * precision.projection_bytes());
    }
    MemoryProfile {
        variant,
        precision,
        dit_quantized_bytes: counts.dit_quantized * per_block / 32,
        dit_dense_bytes: counts.dit_dense * 2,
        text_encoder_bytes: counts.text_encoders * 2,
        vae_bytes: counts.vae * 2,
    }
}

/// The memory that a device must have for a variant at a precision, in tenths of a GiB.
pub fn min_memory_gb(variant: Variant, precision: Precision) -> (r: u64)
    ensures
        r == gate(profile_of(variant, precision).bytes()),
{
    memory_profile(variant, precision).min_memory_gb()
}

/// The projections' bytes of a variant, from those of 32 parameters.
proof fn lemma_projections(variant: Variant, precision: Precision)
    ensures
        ({
            let n = counts_of(variant).dit_quantized as int;
            profile_of(variant, precision).dit_quantized_bytes == match precision {
                Precision::Q4 => 9 * (n / 16),
                Precision::Q8 => 17 * (n / 16),
                Precision::Bf16 => 2 * n,
            }
        }),
        counts_of(variant).dit_quantized % 16 == 0,
{
    let n = counts_of(variant).dit_quantized as int;
    let b = precision.projection_bytes();
    let want = match precision {
        Precision::Q4 => 18int,
        Precision::Q8 => 34,
        Precision::Bf16 => 64,
    };
    assert(b == want);
    assert(n * b == n * want) by (nonlinear_arith)
        requires
            b == want,
    ;
}

/// Quantizing lowers the memory that a variant needs, 4 bits more than 8.
pub proof fn law_memory_is_ordered_by_precision(variant: Variant)
    ensures
        gate(profile_of(variant, Precision::Q4).bytes()) < gate(
            profile_of(variant, Precision::Q8).bytes(),
        ) < gate(profile_of(variant, Precision::Bf16).bytes()),
{
    lemma_projections(variant, Precision::Q4);
    lemma_projections(variant, Precision::Q8);
    lemma_projections(variant, Precision::Bf16);
    lemma_gate(profile_of(variant, Precision::Q4).bytes());
    lemma_gate(profile_of(variant, Precision::Q8).bytes());
    lemma_gate(profile_of(variant, Precision::Bf16).bytes());
}

/// At every precision Medium needs no more memory than Large, and Turbo exactly as much.
pub proof fn law_memory_is_ordered_by_variant(precision: Precision)
    ensures
        gate(profile_of(Variant::Medium, precision).bytes()) <= gate(
            profile_of(Variant::Large, precision).bytes(),
        ),
        gate(profile_of(Variant::LargeTurbo, precision).bytes()) == gate(
            profile_of(Variant::Large, precision).bytes(),
        ),
{
    lemma_projections(Variant::Medium, precision);
    lemma_projections(Variant::Large, precision);
    lemma_projections(Variant::LargeTurbo, precision);
    law_gate_is_monotone(
        profile_of(Variant::Medium, precision).bytes(),
        profile_of(Variant::Large, precision).bytes(),
    );
}

/// The memory that was seen in use at its peak, in hundredths of a GiB.
pub open spec fn measured_peak(variant: Variant, precision: Precision) -> int {
    match (variant, precision) {
        (Variant::Medium, Precision::Bf16) => 2741,
        (Variant::Medium, Precision::Q8) => 2597,
        (Variant::Medium, Precision::Q4) => 2522,
        (_, Precision::Bf16) => 3845,
        (_, Precision::Q8) => 3469,
        (_, Precision::Q4) => 3160,
    }
}

/// The memory asked for covers the measured peak, by less than 6 GiB.
pub proof fn law_gate_covers_the_measured_peak(variant: Variant, precision: Precision)
    ensures
        ({
            let tenths = gate(profile_of(variant, precision).bytes());
            measured_peak(variant, precision) <= 10 * tenths <= measured_peak(variant, precision)
                + 600
        }),
{
    lemma_projections(variant, precision);
    lemma_gate(profile_of(variant, precision).bytes());
}

/// More weight never needs less memory.
pub proof fn law_gate_is_monotone(a: int, b: int)
    requires
        0 <= a <= b,
    ensures
        gate(a) <= gate(b),
{
    lemma_gate(a);
    lemma_gate(b);
}

/// Every parameter is paid for: two bytes each where it stays dense, and its share of a block where it
/// is quantized, which the precision alone decides.
pub proof fn law_every_parameter_is_paid_for(variant: Variant, precision: Precision)
    ensures
        ({
            let p = profile_of(variant, precision);
            let c = counts_of(variant);
            &&& p.dit_dense_bytes == c.dit_dense + c.dit_dense
            &&& p.text_encoder_bytes == c.text_encoders + c.text_encoders
            &&& p.vae_bytes == c.vae + c.vae
            &&& precision == Precision::Bf16 ==> p.bytes() == c.sum() + c.sum()
            &&& precision == Precision::Q8 ==> 32 * p.dit_quantized_bytes == c.dit_quantized
                * block_bytes(Quant::Q8)
            &&& precision == Precision::Q4 ==> 32 * p.dit_quantized_bytes == c.dit_quantized
                * block_bytes(Quant::Q4)
            &&& p.bytes() == p.dit_quantized_bytes + p.dit_dense_bytes + p.text_encoder_bytes
                + p.vae_bytes
            &&& p.variant == variant && p.precision == precision
        }),
{
    lemma_projections(variant, precision);
    let p = profile_of(variant, precision);
    let c = counts_of(variant);
    let n = c.dit_quantized as int;
    match variant {
        Variant::Large | Variant::LargeTurbo => {
            assert(n == 5_352_673_984);
        },
        Variant::Medium => {
            assert(n == 1_467_529_792);
        },
    }
    let m = n / 16;
    assert(n == 16 * m);
    assert(block_bytes(Quant::Q8) == 34 && block_bytes(Quant::Q4) == 18);
    assert(n * block_bytes(Quant::Q8) == n * 34);
    assert(n * block_bytes(Quant::Q4) == n * 18);
    assert(p.dit_dense_bytes == 2 * c.dit_dense);
    assert(p.text_encoder_bytes == 2 * c.text_encoders);
    assert(p.vae_bytes == 2 * c.vae);
}

/// The memory asked for is the least number of tenths of a GiB that holds the weights and the
/// activations with the slack over both.
pub proof fn law_gate_is_the_least_that_holds(weight_bytes: int)
    requires
        weight_bytes >= 0,
    ensures
        ({
            let needed = (weight_bytes + ACTIVATION_OVERHEAD_GIB * GIB) * (100 + FRAG_MARGIN);
            &&& gate(weight_bytes) * GIB * 100 >= needed * 10
            &&& (gate(weight_bytes) - 1) * GIB * 100 < needed * 10
        }),
{
    lemma_gate(weight_bytes);
    let x = weight_bytes + ACTIVATION_OVERHEAD_GIB * GIB;
    assert(x * (100 + FRAG_MARGIN) == x * 108) by (nonlinear_arith)
        requires
            FRAG_MARGIN == 8,
    ;
    assert(gate(weight_bytes) * GIB == gate(weight_bytes) * 1073741824);
    assert((gate(weight_bytes) - 1) * GIB == (gate(weight_bytes) - 1) * 1073741824);
}

/// The text encoders are those of every variant: both CLIPs and the T5; and so is the autoencoder.
pub proof fn law_encoders_are_shared(v: Variant)
    ensures
        counts_of(v).text_encoders == CLIP_L_PARAMS + CLIP_BIGG_PARAMS + T5_XXL_PARAMS,
        counts_of(v).vae == VAE_PARAMS,
{
}

} // verus!

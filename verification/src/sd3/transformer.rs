//! The SD3.5 joint transformer: the layers that a geometry describes, how a block uses its
//! modulation, where positional rows come from, and how patches become a latent again.
use super::config::{lemma_presets_expand, Sd3Config, Variant};
use super::quant::{law_quantize_is_idempotent, PartialBlock, QLinear, Weight};
use crate::request::Quant;
use vstd::arithmetic::div_mod::lemma_fundamental_div_mod_converse;
use vstd::prelude::*;

verus! {

/// A dense linear layer with a bias.
#[derive(Clone, Copy, Debug, PartialEq, Eq, Structural)]
pub struct Linear {
    pub in_dim: usize,
    pub out_dim: usize,
}

impl Linear {
    pub open spec fn params(self) -> int {
        self.in_dim * self.out_dim + self.out_dim
    }
}

/// Two linear layers with an activation between them.
#[derive(Clone, Copy, Debug, PartialEq, Eq, Structural)]
pub struct MlpEmbed {
    pub linear_1: Linear,
    pub linear_2: Linear,
}

impl MlpEmbed {
    pub open spec fn params(self) -> int {
        self.linear_1.params() + self.linear_2.params()
    }

    pub open spec fn of(in_dim: usize, hidden: usize) -> Self {
        MlpEmbed {
            linear_1: Linear { in_dim, out_dim: hidden },
            linear_2: Linear { in_dim: hidden, out_dim: hidden },
        }
    }

    fn new(in_dim: usize, hidden: usize) -> (r: Self)
        ensures
            r == MlpEmbed::of(in_dim, hidden),
    {
        MlpEmbed {
            linear_1: Linear { in_dim, out_dim: hidden },
            linear_2: Linear { in_dim: hidden, out_dim: hidden },
        }
    }
}

/// The sum of the timestep's and the pooled text's embedding.
#[derive(Clone, Copy, Debug, PartialEq, Eq, Structural)]
pub struct CombinedTimestepTextEmbed {
    pub timestep: MlpEmbed,
    pub text: MlpEmbed,
    pub timestep_channels: usize,
}

/// The patch convolution and the learned positional table.
#[derive(Clone, Copy, Debug, PartialEq, Eq, Structural)]
pub struct PatchEmbed {
    pub in_channels: usize,
    /// The kernel and the stride.
    pub patch_size: usize,
    pub max_size: usize,
    pub inner: usize,
}

impl PatchEmbed {
    pub open spec fn params(self) -> int {
        self.inner * self.in_channels * self.patch_size * self.patch_size + self.inner
            + self.max_size * self.max_size * self.inner
    }
}

/// A modulation layer of `n_chunks` slices of the inner width.
#[derive(Clone, Copy, Debug, PartialEq, Eq, Structural)]
pub struct AdaLayerNormZero {
    pub linear: Linear,
    pub n_chunks: usize,
}

impl AdaLayerNormZero {
    pub open spec fn of(inner: usize, n_chunks: usize) -> Self {
        AdaLayerNormZero {
            linear: Linear { in_dim: inner, out_dim: (n_chunks * inner) as usize },
            n_chunks,
        }
    }

    fn new(inner: usize, n_chunks: usize) -> (r: Self)
        requires
            n_chunks * inner <= usize::MAX,
        ensures
            r == AdaLayerNormZero::of(inner, n_chunks),
    {
        AdaLayerNormZero { linear: Linear { in_dim: inner, out_dim: n_chunks * inner }, n_chunks }
    }

    /// The features of modulation slice `i`: `[i * inner, (i + 1) * inner)`.
    pub fn chunk_range(&self, i: usize) -> (r: (usize, usize))
        requires
            self.n_chunks > 0,
            i < self.n_chunks,
        ensures
            r.1 == self.linear.out_dim as int / self.n_chunks as int,
            r.0 == i * r.1,
            r.0 + r.1 <= self.linear.out_dim,
            i == 0 ==> r.0 == 0,
            self.linear.out_dim < self.n_chunks * (r.1 + 1),
    {
        let inner: usize = self.linear.out_dim / self.n_chunks;
        proof {
            vstd::arithmetic::div_mod::lemma_fundamental_div_mod(
                self.linear.out_dim as int,
                self.n_chunks as int,
            );
            assert(i * inner + inner <= self.n_chunks * inner) by (nonlinear_arith)
                requires
                    i + 1 <= self.n_chunks,
                    inner >= 0,
            ;
            assert(i * inner >= 0) by (nonlinear_arith)
                requires
                    i >= 0,
                    inner >= 0,
            ;
            assert(self.n_chunks * (inner + 1) == self.n_chunks * inner + self.n_chunks)
                by (nonlinear_arith);
            if i == 0 {
                assert(i * inner == 0) by (nonlinear_arith)
                    requires
                        i == 0,
                ;
            }
        }
        (i * inner, inner)
    }
}

/// A per-head normalisation of queries or keys.
#[derive(Clone, Copy, Debug, PartialEq, Eq, Structural)]
pub struct RmsNorm {
    pub dim: usize,
}

/// The joint attention of a block: image and text projections over one sequence, text first. A block
/// that drops its text output has no text output projection.
#[derive(Clone, Copy, Debug, PartialEq, Eq, Structural)]
pub struct JointAttention {
    pub to_q: QLinear,
    pub to_k: QLinear,
    pub to_v: QLinear,
    pub to_out: QLinear,
    pub add_q: QLinear,
    pub add_k: QLinear,
    pub add_v: QLinear,
    pub to_add_out: Option<QLinear>,
    /// The query and key norms of both streams.
    pub norms: Option<RmsNorm>,
    pub heads: usize,
    pub head_dim: usize,
}

pub open spec fn opt_params(l: Option<QLinear>) -> int {
    match l {
        Some(q) => q.params(),
        None => 0,
    }
}

pub open spec fn opt_fits(l: Option<QLinear>) -> bool {
    match l {
        Some(q) => q.blocks_fit(),
        None => true,
    }
}

/// The width that quantizing the projection reports.
pub open spec fn partial(l: QLinear) -> Option<PartialBlock> {
    if l.blocks_fit() {
        None
    } else {
        Some(PartialBlock { in_dim: l.in_dim })
    }
}

pub open spec fn opt_partial(l: Option<QLinear>) -> Option<PartialBlock> {
    match l {
        Some(q) => partial(q),
        None => None,
    }
}

/// The first of two reports.
pub open spec fn earlier(a: Option<PartialBlock>, b: Option<PartialBlock>) -> Option<PartialBlock> {
    if a is Some {
        a
    } else {
        b
    }
}

pub open spec fn opt_quantized(l: Option<QLinear>, quant: Quant) -> Option<QLinear> {
    match l {
        Some(q) => Some(q.quantized(quant)),
        None => None,
    }
}

pub open spec fn head_norm(cfg: &Sd3Config) -> Option<RmsNorm> {
    if cfg.qk_norm {
        Some(RmsNorm { dim: cfg.head_dim })
    } else {
        None
    }
}

fn make_head_norm(cfg: &Sd3Config) -> (r: Option<RmsNorm>)
    ensures
        r == head_norm(cfg),
{
    if cfg.qk_norm {
        Some(RmsNorm { dim: cfg.head_dim })
    } else {
        None
    }
}

/// Quantizes a copy of a projection.
fn fold(l: QLinear, quant: Quant) -> (r: Result<QLinear, PartialBlock>)
    ensures
        match r {
            Ok(q) => l.blocks_fit() && q == l.quantized(quant),
            Err(e) => partial(l) == Some(e),
        },
{
    let mut q = l;
    match q.quantize(quant) {
        Ok(_) => Ok(q),
        Err(e) => Err(e),
    }
}

fn fold_opt(l: Option<QLinear>, quant: Quant) -> (r: Result<Option<QLinear>, PartialBlock>)
    ensures
        match r {
            Ok(q) => opt_fits(l) && q == opt_quantized(l, quant),
            Err(e) => opt_partial(l) == Some(e),
        },
{
    match l {
        Some(q) => match fold(q, quant) {
            Ok(q) => Ok(Some(q)),
            Err(e) => Err(e),
        },
        None => Ok(None),
    }
}

impl JointAttention {
    pub open spec fn of(cfg: &Sd3Config, context_pre_only: bool) -> Self {
        let square = QLinear::dense(cfg.inner_dim, cfg.inner_dim, true);
        JointAttention {
            to_q: square,
            to_k: square,
            to_v: square,
            to_out: square,
            add_q: square,
            add_k: square,
            add_v: square,
            to_add_out: if context_pre_only {
                None
            } else {
                Some(square)
            },
            norms: head_norm(cfg),
            heads: cfg.num_heads,
            head_dim: cfg.head_dim,
        }
    }

    /// The parameters of the projections.
    pub open spec fn params(self) -> int {
        self.to_q.params() + self.to_k.params() + self.to_v.params() + self.to_out.params()
            + self.add_q.params() + self.add_k.params() + self.add_v.params() + opt_params(
            self.to_add_out,
        )
    }

    pub open spec fn fits(self) -> bool {
        &&& self.to_q.blocks_fit() && self.to_k.blocks_fit() && self.to_v.blocks_fit()
        &&& self.to_out.blocks_fit() && self.add_q.blocks_fit() && self.add_k.blocks_fit()
        &&& self.add_v.blocks_fit() && opt_fits(self.to_add_out)
    }

    /// What quantizing reports: the width of the first projection that does not fit.
    pub open spec fn first_partial(self) -> Option<PartialBlock> {
        let image = earlier(
            earlier(partial(self.to_q), partial(self.to_k)),
            earlier(partial(self.to_v), partial(self.to_out)),
        );
        let text = earlier(
            earlier(partial(self.add_q), partial(self.add_k)),
            earlier(partial(self.add_v), opt_partial(self.to_add_out)),
        );
        earlier(image, text)
    }

    pub open spec fn quantized(self, quant: Quant) -> Self {
        JointAttention {
            to_q: self.to_q.quantized(quant),
            to_k: self.to_k.quantized(quant),
            to_v: self.to_v.quantized(quant),
            to_out: self.to_out.quantized(quant),
            add_q: self.add_q.quantized(quant),
            add_k: self.add_k.quantized(quant),
            add_v: self.add_v.quantized(quant),
            to_add_out: opt_quantized(self.to_add_out, quant),
            ..self
        }
    }

    fn new(cfg: &Sd3Config, context_pre_only: bool) -> (r: Self)
        ensures
            r == JointAttention::of(cfg, context_pre_only),
    {
        let square = QLinear::linear(cfg.inner_dim, cfg.inner_dim);
        JointAttention {
            to_q: square,
            to_k: square,
            to_v: square,
            to_out: square,
            add_q: square,
            add_k: square,
            add_v: square,
            to_add_out: if context_pre_only {
                None
            } else {
                Some(square)
            },
            norms: make_head_norm(cfg),
            heads: cfg.num_heads,
            head_dim: cfg.head_dim,
        }
    }

    fn quantize(self, quant: Quant) -> (r: Result<Self, PartialBlock>)
        ensures
            match r {
                Ok(a) => self.fits() && a == self.quantized(quant),
                Err(e) => self.first_partial() == Some(e),
            },
    {
        let to_q = fold(self.to_q, quant)?;
        let to_k = fold(self.to_k, quant)?;
        let to_v = fold(self.to_v, quant)?;
        let to_out = fold(self.to_out, quant)?;
        let add_q = fold(self.add_q, quant)?;
        let add_k = fold(self.add_k, quant)?;
        let add_v = fold(self.add_v, quant)?;
        let to_add_out = fold_opt(self.to_add_out, quant)?;
        Ok(
            JointAttention {
                to_q,
                to_k,
                to_v,
                to_out,
                add_q,
                add_k,
                add_v,
                to_add_out,
                ..self
            },
        )
    }

    /// Where the joint output splits for `txt` text and `img` image tokens: the text rows come first.
    pub fn split(txt: usize, img: usize) -> (r: ((usize, usize), (usize, usize)))
        requires
            txt + img <= usize::MAX,
        ensures
            r == ((0usize, txt), (txt, img)),
            r.0.0 == 0 && r.1.0 == r.0.0 + r.0.1,
            r.0.1 == txt && r.1.1 == img,
    {
        ((0, txt), (txt, img))
    }
}

/// The second, image-only attention of a dual block.
#[derive(Clone, Copy, Debug, PartialEq, Eq, Structural)]
pub struct SelfAttention {
    pub to_q: QLinear,
    pub to_k: QLinear,
    pub to_v: QLinear,
    pub to_out: QLinear,
    pub norms: Option<RmsNorm>,
    pub heads: usize,
    pub head_dim: usize,
}

impl SelfAttention {
    pub open spec fn of(cfg: &Sd3Config) -> Self {
        let square = QLinear::dense(cfg.inner_dim, cfg.inner_dim, true);
        SelfAttention {
            to_q: square,
            to_k: square,
            to_v: square,
            to_out: square,
            norms: head_norm(cfg),
            heads: cfg.num_heads,
            head_dim: cfg.head_dim,
        }
    }

    pub open spec fn params(self) -> int {
        self.to_q.params() + self.to_k.params() + self.to_v.params() + self.to_out.params()
    }

    pub open spec fn fits(self) -> bool {
        self.to_q.blocks_fit() && self.to_k.blocks_fit() && self.to_v.blocks_fit()
            && self.to_out.blocks_fit()
    }

    /// What quantizing reports: the width of the first projection that does not fit.
    pub open spec fn first_partial(self) -> Option<PartialBlock> {
        earlier(
            earlier(partial(self.to_q), partial(self.to_k)),
            earlier(partial(self.to_v), partial(self.to_out)),
        )
    }

    pub open spec fn quantized(self, quant: Quant) -> Self {
        SelfAttention {
            to_q: self.to_q.quantized(quant),
            to_k: self.to_k.quantized(quant),
            to_v: self.to_v.quantized(quant),
            to_out: self.to_out.quantized(quant),
            ..self
        }
    }

    fn new(cfg: &Sd3Config) -> (r: Self)
        ensures
            r == SelfAttention::of(cfg),
    {
        let square = QLinear::linear(cfg.inner_dim, cfg.inner_dim);
        SelfAttention {
            to_q: square,
            to_k: square,
            to_v: square,
            to_out: square,
            norms: make_head_norm(cfg),
            heads: cfg.num_heads,
            head_dim: cfg.head_dim,
        }
    }

    fn quantize(self, quant: Quant) -> (r: Result<Self, PartialBlock>)
        ensures
            match r {
                Ok(a) => self.fits() && a == self.quantized(quant),
                Err(e) => self.first_partial() == Some(e),
            },
    {
        let to_q = fold(self.to_q, quant)?;
        let to_k = fold(self.to_k, quant)?;
        let to_v = fold(self.to_v, quant)?;
        let to_out = fold(self.to_out, quant)?;
        Ok(SelfAttention { to_q, to_k, to_v, to_out, ..self })
    }
}

/// A feed-forward pair.
#[derive(Clone, Copy, Debug, PartialEq, Eq, Structural)]
pub struct FeedForward {
    pub proj: QLinear,
    pub out: QLinear,
}

impl FeedForward {
    pub open spec fn of(in_dim: usize, hidden: usize) -> Self {
        FeedForward {
            proj: QLinear::dense(in_dim, hidden, true),
            out: QLinear::dense(hidden, in_dim, true),
        }
    }

    pub open spec fn params(self) -> int {
        self.proj.params() + self.out.params()
    }

    pub open spec fn fits(self) -> bool {
        self.proj.blocks_fit() && self.out.blocks_fit()
    }

    /// What quantizing reports: the width of the first projection that does not fit.
    pub open spec fn first_partial(self) -> Option<PartialBlock> {
        earlier(partial(self.proj), partial(self.out))
    }

    pub open spec fn quantized(self, quant: Quant) -> Self {
        FeedForward { proj: self.proj.quantized(quant), out: self.out.quantized(quant) }
    }

    fn new(in_dim: usize, hidden: usize) -> (r: Self)
        ensures
            r == FeedForward::of(in_dim, hidden),
    {
        FeedForward { proj: QLinear::linear(in_dim, hidden), out: QLinear::linear(hidden, in_dim) }
    }

    fn quantize(self, quant: Quant) -> (r: Result<Self, PartialBlock>)
        ensures
            match r {
                Ok(f) => self.fits() && f == self.quantized(quant),
                Err(e) => self.first_partial() == Some(e),
            },
    {
        let proj = fold(self.proj, quant)?;
        let out = fold(self.out, quant)?;
        Ok(FeedForward { proj, out })
    }
}

/// The modulation slices of one sublayer: `x * (1 + scale) + shift` goes in, and where there is a
/// gate the output is added through it.
#[derive(Clone, Copy, Debug, PartialEq, Eq, Structural)]
pub struct Modulation {
    pub shift: usize,
    pub scale: usize,
    pub gate: Option<usize>,
}

/// Which modulation slices the sublayers of a block use.
#[derive(Clone, Copy, Debug, PartialEq, Eq, Structural)]
pub struct BlockModulation {
    pub image_attention: Modulation,
    pub image_mlp: Modulation,
    /// The second attention of a dual block.
    pub dual_attention: Option<Modulation>,
    pub text_attention: Modulation,
    /// Absent where the block drops its text output.
    pub text_mlp: Option<Modulation>,
}

/// One step of a block's forward pass.
#[derive(Clone, Copy, Debug, PartialEq, Eq, Structural)]
pub enum BlockStep {
    /// Attend over text and image tokens together.
    JointAttention,
    /// Add the second attention over the image tokens alone.
    DualResidual,
    /// Add the joint attention's image rows.
    ImageResidual,
    ImageFeedForward,
    /// Add the joint attention's text rows.
    TextResidual,
    TextFeedForward,
}

/// One joint block.
#[derive(Clone, Copy, Debug, PartialEq, Eq, Structural)]
pub struct JointBlock {
    pub norm1: AdaLayerNormZero,
    pub norm1_context: AdaLayerNormZero,
    pub attn: JointAttention,
    pub attn2: Option<SelfAttention>,
    pub ff: FeedForward,
    pub ff_context: Option<FeedForward>,
    pub context_pre_only: bool,
}

impl JointBlock {
    pub open spec fn of(cfg: &Sd3Config, context_pre_only: bool, dual: bool) -> Self {
        let inner = cfg.inner_dim;
        let hidden = cfg.hidden() as usize;
        JointBlock {
            norm1: AdaLayerNormZero::of(
                inner,
                if dual {
                    9
                } else {
                    6
                },
            ),
            norm1_context: AdaLayerNormZero::of(
                inner,
                if context_pre_only {
                    2
                } else {
                    6
                },
            ),
            attn: JointAttention::of(cfg, context_pre_only),
            attn2: if dual {
                Some(SelfAttention::of(cfg))
            } else {
                None
            },
            ff: FeedForward::of(inner, hidden),
            ff_context: if context_pre_only {
                None
            } else {
                Some(FeedForward::of(inner, hidden))
            },
            context_pre_only,
        }
    }

    /// The parameters of the projections that are quantized.
    pub open spec fn quantized_params(self) -> int {
        self.attn.params() + self.ff.params() + match self.attn2 {
            Some(a) => a.params(),
            None => 0,
        } + match self.ff_context {
            Some(f) => f.params(),
            None => 0,
        }
    }

    /// The parameters of the modulation layers, which stay dense.
    pub open spec fn dense_params(self) -> int {
        self.norm1.linear.params() + self.norm1_context.linear.params()
    }

    pub open spec fn fits(self) -> bool {
        &&& self.attn.fits() && self.ff.fits()
        &&& (self.attn2 matches Some(a) ==> a.fits())
        &&& (self.ff_context matches Some(f) ==> f.fits())
    }

    /// What quantizing reports: the width of the first projection that does not fit, of the
    /// attentions and then of the feed-forwards.
    pub open spec fn first_partial(self) -> Option<PartialBlock> {
        let attention = earlier(
            self.attn.first_partial(),
            match self.attn2 {
                Some(a) => a.first_partial(),
                None => None,
            },
        );
        let forward = earlier(
            self.ff.first_partial(),
            match self.ff_context {
                Some(f) => f.first_partial(),
                None => None,
            },
        );
        earlier(attention, forward)
    }

    pub open spec fn quantized(self, quant: Quant) -> Self {
        JointBlock {
            attn: self.attn.quantized(quant),
            attn2: match self.attn2 {
                Some(a) => Some(a.quantized(quant)),
                None => None,
            },
            ff: self.ff.quantized(quant),
            ff_context: match self.ff_context {
                Some(f) => Some(f.quantized(quant)),
                None => None,
            },
            ..self
        }
    }

    /// Lays out a block. A dual block has nine modulation slices in place of six, and a second
    /// attention; a block that drops its text output has two, and no text projections behind its
    /// attention.
    pub fn new(cfg: &Sd3Config, context_pre_only: bool, dual: bool) -> (r: Self)
        requires
            9 * cfg.inner_dim <= usize::MAX,
        ensures
            r == JointBlock::of(cfg, context_pre_only, dual),
    {
        let inner: usize = cfg.inner_dim;
        let hidden: usize = cfg.ff_hidden();
        let image_chunks: usize = if dual {
            9
        } else {
            6
        };
        let text_chunks: usize = if context_pre_only {
            2
        } else {
            6
        };
        JointBlock {
            norm1: AdaLayerNormZero::new(inner, image_chunks),
            norm1_context: AdaLayerNormZero::new(inner, text_chunks),
            attn: JointAttention::new(cfg, context_pre_only),
            attn2: if dual {
                Some(SelfAttention::new(cfg))
            } else {
                None
            },
            ff: FeedForward::new(inner, hidden),
            ff_context: if context_pre_only {
                None
            } else {
                Some(FeedForward::new(inner, hidden))
            },
            context_pre_only,
        }
    }

    /// Folds the block's projections into blocks; its modulation layers stay dense.
    pub fn quantize(self, quant: Quant) -> (r: Result<Self, PartialBlock>)
        ensures
            match r {
                Ok(b) => self.fits() && b == self.quantized(quant),
                Err(e) => self.first_partial() == Some(e),
            },
    {
        let attn = self.attn.quantize(quant)?;
        let attn2 = match self.attn2 {
            Some(a) => match a.quantize(quant) {
                Ok(q) => Some(q),
                Err(e) => {
                    return Err(e);
                },
            },
            None => None,
        };
        let ff = self.ff.quantize(quant)?;
        let ff_context = match self.ff_context {
            Some(f) => match f.quantize(quant) {
                Ok(q) => Some(q),
                Err(e) => {
                    return Err(e);
                },
            },
            None => None,
        };
        Ok(JointBlock { attn, attn2, ff, ff_context, ..self })
    }

    pub open spec fn modulated(self) -> BlockModulation {
        BlockModulation {
            image_attention: Modulation { shift: 0, scale: 1, gate: Some(2) },
            image_mlp: Modulation { shift: 3, scale: 4, gate: Some(5) },
            dual_attention: if self.attn2 is Some {
                Some(Modulation { shift: 6, scale: 7, gate: Some(8) })
            } else {
                None
            },
            text_attention: if self.context_pre_only {
                Modulation { shift: 1, scale: 0, gate: None }
            } else {
                Modulation { shift: 0, scale: 1, gate: Some(2) }
            },
            text_mlp: if self.context_pre_only {
                None
            } else {
                Some(Modulation { shift: 3, scale: 4, gate: Some(5) })
            },
        }
    }

    /// The modulation slices of the block: shift, scale and gate of the attention, then of the
    /// feed-forward, then of a second attention. A block that drops its text output has two for its
    /// text, scale first.
    pub fn modulation(&self) -> (r: BlockModulation)
        ensures
            r == self.modulated(),
    {
        BlockModulation {
            image_attention: Modulation { shift: 0, scale: 1, gate: Some(2) },
            image_mlp: Modulation { shift: 3, scale: 4, gate: Some(5) },
            dual_attention: if self.attn2.is_some() {
                Some(Modulation { shift: 6, scale: 7, gate: Some(8) })
            } else {
                None
            },
            text_attention: if self.context_pre_only {
                Modulation { shift: 1, scale: 0, gate: None }
            } else {
                Modulation { shift: 0, scale: 1, gate: Some(2) }
            },
            text_mlp: if self.context_pre_only {
                None
            } else {
                Some(Modulation { shift: 3, scale: 4, gate: Some(5) })
            },
        }
    }

    /// The steps of the block, in order.
    pub open spec fn steps(self) -> Seq<BlockStep> {
        seq![BlockStep::JointAttention] + (if self.attn2 is Some {
            seq![BlockStep::DualResidual]
        } else {
            Seq::empty()
        }) + seq![BlockStep::ImageResidual, BlockStep::ImageFeedForward] + (
        if self.context_pre_only {
            Seq::empty()
        } else {
            seq![BlockStep::TextResidual, BlockStep::TextFeedForward]
        })
    }

    /// The steps of one pass through the block. A second attention is added to the image stream
    /// before the joint one; the text stream is left alone where its output is dropped.
    pub fn forward(&self) -> (r: Vec<BlockStep>)
        ensures
            r@ == self.steps(),
    {
        let mut v: Vec<BlockStep> = Vec::new();
        v.push(BlockStep::JointAttention);
        if self.attn2.is_some() {
            v.push(BlockStep::DualResidual);
        }
        v.push(BlockStep::ImageResidual);
        v.push(BlockStep::ImageFeedForward);
        if !self.context_pre_only {
            v.push(BlockStep::TextResidual);
            v.push(BlockStep::TextFeedForward);
        }
        proof {
            assert(v@ =~= self.steps());
        }
        v
    }
}

/// The output modulation: scale first, then shift.
#[derive(Clone, Copy, Debug, PartialEq, Eq, Structural)]
pub struct AdaLayerNormContinuous {
    pub linear: Linear,
}

impl AdaLayerNormContinuous {
    /// The features of the scale and of the shift: the first half and the second.
    pub fn scale_and_shift(&self) -> (r: ((usize, usize), (usize, usize)))
        ensures
            ({
                let half = self.linear.out_dim / 2;
                r == ((0usize, half as usize), (half as usize, half as usize))
            }),
            r.0.0 == 0 && r.1.0 == r.0.1 && r.1.1 == r.0.1,
            2 * r.0.1 <= self.linear.out_dim <= 2 * r.0.1 + 1,
    {
        let half: usize = self.linear.out_dim / 2;
        ((0, half), (half, half))
    }
}

/// The layers of an SD3.5 transformer.
#[derive(Clone, Debug)]
pub struct Sd3Transformer {
    pub pos_embed: PatchEmbed,
    pub time_text_embed: CombinedTimestepTextEmbed,
    pub context_embedder: QLinear,
    pub blocks: Vec<JointBlock>,
    pub norm_out: AdaLayerNormContinuous,
    pub proj_out: QLinear,
}

/// The derived widths of a geometry fit.
pub open spec fn widths_fit(cfg: &Sd3Config) -> bool {
    &&& 9 * cfg.inner_dim <= usize::MAX
    &&& cfg.patch_size * cfg.patch_size <= usize::MAX
    &&& cfg.patch_features() <= usize::MAX
}

/// A transformer can be laid out: its derived widths fit, and it has patches.
pub open spec fn geometry_fits(cfg: &Sd3Config) -> bool {
    widths_fit(cfg) && cfg.patch_size >= 1
}

/// The token grid of a latent that does not fit the transformer.
#[derive(Clone, Copy, Debug, PartialEq, Eq, Structural)]
pub enum GridError {
    /// Smaller than one patch.
    TooSmall,
    /// Larger than the positional table.
    TooLarge,
}

/// The first report of the blocks from `i` on.
pub open spec fn blocks_partial(v: Seq<JointBlock>, i: int) -> Option<PartialBlock>
    decreases v.len() - i,
{
    if i < 0 || i >= v.len() {
        None
    } else {
        earlier(v[i].first_partial(), blocks_partial(v, i + 1))
    }
}

impl Sd3Transformer {
    /// The layers are those of the geometry.
    pub open spec fn built(&self, cfg: &Sd3Config) -> bool {
        let inner = cfg.inner_dim;
        &&& geometry_fits(cfg)
        &&& self.pos_embed == PatchEmbed {
            in_channels: cfg.in_channels,
            patch_size: cfg.patch_size,
            max_size: cfg.pos_embed_max_size,
            inner,
        }
        &&& self.time_text_embed == CombinedTimestepTextEmbed {
            timestep: MlpEmbed::of(cfg.timestep_channels, inner),
            text: MlpEmbed::of(cfg.pooled_dim, inner),
            timestep_channels: cfg.timestep_channels,
        }
        &&& self.context_embedder == QLinear::dense(cfg.joint_attention_dim, inner, true)
        &&& self.blocks@ == Seq::new(
            cfg.num_layers as nat,
            |i: int| JointBlock::of(cfg, cfg.pre_only(i), cfg.dual(i)),
        )
        &&& self.norm_out.linear == Linear { in_dim: inner, out_dim: (2 * inner) as usize }
        &&& self.proj_out == QLinear::dense(inner, cfg.patch_features() as usize, true)
    }

    /// Lays out the transformer of a geometry.
    pub fn new(cfg: &Sd3Config) -> (r: Self)
        requires
            geometry_fits(cfg),
        ensures
            r.built(cfg),
    {
        let inner: usize = cfg.inner_dim;
        let mut blocks: Vec<JointBlock> = Vec::new();
        let mut i: usize = 0;
        while i < cfg.num_layers
            invariant
                i <= cfg.num_layers,
                geometry_fits(cfg),
                blocks@ == Seq::new(
                    i as nat,
                    |k: int| JointBlock::of(cfg, cfg.pre_only(k), cfg.dual(k)),
                ),
            decreases cfg.num_layers - i,
        {
            let pre_only = cfg.context_pre_only_last && i == cfg.num_layers - 1;
            let dual = cfg.is_dual_block(i);
            blocks.push(JointBlock::new(cfg, pre_only, dual));
            i += 1;
        }
        Sd3Transformer {
            pos_embed: PatchEmbed {
                in_channels: cfg.in_channels,
                patch_size: cfg.patch_size,
                max_size: cfg.pos_embed_max_size,
                inner,
            },
            time_text_embed: CombinedTimestepTextEmbed {
                timestep: MlpEmbed::new(cfg.timestep_channels, inner),
                text: MlpEmbed::new(cfg.pooled_dim, inner),
                timestep_channels: cfg.timestep_channels,
            },
            context_embedder: QLinear::linear(cfg.joint_attention_dim, inner),
            blocks,
            norm_out: AdaLayerNormContinuous {
                linear: Linear { in_dim: inner, out_dim: 2 * inner },
            },
            proj_out: QLinear::linear(inner, cfg.patch_dim()),
        }
    }

    /// Every quantized projection's rows are whole blocks.
    pub open spec fn fits(&self) -> bool {
        &&& self.context_embedder.blocks_fit()
        &&& self.proj_out.blocks_fit()
        &&& forall|i: int| 0 <= i < self.blocks.len() ==> (#[trigger] self.blocks[i]).fits()
    }

    /// What quantizing reports: the width of the first projection that does not fit.
    pub open spec fn first_partial(&self) -> Option<PartialBlock> {
        earlier(
            partial(self.context_embedder),
            earlier(blocks_partial(self.blocks@, 0), partial(self.proj_out)),
        )
    }

    /// Folds every heavy projection into blocks: the context embedder, every block's, and the output
    /// projection. The embedders, the modulation layers and the positional table stay dense.
    pub fn quantize(self, quant: Quant) -> (r: Result<Self, PartialBlock>)
        ensures
            match r {
                Ok(t) => {
                    &&& self.fits()
                    &&& t.context_embedder == self.context_embedder.quantized(quant)
                    &&& t.proj_out == self.proj_out.quantized(quant)
                    &&& t.blocks@ == self.blocks@.map_values(|b: JointBlock| b.quantized(quant))
                    &&& t.pos_embed == self.pos_embed && t.time_text_embed == self.time_text_embed
                    &&& t.norm_out == self.norm_out
                },
                Err(e) => self.first_partial() == Some(e),
            },
    {
        let context_embedder = fold(self.context_embedder, quant)?;
        let mut blocks: Vec<JointBlock> = Vec::new();
        let mut i: usize = 0;
        while i < self.blocks.len()
            invariant
                i <= self.blocks.len(),
                blocks.len() == i,
                partial(self.context_embedder) is None,
                blocks_partial(self.blocks@, 0) == blocks_partial(self.blocks@, i as int),
                forall|k: int| 0 <= k < i ==> (#[trigger] self.blocks[k]).fits(),
                forall|k: int|
                    0 <= k < i ==> #[trigger] blocks[k] == self.blocks[k].quantized(quant),
            decreases self.blocks.len() - i,
        {
            let b = self.blocks[i];
            match b.quantize(quant) {
                Ok(q) => {
                    blocks.push(q);
                },
                Err(e) => {
                    return Err(e);
                },
            }
            i += 1;
        }
        let proj_out = fold(self.proj_out, quant)?;
        proof {
            assert(blocks@ =~= self.blocks@.map_values(|b: JointBlock| b.quantized(quant)));
        }
        Ok(
            Sd3Transformer {
                pos_embed: self.pos_embed,
                time_text_embed: self.time_text_embed,
                context_embedder,
                blocks,
                norm_out: self.norm_out,
                proj_out,
            },
        )
    }

    /// The token grid of a latent of `height` by `width`: one token for each whole patch.
    pub fn token_grid(&self, height: usize, width: usize) -> (r: Result<(usize, usize), GridError>)
        requires
            self.pos_embed.patch_size >= 1,
        ensures
            ({
                let p = self.pos_embed.patch_size as int;
                let (h, w) = (height as int / p, width as int / p);
                match r {
                    Ok(g) => g.0 == h && g.1 == w && 1 <= h <= self.pos_embed.max_size && 1 <= w
                        <= self.pos_embed.max_size,
                    Err(GridError::TooSmall) => height < p || width < p,
                    Err(GridError::TooLarge) => height >= p && width >= p && (h
                        > self.pos_embed.max_size || w > self.pos_embed.max_size),
                }
            }),
    {
        let p: usize = self.pos_embed.patch_size;
        if height < p || width < p {
            return Err(GridError::TooSmall);
        }
        let h: usize = height / p;
        let w: usize = width / p;
        proof {
            assert(height as int / p as int >= 1) by (nonlinear_arith)
                requires
                    height >= p,
                    p >= 1,
            ;
            assert(width as int / p as int >= 1) by (nonlinear_arith)
                requires
                    width >= p,
                    p >= 1,
            ;
        }
        if h > self.pos_embed.max_size || w > self.pos_embed.max_size {
            return Err(GridError::TooLarge);
        }
        Ok((h, w))
    }
}

impl PatchEmbed {
    /// The positional table row of token `(y, x)` of an `h` by `w` grid: the grid is the centre of
    /// the table.
    pub open spec fn row(self, h: int, w: int, y: int, x: int) -> int {
        ((self.max_size - h) / 2 + y) * self.max_size + (self.max_size - w) / 2 + x
    }

    /// The positional table rows of an `h` by `w` token grid, in token order.
    pub fn cropped_pos_embed(&self, h: usize, w: usize) -> (r: Vec<usize>)
        requires
            h <= self.max_size,
            w <= self.max_size,
            self.max_size * self.max_size <= usize::MAX,
        ensures
            r@ == Seq::new(
                (h * w) as nat,
                |t: int| self.row(h as int, w as int, t / w as int, t % w as int) as usize,
            ),
    {
        let top: usize = (self.max_size - h) / 2;
        let left: usize = (self.max_size - w) / 2;
        let ghost max = self.max_size as int;
        let ghost want = |t: int| self.row(h as int, w as int, t / w as int, t % w as int) as usize;
        let mut out: Vec<usize> = Vec::new();
        let mut y: usize = 0;
        proof {
            assert(0 * w as int == 0);
        }
        while y < h
            invariant
                y <= h,
                h <= self.max_size,
                w <= self.max_size,
                max == self.max_size,
                max * max <= usize::MAX,
                top == (self.max_size - h) / 2,
                left == (self.max_size - w) / 2,
                want == (|t: int|
                    self.row(h as int, w as int, t / w as int, t % w as int) as usize),
                y * w >= 0,
                out@ == Seq::new((y * w) as nat, want),
            decreases h - y,
        {
            let mut x: usize = 0;
            proof {
                assert((y + 1) * w == y * w + w) by (nonlinear_arith);
                lemma_row_bound(max, top + y, left as int, w as int);
            }
            while x < w
                invariant
                    x <= w,
                    y < h,
                    h <= self.max_size,
                    w <= self.max_size,
                    max == self.max_size,
                    max * max <= usize::MAX,
                    top == (self.max_size - h) / 2,
                    left == (self.max_size - w) / 2,
                    (top + y) * max + left + w <= max * max,
                    (top + y) * max >= 0,
                    want == (|t: int|
                        self.row(h as int, w as int, t / w as int, t % w as int) as usize),
                    y * w >= 0,
                    out@ == Seq::new((y * w + x) as nat, want),
                decreases w - x,
            {
                proof {
                    lemma_fundamental_div_mod_converse(
                        y * w + x,
                        w as int,
                        y as int,
                        x as int,
                    );
                }
                let row: usize = (top + y) * self.max_size + left + x;
                out.push(row);
                proof {
                    assert(want(y * w + x) == row);
                    assert(out@ =~= Seq::new((y * w + x + 1) as nat, want));
                }
                x += 1;
            }
            y += 1;
        }
        out
    }
}

proof fn lemma_row_bound(max: int, row: int, left: int, w: int)
    requires
        0 <= row < max,
        0 <= left,
        left + w <= max,
    ensures
        row * max + left + w <= max * max,
        row * max >= 0,
{
    assert(row * max + max <= max * max) by (nonlinear_arith)
        requires
            0 <= row,
            row + 1 <= max,
    ;
    assert(row * max >= 0) by (nonlinear_arith)
        requires
            row >= 0,
            max >= 0,
    ;
}

/// Every positional row of a grid that fits the table is a row of the table, and two tokens have
/// different ones.
pub proof fn law_crop_is_inside_the_table(
    p: PatchEmbed,
    h: int,
    w: int,
    y: int,
    x: int,
    y2: int,
    x2: int,
)
    requires
        0 <= y < h <= p.max_size,
        0 <= x < w <= p.max_size,
        0 <= y2 < h,
        0 <= x2 < w,
    ensures
        0 <= p.row(h, w, y, x) < p.max_size * p.max_size,
        p.row(h, w, y, x) == p.row(h, w, y2, x2) ==> y == y2 && x == x2,
{
    let max = p.max_size as int;
    let top = (max - h) / 2;
    let left = (max - w) / 2;
    lemma_row_bound(max, top + y, left, w);
    lemma_row_bound(max, top + y2, left, w);
    lemma_fundamental_div_mod_converse(p.row(h, w, y, x), max, top + y, left + x);
    lemma_fundamental_div_mod_converse(p.row(h, w, y2, x2), max, top + y2, left + x2);
}

impl Modulation {
    /// The slices that a sublayer uses.
    pub open spec fn slices(self) -> Seq<usize> {
        seq![self.shift, self.scale] + match self.gate {
            Some(g) => seq![g],
            None => Seq::empty(),
        }
    }
}

/// The slices of an optional sublayer.
pub open spec fn opt_slices(m: Option<Modulation>) -> Seq<usize> {
    match m {
        Some(m) => m.slices(),
        None => Seq::empty(),
    }
}

impl BlockModulation {
    /// The slices of the image modulation that a block uses.
    pub open spec fn image_slices(self) -> Seq<usize> {
        self.image_attention.slices() + self.image_mlp.slices() + opt_slices(self.dual_attention)
    }

    /// The slices of the text modulation that a block uses.
    pub open spec fn text_slices(self) -> Seq<usize> {
        self.text_attention.slices() + opt_slices(self.text_mlp)
    }
}

/// `s` holds every number below `n`, each once.
pub open spec fn is_all_below(s: Seq<usize>, n: usize) -> bool {
    s.len() == n && s.no_duplicates() && forall|i: int| 0 <= i < s.len() ==> #[trigger] s[i] < n
}

/// Every slice of a block's modulation layers is used, and none twice.
pub proof fn law_modulation_uses_every_slice(cfg: &Sd3Config, pre_only: bool, dual: bool)
    ensures
        ({
            let b = JointBlock::of(cfg, pre_only, dual);
            let m = b.modulated();
            &&& is_all_below(m.image_slices(), b.norm1.n_chunks)
            &&& is_all_below(m.text_slices(), b.norm1_context.n_chunks)
            &&& m.dual_attention is Some <==> dual
            &&& m.text_mlp is None <==> pre_only
        }),
{
    let m = JointBlock::of(cfg, pre_only, dual).modulated();
    if dual {
        assert(m.image_slices() =~= seq![0usize, 1, 2, 3, 4, 5, 6, 7, 8]);
    } else {
        assert(m.image_slices() =~= seq![0usize, 1, 2, 3, 4, 5]);
    }
    if pre_only {
        assert(m.text_slices() =~= seq![1usize, 0]);
    } else {
        assert(m.text_slices() =~= seq![0usize, 1, 2, 3, 4, 5]);
    }
}

/// Every projection of a published geometry is made of whole blocks, so that quantizing it works.
pub proof fn law_presets_can_be_quantized(v: Variant, cfg: &Sd3Config, t: &Sd3Transformer)
    requires
        v.has_config(cfg),
        t.built(cfg),
    ensures
        t.fits(),
{
    lemma_presets_expand(v, cfg);
}

/// Quantizing keeps every layer's parameters, and a second time changes nothing.
pub proof fn law_quantize_keeps_the_block(b: JointBlock, first: Quant, second: Quant)
    ensures
        b.quantized(first).quantized_params() == b.quantized_params(),
        b.quantized(first).dense_params() == b.dense_params(),
        b.quantized(first).fits(),
        b.quantized(first).quantized(second) == b.quantized(first),
{
    lemma_attention_is_kept(b.attn, first, second);
    lemma_forward_is_kept(b.ff, first, second);
    if let Some(a) = b.attn2 {
        lemma_dual_is_kept(a, first, second);
    }
    if let Some(f) = b.ff_context {
        lemma_forward_is_kept(f, first, second);
    }
}

proof fn lemma_attention_is_kept(a: JointAttention, first: Quant, second: Quant)
    ensures
        a.quantized(first).params() == a.params(),
        a.quantized(first).fits(),
        a.quantized(first).quantized(second) == a.quantized(first),
{
    law_quantize_is_idempotent(a.to_q, first, second);
    law_quantize_is_idempotent(a.to_k, first, second);
    law_quantize_is_idempotent(a.to_v, first, second);
    law_quantize_is_idempotent(a.to_out, first, second);
    law_quantize_is_idempotent(a.add_q, first, second);
    law_quantize_is_idempotent(a.add_k, first, second);
    law_quantize_is_idempotent(a.add_v, first, second);
    if let Some(q) = a.to_add_out {
        law_quantize_is_idempotent(q, first, second);
    }
}

proof fn lemma_dual_is_kept(a: SelfAttention, first: Quant, second: Quant)
    ensures
        a.quantized(first).params() == a.params(),
        a.quantized(first).fits(),
        a.quantized(first).quantized(second) == a.quantized(first),
{
    law_quantize_is_idempotent(a.to_q, first, second);
    law_quantize_is_idempotent(a.to_k, first, second);
    law_quantize_is_idempotent(a.to_v, first, second);
    law_quantize_is_idempotent(a.to_out, first, second);
}

proof fn lemma_forward_is_kept(f: FeedForward, first: Quant, second: Quant)
    ensures
        f.quantized(first).params() == f.params(),
        f.quantized(first).fits(),
        f.quantized(first).quantized(second) == f.quantized(first),
{
    law_quantize_is_idempotent(f.proj, first, second);
    law_quantize_is_idempotent(f.out, first, second);
}

/// Where an element of a latent of `h` by `w` patches comes from in the tokens: its patch's token,
/// and its place in the patch, channel last.
pub open spec fn patch_source(k: int, h: int, w: int, p: int, c: int) -> int {
    let (big_h, big_w) = (h * p, w * p);
    let x = k % big_w;
    let y = (k / big_w) % big_h;
    let ch = k / big_w / big_h;
    (((y / p) * w + x / p) * (p * p) + (y % p) * p + x % p) * c + ch
}

proof fn lemma_patch_source(k: int, h: int, w: int, p: int, c: int)
    requires
        0 < p,
        0 < h,
        0 < w,
        0 < c,
        0 <= k < c * ((h * p) * (w * p)),
    ensures
        ({
            let (big_h, big_w) = (h * p, w * p);
            let x = k % big_w;
            let y = (k / big_w) % big_h;
            let ch = k / big_w / big_h;
            &&& 0 < big_h && 0 < big_w
            &&& 0 <= x < big_w && 0 <= y < big_h && 0 <= ch < c
            &&& 0 <= x / p < w && 0 <= y / p < h
            &&& 0 <= (y / p) * w + x / p < h * w
            &&& 0 <= (y % p) * p + x % p < p * p
            &&& 0 <= ((y / p) * w + x / p) * (p * p) + (y % p) * p + x % p < (h * w) * (p * p)
            &&& 0 <= patch_source(k, h, w, p, c) < ((h * w) * (p * p)) * c
        }),
{
    let big_h = h * p;
    let big_w = w * p;
    assert(big_h > 0 && big_w > 0) by (nonlinear_arith)
        requires
            big_h == h * p,
            big_w == w * p,
            h > 0,
            w > 0,
            p > 0,
    ;
    let x = k % big_w;
    let q = k / big_w;
    let y = q % big_h;
    let ch = q / big_h;
    vstd::arithmetic::div_mod::lemma_fundamental_div_mod(k, big_w);
    vstd::arithmetic::div_mod::lemma_fundamental_div_mod(q, big_h);
    vstd::arithmetic::div_mod::lemma_div_pos_is_pos(k, big_w);
    assert(q < c * big_h) by (nonlinear_arith)
        requires
            k == big_w * q + x,
            0 <= x,
            k < c * (big_h * big_w),
            big_w > 0,
    ;
    vstd::arithmetic::div_mod::lemma_div_pos_is_pos(q, big_h);
    assert(ch < c) by (nonlinear_arith)
        requires
            q == big_h * ch + y,
            0 <= y,
            q < c * big_h,
            big_h > 0,
    ;
    lemma_small(x, w, p);
    lemma_small(y, h, p);
    let ty = y / p;
    let tx = x / p;
    let token = ty * w + tx;
    lemma_pair(ty, h, tx, w);
    let fy = y % p;
    let fx = x % p;
    lemma_pair(fy, p, fx, p);
    let feature = fy * p + fx;
    lemma_pair(token, h * w, feature, p * p);
    lemma_pair(token * (p * p) + feature, (h * w) * (p * p), ch, c);
}

/// The parts of `x < n * p`.
proof fn lemma_small(x: int, n: int, p: int)
    requires
        0 < p,
        0 <= x < n * p,
    ensures
        0 <= x / p < n,
        0 <= x % p < p,
{
    vstd::arithmetic::div_mod::lemma_fundamental_div_mod(x, p);
    vstd::arithmetic::div_mod::lemma_div_pos_is_pos(x, p);
    assert(x / p < n) by (nonlinear_arith)
        requires
            x == p * (x / p) + x % p,
            0 <= x % p,
            x < n * p,
            p > 0,
    ;
}

/// A pair below `(n, m)` numbers below `n * m`.
proof fn lemma_pair(a: int, n: int, b: int, m: int)
    requires
        0 <= a < n,
        0 <= b < m,
    ensures
        0 <= a * m + b < n * m,
{
    assert(a * m + m <= n * m) by (nonlinear_arith)
        requires
            a + 1 <= n,
            m >= 0,
    ;
    assert(a * m >= 0) by (nonlinear_arith)
        requires
            a >= 0,
            m >= 0,
    ;
}

/// Turns the tokens of an `h` by `w` patch grid back into a latent of `c` channels: the token of each
/// patch holds its `p * p` places, and each place its channels.
pub fn unpatchify<T: Copy>(x: &Vec<T>, h: usize, w: usize, p: usize, c: usize) -> (r: Vec<T>)
    requires
        0 < h,
        0 < w,
        0 < p,
        0 < c,
        x.len() == ((h * w) * (p * p)) * c,
    ensures
        r@ == Seq::new(
            (c * ((h * p) * (w * p))) as nat,
            |k: int| x[patch_source(k, h as int, w as int, p as int, c as int)],
        ),
        r.len() == x.len(),
{
    proof {
        assert(((h * w) * (p * p)) * c == c * ((h * p) * (w * p))) by (nonlinear_arith);
    }
    let n: usize = x.len();
    proof {
        lemma_factor_bounds(h as int, w as int, p as int, c as int, n as int);
    }
    let big_w: usize = w * p;
    let big_h: usize = h * p;
    let pp: usize = p * p;
    let mut out: Vec<T> = Vec::new();
    let mut k: usize = 0;
    while k < n
        invariant
            k <= n,
            n == x.len(),
            0 < h,
            0 < w,
            0 < p,
            0 < c,
            x.len() == ((h * w) * (p * p)) * c,
            x.len() == c * ((h * p) * (w * p)),
            big_w == w * p,
            big_h == h * p,
            pp == p * p,
            big_w > 0,
            big_h > 0,
            out@ == Seq::new(
                k as nat,
                |k: int| x[patch_source(k, h as int, w as int, p as int, c as int)],
            ),
        decreases n - k,
    {
        proof {
            lemma_patch_source(k as int, h as int, w as int, p as int, c as int);
        }
        let col: usize = k % big_w;
        let row: usize = (k / big_w) % big_h;
        let ch: usize = k / big_w / big_h;
        let ghost token = (row as int / p as int) * w + col as int / p as int;
        let ghost feature = (row as int % p as int) * p + col as int % p as int;
        proof {
            lemma_index_steps(token, feature, ch as int, pp as int, c as int, n as int);
            assert((row as int / p as int) * w <= token);
            assert((row as int % p as int) * p <= feature);
            assert(0 <= (row as int / p as int) * w) by (nonlinear_arith)
                requires
                    row as int / p as int >= 0,
                    w > 0,
            ;
            assert(0 <= (row as int % p as int) * p) by (nonlinear_arith)
                requires
                    row as int % p as int >= 0,
                    p > 0,
            ;
        }
        let t: usize = (row / p) * w + col / p;
        let f: usize = (row % p) * p + col % p;
        let i: usize = (t * pp + f) * c + ch;
        out.push(x[i]);
        k += 1;
    }
    out
}

/// Every place of the tokens goes to one place of the latent: two places of the latent never come
/// from the same one, and every source is in range.
pub proof fn law_unpatchify_is_a_permutation(k: int, k2: int, h: int, w: int, p: int, c: int)
    requires
        0 < h,
        0 < w,
        0 < p,
        0 < c,
        0 <= k < c * ((h * p) * (w * p)),
        0 <= k2 < c * ((h * p) * (w * p)),
    ensures
        0 <= patch_source(k, h, w, p, c) < c * ((h * p) * (w * p)),
        patch_source(k, h, w, p, c) == patch_source(k2, h, w, p, c) ==> k == k2,
{
    assert(((h * w) * (p * p)) * c == c * ((h * p) * (w * p))) by (nonlinear_arith);
    lemma_patch_source(k, h, w, p, c);
    lemma_patch_source(k2, h, w, p, c);
    let (big_h, big_w) = (h * p, w * p);
    if patch_source(k, h, w, p, c) == patch_source(k2, h, w, p, c) {
        let (x, y, ch) = (k % big_w, (k / big_w) % big_h, k / big_w / big_h);
        let (x2, y2, ch2) = (k2 % big_w, (k2 / big_w) % big_h, k2 / big_w / big_h);
        let (t, f) = ((y / p) * w + x / p, (y % p) * p + x % p);
        let (t2, f2) = ((y2 / p) * w + x2 / p, (y2 % p) * p + x2 % p);
        lemma_unpair(t * (p * p) + f, ch, t2 * (p * p) + f2, ch2, c);
        lemma_unpair(t, f, t2, f2, p * p);
        vstd::arithmetic::div_mod::lemma_fundamental_div_mod(x, p);
        vstd::arithmetic::div_mod::lemma_fundamental_div_mod(x2, p);
        vstd::arithmetic::div_mod::lemma_fundamental_div_mod(y, p);
        vstd::arithmetic::div_mod::lemma_fundamental_div_mod(y2, p);
        lemma_unpair(y / p, x / p, y2 / p, x2 / p, w);
        lemma_unpair(y % p, x % p, y2 % p, x2 % p, p);
        vstd::arithmetic::div_mod::lemma_fundamental_div_mod(k, big_w);
        vstd::arithmetic::div_mod::lemma_fundamental_div_mod(k2, big_w);
        vstd::arithmetic::div_mod::lemma_fundamental_div_mod(k / big_w, big_h);
        vstd::arithmetic::div_mod::lemma_fundamental_div_mod(k2 / big_w, big_h);
    }
}

/// A number below `n * m` has one pair.
proof fn lemma_unpair(a: int, b: int, a2: int, b2: int, m: int)
    requires
        0 <= b < m,
        0 <= b2 < m,
        a * m + b == a2 * m + b2,
    ensures
        a == a2,
        b == b2,
{
    lemma_fundamental_div_mod_converse(a * m + b, m, a, b);
    lemma_fundamental_div_mod_converse(a2 * m + b2, m, a2, b2);
}

/// A latent that is a whole number of patches on each side comes back with its own shape.
pub proof fn law_whole_patches_keep_the_shape(height: int, width: int, p: int, c: int)
    requires
        p > 0,
        height >= 0,
        width >= 0,
        height % p == 0,
        width % p == 0,
    ensures
        (height / p) * p == height,
        (width / p) * p == width,
        c * (((height / p) * p) * ((width / p) * p)) == c * (height * width),
{
    vstd::arithmetic::div_mod::lemma_fundamental_div_mod(height, p);
    vstd::arithmetic::div_mod::lemma_fundamental_div_mod(width, p);
    let (h, w) = (height / p, width / p);
    assert(p * h == h * p && p * w == w * p) by (nonlinear_arith);
}

/// No factor of a positive product exceeds it.
proof fn lemma_factor_bounds(h: int, w: int, p: int, c: int, n: int)
    requires
        0 < h,
        0 < w,
        0 < p,
        0 < c,
        n == ((h * w) * (p * p)) * c,
    ensures
        0 < w * p <= n,
        0 < h * p <= n,
        0 < p * p <= n,
{
    let hw = h * w;
    let pp = p * p;
    assert(hw >= 1 && pp >= 1 && hw >= h && hw >= w && pp >= p) by (nonlinear_arith)
        requires
            hw == h * w,
            pp == p * p,
            h > 0,
            w > 0,
            p > 0,
    ;
    let m = hw * pp;
    assert(m >= pp) by (nonlinear_arith)
        requires
            m == hw * pp,
            hw >= 1,
            pp >= 1,
    ;
    assert(m * c >= m) by (nonlinear_arith)
        requires
            m >= 1,
            c >= 1,
    ;
    assert(w * p <= m && h * p <= m && 0 < w * p && 0 < h * p) by (nonlinear_arith)
        requires
            m == hw * pp,
            hw >= w,
            hw >= h,
            pp >= p,
            w > 0,
            h > 0,
            p > 0,
    ;
}

/// The steps of an index computation stay below its bound.
proof fn lemma_index_steps(token: int, feature: int, ch: int, pp: int, c: int, n: int)
    requires
        0 <= token,
        0 <= feature < pp,
        0 <= ch < c,
        0 < pp,
        (token * pp + feature) * c + ch < n,
    ensures
        token <= n,
        feature <= n,
        0 <= token * pp <= n,
        token * pp + feature <= n,
        0 <= (token * pp + feature) * c <= n,
{
    let f = token * pp + feature;
    assert(token * pp >= token) by (nonlinear_arith)
        requires
            token >= 0,
            pp >= 1,
    ;
    assert(f * c >= f) by (nonlinear_arith)
        requires
            f >= 0,
            c >= 1,
    ;
}

/// The slices of a sublayer are three in a row: its shift, its scale and its gate.
pub open spec fn in_order_from(m: Modulation, first: int) -> bool {
    m.shift == first && m.scale == m.shift + 1 && (m.gate matches Some(g) && g == m.scale + 1)
}

/// The image modulation goes through its slices in order, shift, scale and gate of the attention, then
/// of the feed-forward, then of a second attention. The text stream uses its own slices in the same
/// way, except where its output is dropped: there the scale comes first, then the shift, and nothing is
/// gated.
pub proof fn law_modulation_is_in_order(b: JointBlock)
    ensures
        ({
            let m = b.modulated();
            &&& in_order_from(m.image_attention, 0)
            &&& in_order_from(m.image_mlp, 3)
            &&& match b.attn2 {
                Some(_) => m.dual_attention matches Some(d) && in_order_from(d, 6),
                None => m.dual_attention is None,
            }
            &&& if b.context_pre_only {
                m.text_attention.scale == 0 && m.text_attention.shift == 1
                    && m.text_attention.gate is None && m.text_mlp is None
            } else {
                &&& in_order_from(m.text_attention, 0)
                &&& m.text_mlp matches Some(t) && in_order_from(t, 3)
            }
        }),
{
}

/// Where a step stands in a pass: the attention feeds every residual, and a stream's feed-forward reads
/// what its residual left.
pub open spec fn step_rank(s: BlockStep) -> int {
    match s {
        BlockStep::JointAttention => 0,
        BlockStep::DualResidual => 1,
        BlockStep::ImageResidual => 2,
        BlockStep::ImageFeedForward => 3,
        BlockStep::TextResidual => 4,
        BlockStep::TextFeedForward => 5,
    }
}

/// A pass attends and then updates the image stream, by the second attention where the block has one,
/// and the text stream where its output is kept; each in its turn, and once.
pub proof fn law_block_steps_in_turn(b: JointBlock)
    ensures
        b.steps().contains(BlockStep::JointAttention),
        b.steps().contains(BlockStep::ImageResidual),
        b.steps().contains(BlockStep::ImageFeedForward),
        b.steps().contains(BlockStep::DualResidual) <==> b.attn2 is Some,
        b.steps().contains(BlockStep::TextResidual) <==> !b.context_pre_only,
        b.steps().contains(BlockStep::TextFeedForward) <==> !b.context_pre_only,
        forall|i: int, j: int|
            0 <= i < j < b.steps().len() ==> step_rank(#[trigger] b.steps()[i]) < step_rank(
                #[trigger] b.steps()[j],
            ),
{
    let s = b.steps();
    let d: int = if b.attn2 is Some {
        1
    } else {
        0
    };
    assert(s[0] == BlockStep::JointAttention);
    assert(s[d + 1] == BlockStep::ImageResidual);
    assert(s[d + 2] == BlockStep::ImageFeedForward);
    if b.attn2 is Some {
        assert(s[1] == BlockStep::DualResidual);
    }
    if !b.context_pre_only {
        assert(s[d + 3] == BlockStep::TextResidual);
        assert(s[d + 4] == BlockStep::TextFeedForward);
    }
}

/// The widths of a block chain: every projection takes what the one before it gives, the modulation
/// layers give whole slices of the inner width, as many as the block modulates with, and heads are
/// normalised at the head's width where the geometry says so.
pub proof fn law_block_widths_chain(cfg: &Sd3Config, pre_only: bool, dual: bool)
    requires
        widths_fit(cfg),
    ensures
        ({
            let b = JointBlock::of(cfg, pre_only, dual);
            let d = cfg.inner_dim;
            let through = |l: QLinear| l.in_dim == d && l.out_dim == d && l.bias && l.weight
                == Weight::Dense;
            &&& through(b.attn.to_q) && through(b.attn.to_k) && through(b.attn.to_v)
            &&& through(b.attn.to_out) && through(b.attn.add_q) && through(b.attn.add_k)
            &&& through(b.attn.add_v)
            &&& if pre_only {
                b.attn.to_add_out is None && b.ff_context is None
            } else {
                &&& b.attn.to_add_out matches Some(l) && through(l)
                &&& b.ff_context == Some(b.ff)
            }
            &&& b.attn.heads == cfg.num_heads && b.attn.head_dim == cfg.head_dim
            &&& if cfg.qk_norm {
                b.attn.norms matches Some(n) && n.dim == b.attn.head_dim
            } else {
                b.attn.norms is None
            }
            &&& if dual {
                &&& b.attn2 matches Some(a)
                &&& through(a.to_q) && through(a.to_k) && through(a.to_v) && through(a.to_out)
                &&& a.heads == b.attn.heads && a.head_dim == b.attn.head_dim && a.norms
                    == b.attn.norms
            } else {
                b.attn2 is None
            }
            &&& b.ff.proj.in_dim == d && b.ff.out.out_dim == d && b.ff.proj.out_dim
                == b.ff.out.in_dim && b.ff.out.in_dim == cfg.hidden()
            &&& b.ff.proj.bias && b.ff.out.bias
            &&& b.norm1.linear.in_dim == d && b.norm1_context.linear.in_dim == d
            &&& b.norm1.linear.out_dim == b.modulated().image_slices().len() * d
            &&& b.norm1_context.linear.out_dim == b.modulated().text_slices().len() * d
            &&& b.norm1.n_chunks == b.modulated().image_slices().len()
            &&& b.norm1_context.n_chunks == b.modulated().text_slices().len()
            &&& b.context_pre_only == pre_only
        }),
{
}

/// A transformer goes from patches to patches: its blocks are as many as the geometry has, the listed
/// ones dual and the last without a text output where the geometry says so; the embedders end in the
/// inner width, and the output projection gives every feature of a patch.
pub proof fn law_transformer_follows_its_geometry(t: &Sd3Transformer, cfg: &Sd3Config)
    requires
        t.built(cfg),
    ensures
        t.blocks.len() == cfg.num_layers,
        forall|i: int|
            0 <= i < cfg.num_layers ==> {
                let b = #[trigger] t.blocks[i];
                &&& b.attn2 is Some <==> cfg.dual_attention_layers@.contains(i as usize)
                &&& b.context_pre_only <==> (cfg.context_pre_only_last && i + 1 == cfg.num_layers)
            },
        t.context_embedder.in_dim == cfg.joint_attention_dim,
        t.context_embedder.out_dim == cfg.inner_dim,
        t.time_text_embed.timestep.linear_1.in_dim == cfg.timestep_channels,
        t.time_text_embed.text.linear_1.in_dim == cfg.pooled_dim,
        ({
            let e = t.time_text_embed;
            &&& e.timestep.linear_1.out_dim == e.timestep.linear_2.in_dim
            &&& e.timestep.linear_2.out_dim == cfg.inner_dim
            &&& e.text.linear_1.out_dim == e.text.linear_2.in_dim
            &&& e.text.linear_2.out_dim == cfg.inner_dim
        }),
        t.proj_out.in_dim == cfg.inner_dim,
        t.proj_out.out_dim == t.pos_embed.patch_size * t.pos_embed.patch_size
            * t.pos_embed.in_channels,
        t.pos_embed.inner == cfg.inner_dim && t.pos_embed.patch_size == cfg.patch_size
            && t.pos_embed.in_channels == cfg.in_channels && t.pos_embed.max_size
            == cfg.pos_embed_max_size,
        t.norm_out.linear.in_dim == cfg.inner_dim && t.norm_out.linear.out_dim == cfg.inner_dim
            + cfg.inner_dim,
{
    assert forall|i: int| 0 <= i < cfg.num_layers implies {
        let b = #[trigger] t.blocks[i];
        &&& b.attn2 is Some <==> cfg.dual_attention_layers@.contains(i as usize)
        &&& b.context_pre_only <==> (cfg.context_pre_only_last && i + 1 == cfg.num_layers)
    } by {
        assert(t.blocks@[i] == JointBlock::of(cfg, cfg.pre_only(i), cfg.dual(i)));
        let v = cfg.dual_attention_layers@;
        if v.contains(i as usize) {
            let k = choose|k: int| 0 <= k < v.len() && v[k] == i as usize;
            assert(cfg.dual_attention_layers[k] == i);
        }
        if cfg.dual(i) {
            let k = choose|k: int|
                0 <= k < cfg.dual_attention_layers.len() && #[trigger] cfg.dual_attention_layers[k]
                    == i;
            assert(v[k] == i as usize);
        }
    }
}

/// Every projection of the block holds blocks of the level.
pub open spec fn all_blocks(b: JointBlock, quant: Quant) -> bool {
    let at = |l: QLinear| l.weight == Weight::Blocks(quant);
    &&& at(b.attn.to_q) && at(b.attn.to_k) && at(b.attn.to_v) && at(b.attn.to_out)
    &&& at(b.attn.add_q) && at(b.attn.add_k) && at(b.attn.add_v)
    &&& (b.attn.to_add_out matches Some(l) ==> at(l))
    &&& (b.attn2 matches Some(a) ==> at(a.to_q) && at(a.to_k) && at(a.to_v) && at(a.to_out))
    &&& at(b.ff.proj) && at(b.ff.out)
    &&& (b.ff_context matches Some(f) ==> at(f.proj) && at(f.out))
}

/// Quantizing a fresh block folds every one of its projections at the level asked for. What the block
/// computes stays: the same layers are there, their widths and their biases are kept, and the
/// modulation layers are left alone.
pub proof fn law_quantize_folds_every_projection(
    cfg: &Sd3Config,
    pre_only: bool,
    dual: bool,
    quant: Quant,
)
    ensures
        ({
            let b = JointBlock::of(cfg, pre_only, dual);
            let q = b.quantized(quant);
            let kept = |x: QLinear, y: QLinear| x.in_dim == y.in_dim && x.out_dim == y.out_dim
                && x.bias == y.bias;
            &&& all_blocks(q, quant)
            &&& q.norm1 == b.norm1 && q.norm1_context == b.norm1_context
            &&& q.context_pre_only == b.context_pre_only
            &&& q.attn2 is Some <==> b.attn2 is Some
            &&& q.ff_context is Some <==> b.ff_context is Some
            &&& q.attn.to_add_out is Some <==> b.attn.to_add_out is Some
            &&& kept(q.attn.to_q, b.attn.to_q) && kept(q.attn.to_k, b.attn.to_k)
            &&& kept(q.attn.to_v, b.attn.to_v) && kept(q.attn.to_out, b.attn.to_out)
            &&& kept(q.attn.add_q, b.attn.add_q) && kept(q.attn.add_k, b.attn.add_k)
            &&& kept(q.attn.add_v, b.attn.add_v)
            &&& kept(q.ff.proj, b.ff.proj) && kept(q.ff.out, b.ff.out)
            &&& q.attn.norms == b.attn.norms && q.attn.heads == b.attn.heads && q.attn.head_dim
                == b.attn.head_dim
        }),
{
}

/// The grid of tokens lies in the middle of the positional table: the next token of a row has the next
/// table row, the token below one has the row a table width on, and what is left over above and below,
/// and left and right, differs by one at most, with less of it above and to the left.
pub proof fn law_crop_is_centred(p: PatchEmbed, h: int, w: int, y: int, x: int)
    requires
        0 <= y < h <= p.max_size,
        0 <= x < w <= p.max_size,
    ensures
        p.row(h, w, y, x + 1) == p.row(h, w, y, x) + 1,
        p.row(h, w, y + 1, x) == p.row(h, w, y, x) + p.max_size,
        ({
            let top = p.row(h, w, 0, 0) / p.max_size as int;
            let left = p.row(h, w, 0, 0) % p.max_size as int;
            let below = p.max_size - h - top;
            let right = p.max_size - w - left;
            0 <= top <= below <= top + 1 && 0 <= left <= right <= left + 1
        }),
        h == p.max_size && w == p.max_size ==> p.row(h, w, y, x) == y * p.max_size + x,
{
    let max = p.max_size as int;
    let top = (max - h) / 2;
    let left = (max - w) / 2;
    lemma_fundamental_div_mod_converse(p.row(h, w, 0, 0), max, top, left);
    assert((top + y + 1) * max == (top + y) * max + max) by (nonlinear_arith);
}

/// A patch comes back where it was: place `(fy, fx)` of the patch at row `ty` and column `tx` of the
/// grid, in channel `ch`, is row `ty * p + fy` and column `tx * p + fx` of that channel's plane, and is
/// read from that patch's token, channel last.
pub proof fn law_patches_come_back_in_place(
    h: int,
    w: int,
    p: int,
    c: int,
    ty: int,
    tx: int,
    fy: int,
    fx: int,
    ch: int,
)
    requires
        0 < p,
        0 <= ty < h,
        0 <= tx < w,
        0 <= fy < p,
        0 <= fx < p,
        0 <= ch < c,
    ensures
        patch_source(
            (ch * (h * p) + (ty * p + fy)) * (w * p) + (tx * p + fx),
            h,
            w,
            p,
            c,
        ) == ((ty * w + tx) * (p * p) + (fy * p + fx)) * c + ch,
{
    let (big_h, big_w) = (h * p, w * p);
    let (y, x) = (ty * p + fy, tx * p + fx);
    lemma_pair(ty, h, fy, p);
    lemma_pair(tx, w, fx, p);
    let plane = ch * big_h + y;
    let k = plane * big_w + x;
    lemma_fundamental_div_mod_converse(k, big_w, plane, x);
    lemma_fundamental_div_mod_converse(plane, big_h, ch, y);
    lemma_fundamental_div_mod_converse(y, p, ty, fy);
    lemma_fundamental_div_mod_converse(x, p, tx, fx);
}

/// A projection is reported where it does not fold: dense, with rows that are not whole blocks; and by
/// the width that does not fit. Of two reports the first counts.
pub proof fn law_reports_are_of_what_does_not_fold(
    l: QLinear,
    q: int,
    a: Option<PartialBlock>,
    b: Option<PartialBlock>,
)
    ensures
        l.in_dim == 32 * q ==> partial(l) is None,
        l.weight != Weight::Dense ==> partial(l) is None,
        partial(l) matches Some(e) ==> e.in_dim == l.in_dim && l.weight == Weight::Dense && l.in_dim % 32
            != 0,
        l.weight == Weight::Dense && l.in_dim % 32 != 0 ==> partial(l) is Some,
        a is Some ==> earlier(a, b) == a,
        a is None ==> earlier(a, b) == b,
{
}

/// Quantizing fails exactly where some projection does not fold: of a block, of the blocks from one on,
/// and of a transformer.
pub proof fn law_quantize_fails_where_something_does_not_fold(
    t: &Sd3Transformer,
    b: JointBlock,
    v: Seq<JointBlock>,
    i: int,
)
    requires
        0 <= i <= v.len(),
    ensures
        b.first_partial() is None <==> b.fits(),
        blocks_partial(v, i) is None <==> forall|k: int|
            i <= k < v.len() ==> (#[trigger] v[k]).fits(),
        t.first_partial() is None <==> t.fits(),
    decreases v.len() - i,
{
    lemma_blocks_partial(v, i);
    lemma_blocks_partial(t.blocks@, 0);
    assert(t.first_partial() is None <==> t.fits()) by {
        if t.first_partial() is None {
            assert forall|k: int| 0 <= k < t.blocks.len() implies (#[trigger] t.blocks[k]).fits() by {
                assert(t.blocks@[k].fits());
            }
        }
        if t.fits() {
            assert forall|k: int| 0 <= k < t.blocks@.len() implies (#[trigger] t.blocks@[k]).fits() by {
                assert(t.blocks[k].fits());
            }
        }
    }
}

proof fn lemma_blocks_partial(v: Seq<JointBlock>, i: int)
    requires
        0 <= i <= v.len(),
    ensures
        blocks_partial(v, i) is None <==> forall|k: int|
            i <= k < v.len() ==> (#[trigger] v[k]).fits(),
    decreases v.len() - i,
{
    if i < v.len() {
        lemma_blocks_partial(v, i + 1);
        assert(v[i].first_partial() is None <==> v[i].fits());
    }
}

} // verus!

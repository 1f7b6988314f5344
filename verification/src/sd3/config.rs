//! The SD3.5 geometry and its presets.
use crate::float::{lemma_four_times, scale_width, scaled_width, Real32, FOUR_BITS};
use vstd::arithmetic::power2::lemma2_to64;
use vstd::prelude::*;

verus! {

/// The geometry of an SD3.5 transformer and its conditioning.
#[derive(Clone, Debug)]
pub struct Sd3Config {
    /// The latent channels, which are also the transformer's.
    pub in_channels: usize,
    /// The patch size on each spatial axis.
    pub patch_size: usize,
    /// The side of the learned positional table, in patches.
    pub pos_embed_max_size: usize,
    /// The joint attention width.
    pub inner_dim: usize,
    pub num_heads: usize,
    pub head_dim: usize,
    /// The number of joint blocks.
    pub num_layers: usize,
    /// The feed-forward expansion.
    pub mlp_ratio: Real32,
    /// Whether queries and keys are normalised for each head.
    pub qk_norm: bool,
    /// Whether the last joint block drops its text output.
    pub context_pre_only_last: bool,
    /// The width of the pooled text vector.
    pub pooled_dim: usize,
    /// The width of the joint context.
    pub joint_attention_dim: usize,
    pub clip_l_dim: usize,
    pub clip_g_dim: usize,
    /// The width of both CLIP contexts, before padding.
    pub clip_concat_dim: usize,
    pub clip_seq_len: usize,
    /// The T5 length; 77, 256 and 512 are in use.
    pub t5_seq_len: usize,
    pub t5_dim: usize,
    /// The width of the sinusoidal timestep embedding.
    pub timestep_channels: usize,
    /// The blocks that carry a second, image-only attention.
    pub dual_attention_layers: Vec<usize>,
}

impl Sd3Config {
    /// Block `i` carries a second, image-only attention.
    pub open spec fn dual(&self, i: int) -> bool {
        exists|k: int| 0 <= k < self.dual_attention_layers.len() && #[trigger] self.dual_attention_layers[k]
            == i
    }

    /// Block `i` drops its text output.
    pub open spec fn pre_only(&self, i: int) -> bool {
        self.context_pre_only_last && i == self.num_layers - 1
    }

    /// The joint context length: the CLIP tokens, then the T5 tokens.
    pub fn context_seq_len(&self) -> (r: usize)
        requires
            self.clip_seq_len + self.t5_seq_len <= usize::MAX,
        ensures
            r == self.clip_seq_len + self.t5_seq_len,
    {
        self.clip_seq_len + self.t5_seq_len
    }

    /// The features of one patch.
    pub open spec fn patch_features(&self) -> int {
        self.patch_size * self.patch_size * self.in_channels
    }

    /// The features of one patch: `patch_size^2 * in_channels`.
    pub fn patch_dim(&self) -> (r: usize)
        requires
            self.patch_size * self.patch_size <= usize::MAX,
            self.patch_features() <= usize::MAX,
        ensures
            r == self.patch_features(),
    {
        self.patch_size * self.patch_size * self.in_channels
    }

    /// The feed-forward width of a joint block.
    pub open spec fn hidden(&self) -> int {
        scaled_width(self.mlp_ratio, self.inner_dim as nat) as int
    }

    /// The feed-forward width of a joint block: the expansion times the inner width.
    pub fn ff_hidden(&self) -> (r: usize)
        ensures
            r == self.hidden(),
    {
        scale_width(self.mlp_ratio, self.inner_dim)
    }

    /// Whether block `i` carries a second, image-only attention.
    pub fn is_dual_block(&self, i: usize) -> (r: bool)
        ensures
            r == self.dual(i as int),
    {
        let mut k: usize = 0;
        while k < self.dual_attention_layers.len()
            invariant
                k <= self.dual_attention_layers.len(),
                forall|j: int| 0 <= j < k ==> #[trigger] self.dual_attention_layers[j] != i,
            decreases self.dual_attention_layers.len() - k,
        {
            if self.dual_attention_layers[k] == i {
                return true;
            }
            k += 1;
        }
        false
    }

    /// The conditioning of every preset: 768 and 1280 wide CLIP contexts of 77 tokens, padded to the
    /// 4096 of a 256-token T5.
    pub open spec fn stock_conditioning(&self) -> bool {
        &&& self.in_channels == 16 && self.patch_size == 2
        &&& self.head_dim == 64 && self.mlp_ratio.bits == FOUR_BITS
        &&& self.qk_norm && self.context_pre_only_last
        &&& self.pooled_dim == 2048 && self.joint_attention_dim == 4096
        &&& self.clip_l_dim == 768 && self.clip_g_dim == 1280 && self.clip_concat_dim == 2048
        &&& self.clip_seq_len == 77 && self.t5_seq_len == 256 && self.t5_dim == 4096
        &&& self.timestep_channels == 256
    }

    /// The Large preset: 38 blocks of width 2432.
    pub fn large() -> (r: Self)
        ensures
            r.stock_conditioning(),
            r.inner_dim == 2432 && r.num_heads == 38 && r.num_layers == 38,
            r.pos_embed_max_size == 192,
            r.dual_attention_layers@ == Seq::<usize>::empty(),
    {
        Sd3Config {
            in_channels: 16,
            patch_size: 2,
            pos_embed_max_size: 192,
            inner_dim: 2432,
            num_heads: 38,
            head_dim: 64,
            num_layers: 38,
            mlp_ratio: Real32 { bits: FOUR_BITS },
            qk_norm: true,
            context_pre_only_last: true,
            pooled_dim: 2048,
            joint_attention_dim: 4096,
            clip_l_dim: 768,
            clip_g_dim: 1280,
            clip_concat_dim: 2048,
            clip_seq_len: 77,
            t5_seq_len: 256,
            t5_dim: 4096,
            timestep_channels: 256,
            dual_attention_layers: Vec::new(),
        }
    }

    /// The Medium preset: 24 blocks of width 1536, the first 13 of them dual.
    pub fn medium() -> (r: Self)
        ensures
            r.stock_conditioning(),
            r.inner_dim == 1536 && r.num_heads == 24 && r.num_layers == 24,
            r.pos_embed_max_size == 384,
            r.dual_attention_layers@ == Seq::new(13, |i: int| i as usize),
    {
        let layers: Vec<usize> = vec![0, 1, 2, 3, 4, 5, 6, 7, 8, 9, 10, 11, 12];
        proof {
            assert(layers@ =~= Seq::new(13, |i: int| i as usize));
        }
        Sd3Config {
            in_channels: 16,
            patch_size: 2,
            pos_embed_max_size: 384,
            inner_dim: 1536,
            num_heads: 24,
            head_dim: 64,
            num_layers: 24,
            mlp_ratio: Real32 { bits: FOUR_BITS },
            qk_norm: true,
            context_pre_only_last: true,
            pooled_dim: 2048,
            joint_attention_dim: 4096,
            clip_l_dim: 768,
            clip_g_dim: 1280,
            clip_concat_dim: 2048,
            clip_seq_len: 77,
            t5_seq_len: 256,
            t5_dim: 4096,
            timestep_channels: 256,
            dual_attention_layers: layers,
        }
    }
}

/// The published variants.
#[derive(Clone, Copy, Debug, PartialEq, Eq, Structural)]
pub enum Variant {
    Large,
    /// Guidance-distilled, with the geometry of Large.
    LargeTurbo,
    Medium,
}

impl Variant {
    /// `c` is the geometry of the variant.
    pub open spec fn has_config(self, c: &Sd3Config) -> bool {
        &&& c.stock_conditioning()
        &&& match self {
            Variant::Large | Variant::LargeTurbo => c.inner_dim == 2432 && c.num_heads == 38
                && c.num_layers == 38 && c.pos_embed_max_size == 192 && c.dual_attention_layers@
                == Seq::<usize>::empty(),
            Variant::Medium => c.inner_dim == 1536 && c.num_heads == 24 && c.num_layers == 24
                && c.pos_embed_max_size == 384 && c.dual_attention_layers@ == Seq::new(
                13,
                |i: int| i as usize,
            ),
        }
    }

    /// The geometry of the variant.
    pub fn config(self) -> (r: Sd3Config)
        ensures
            self.has_config(&r),
    {
        match self {
            Variant::Large => Sd3Config::large(),
            Variant::LargeTurbo => Sd3Config::large(),
            Variant::Medium => Sd3Config::medium(),
        }
    }
}

/// The feed-forwards of every variant are four times as wide as its blocks.
pub proof fn lemma_presets_expand(v: Variant, c: &Sd3Config)
    requires
        v.has_config(c),
    ensures
        c.hidden() == 4 * c.inner_dim,
{
    lemma2_to64();
    lemma_four_times(c.inner_dim as nat);
    assert(c.mlp_ratio == (Real32 { bits: FOUR_BITS }));
}

/// The widths of every variant are consistent: heads make up the inner width, both pooled vectors
/// the pooled one, and the T5 width is the joint one.
pub proof fn law_presets_are_consistent(v: Variant, c: &Sd3Config)
    requires
        v.has_config(c),
    ensures
        c.inner_dim == c.num_heads * c.head_dim,
        c.clip_l_dim + c.clip_g_dim == c.pooled_dim,
        c.clip_l_dim + c.clip_g_dim == c.clip_concat_dim,
        c.clip_concat_dim <= c.joint_attention_dim,
        c.t5_dim == c.joint_attention_dim,
        c.inner_dim % 32 == 0 && c.hidden() % 32 == 0 && c.joint_attention_dim % 32 == 0,
        c.hidden() == 4 * c.inner_dim,
{
    lemma_presets_expand(v, c);
}

/// The first thirteen blocks of Medium are dual, and no others; no block of the others is. Turbo has the
/// geometry of Large.
pub proof fn law_medium_alone_is_dual(v: Variant, c: &Sd3Config, i: int)
    requires
        v.has_config(c),
    ensures
        v == Variant::Medium ==> (c.dual(i) <==> 0 <= i < 13),
        v != Variant::Medium ==> !c.dual(i),
        Variant::Large.has_config(c) <==> Variant::LargeTurbo.has_config(c),
        Variant::Medium.has_config(c) <==> v == Variant::Medium,
{
    if v == Variant::Medium && 0 <= i < 13 {
        assert(c.dual_attention_layers[i] == i);
    }
}

/// One block at most drops its text output: the last, behind which no block would read it.
pub proof fn law_last_block_drops_its_text(c: &Sd3Config, i: int, j: int)
    ensures
        c.pre_only(i) && c.pre_only(j) ==> i == j,
        c.pre_only(i) ==> i + 1 == c.num_layers,
        c.context_pre_only_last && c.num_layers > 0 ==> c.pre_only(c.num_layers - 1),
        !c.context_pre_only_last ==> !c.pre_only(i),
{
}

/// A patch has the latent's channels at each of its cells: a row of patch columns more is `patch_size`
/// cells more.
pub proof fn law_patches_hold_every_channel(c: &Sd3Config)
    ensures
        c.patch_features() == c.in_channels * (c.patch_size * c.patch_size),
        c.patch_size == 1 ==> c.patch_features() == c.in_channels,
{
    assert(c.patch_features() == c.in_channels * (c.patch_size * c.patch_size)) by (nonlinear_arith)
        requires
            c.patch_features() == c.patch_size * c.patch_size * c.in_channels,
    ;
    if c.patch_size == 1 {
        assert(c.patch_size * c.patch_size == 1) by (nonlinear_arith)
            requires
                c.patch_size == 1,
        ;
        assert(c.in_channels * 1 == c.in_channels);
    }
}

} // verus!

//! The ControlNet branch: an encoder copy of the UNet with a conditioning embedding in front and a
//! 1x1 head on every skip residual.
use super::attention::AugEmbed;
use super::unet_2d::{
    build_down_block, build_mid_block, conv3, down_block, mid_block, residual_channel, BlockConfig,
    Conv2d, Part, TimestepEmbedding, Timesteps, UNet2DConditionModelConfig, UNetDownBlock,
    UNetMidBlock2DCrossAttn, UNet2DConditionModel,
};
use crate::float::{Real64, EPSILON_BITS, ONE_BITS, ZERO_BITS};
use crate::text::{decimal, decimal_of};
use vstd::arithmetic::power2::{lemma_pow2_pos, lemma_pow2_unfold, pow2};
use vstd::prelude::*;
use vstd::string::*;

verus! {

/// `c` is the SDXL UNet geometry: three levels of 320, 640 and 1280 channels with 0, 2 and 10
/// transformer layers.
pub open spec fn is_sdxl_unet(c: &UNet2DConditionModelConfig) -> bool {
    &&& c.blocks@ == seq![
        (BlockConfig { out_channels: 320, use_cross_attn: None, attention_head_dim: 5 }),
        (BlockConfig { out_channels: 640, use_cross_attn: Some(2), attention_head_dim: 10 }),
        (BlockConfig { out_channels: 1280, use_cross_attn: Some(10), attention_head_dim: 20 }),
    ]
    &&& !c.center_input_sample && c.flip_sin_to_cos && c.use_linear_projection
    &&& c.freq_shift.bits == ZERO_BITS && c.mid_block_scale_factor.bits == ONE_BITS
    &&& c.norm_eps.bits == EPSILON_BITS && c.norm_num_groups == 32
    &&& c.layers_per_block == 2 && c.downsample_padding == 1
    &&& c.cross_attention_dim == 2048 && c.sliced_attention_size is None
}

proof fn lemma_sdxl_unet_is_valid(c: &UNet2DConditionModelConfig)
    requires
        is_sdxl_unet(c),
    ensures
        c.valid(),
{
    assert(c.blocks@[0].out_channels == 320);
    assert(c.blocks@.len() * (c.layers_per_block + 1) == 9) by (nonlinear_arith)
        requires
            c.blocks@.len() == 3,
            c.layers_per_block == 2,
    ;
}

/// The SDXL UNet configuration.
pub fn sdxl_unet_config() -> (r: UNet2DConditionModelConfig)
    ensures
        is_sdxl_unet(&r),
        r.valid(),
{
    let blocks = vec![
        BlockConfig { out_channels: 320, use_cross_attn: None, attention_head_dim: 5 },
        BlockConfig { out_channels: 640, use_cross_attn: Some(2), attention_head_dim: 10 },
        BlockConfig { out_channels: 1280, use_cross_attn: Some(10), attention_head_dim: 20 },
    ];
    let c = UNet2DConditionModelConfig {
        center_input_sample: false,
        flip_sin_to_cos: true,
        freq_shift: Real64 { bits: ZERO_BITS },
        blocks,
        layers_per_block: 2,
        downsample_padding: 1,
        mid_block_scale_factor: Real64 { bits: ONE_BITS },
        norm_num_groups: 32,
        norm_eps: Real64 { bits: EPSILON_BITS },
        cross_attention_dim: 2048,
        sliced_attention_size: None,
        use_linear_projection: true,
    };
    proof {
        lemma_sdxl_unet_is_valid(&c);
    }
    c
}

/// The configuration of a ControlNet.
#[derive(Clone, Debug)]
pub struct ControlNetConfig {
    /// The down and mid geometry, shared with the UNet.
    pub unet: UNet2DConditionModelConfig,
    /// The sinusoidal width of one time id.
    pub addition_time_embed_dim: usize,
    /// The input width of the micro-conditioning head: pooled text and all time ids.
    pub projection_class_embeddings_input_dim: usize,
    /// The channels of the control image.
    pub conditioning_channels: usize,
    /// The channels of the conditioning embedding's stages.
    pub cond_block_out_channels: Vec<usize>,
}

/// The stages of a stock conditioning embedding.
pub open spec fn cond_stages() -> Seq<usize> {
    seq![16usize, 32, 96, 256]
}

impl ControlNetConfig {
    pub open spec fn valid(&self) -> bool {
        self.unet.valid() && 0 < self.cond_block_out_channels.len() <= usize::MAX / 2
    }

    /// The stock SDXL ControlNet: 1280 pooled features and six time ids of 256.
    pub fn sdxl() -> (r: Self)
        ensures
            r.valid(),
            is_sdxl_unet(&r.unet),
            r.addition_time_embed_dim == 256,
            r.projection_class_embeddings_input_dim == 1280 + 6 * 256,
            r.conditioning_channels == 3,
            r.cond_block_out_channels@ == cond_stages(),
    {
        ControlNetConfig {
            unet: sdxl_unet_config(),
            addition_time_embed_dim: 256,
            projection_class_embeddings_input_dim: 2816,
            conditioning_channels: 3,
            cond_block_out_channels: vec![16, 32, 96, 256],
        }
    }

    /// The Kolors ControlNet, which differs from SDXL's in its 4096 pooled features alone.
    pub fn kolors() -> (r: Self)
        ensures
            r.valid(),
            is_sdxl_unet(&r.unet),
            r.addition_time_embed_dim == 256,
            r.projection_class_embeddings_input_dim == 4096 + 6 * 256,
            r.conditioning_channels == 3,
            r.cond_block_out_channels@ == cond_stages(),
    {
        ControlNetConfig {
            unet: sdxl_unet_config(),
            addition_time_embed_dim: 256,
            projection_class_embeddings_input_dim: 5632,
            conditioning_channels: 3,
            cond_block_out_channels: vec![16, 32, 96, 256],
        }
    }
}

/// The convolutions that embed a control image at latent resolution.
#[derive(Clone, Debug)]
pub struct CondEmbedding {
    pub conv_in: Conv2d,
    pub blocks: Vec<Conv2d>,
    pub conv_out: Conv2d,
}

/// The `k`-th inner convolution: each stage keeps its width at stride 1, then widens to the next
/// at stride 2.
pub open spec fn cond_block(stages: Seq<usize>, k: int) -> Conv2d {
    if k % 2 == 0 {
        conv3(Part::CondBlock(k as usize), stages[k / 2], stages[k / 2], 1)
    } else {
        conv3(Part::CondBlock(k as usize), stages[k / 2], stages[k / 2 + 1], 2)
    }
}

/// The output size of a convolution on an input of size `h`.
pub open spec fn conv_size(c: Conv2d, h: int) -> int {
    (h + 2 * c.padding - c.kernel_size) / c.stride as int + 1
}

/// The size after the first `k` convolutions of `convs`.
pub open spec fn size_after(convs: Seq<Conv2d>, k: int, h: int) -> int
    decreases k,
{
    if k <= 0 {
        h
    } else {
        conv_size(convs[k - 1], size_after(convs, k - 1, h))
    }
}

impl CondEmbedding {
    /// The embedding has the given stages and output width.
    pub open spec fn built(&self, channels: usize, stages: Seq<usize>, out_channels: usize) -> bool {
        &&& self.conv_in == conv3(Part::CondConvIn, channels, stages[0], 1)
        &&& self.blocks@ == Seq::new(
            (2 * (stages.len() - 1)) as nat,
            |k: int| cond_block(stages, k),
        )
        &&& self.conv_out == conv3(Part::CondConvOut, stages[stages.len() - 1], out_channels, 1)
    }

    /// Lays out the embedding of a control image of `conditioning_channels`.
    pub fn new(
        conditioning_channels: usize,
        block_out_channels: &Vec<usize>,
        out_channels: usize,
    ) -> (r: Self)
        requires
            0 < block_out_channels.len() <= usize::MAX / 2,
        ensures
            r.built(conditioning_channels, block_out_channels@, out_channels),
    {
        let conv_in = Conv2d {
            part: Part::CondConvIn,
            in_channels: conditioning_channels,
            out_channels: block_out_channels[0],
            kernel_size: 3,
            padding: 1,
            stride: 1,
        };
        let mut blocks: Vec<Conv2d> = Vec::new();
        let mut i: usize = 0;
        while i < block_out_channels.len() - 1
            invariant
                0 < block_out_channels.len() <= usize::MAX / 2,
                i <= block_out_channels.len() - 1,
                blocks@ == Seq::new(2 * i as nat, |k: int| cond_block(block_out_channels@, k)),
            decreases block_out_channels.len() - i,
        {
            let (ci, co): (usize, usize) = (block_out_channels[i], block_out_channels[i + 1]);
            proof {
                assert((2 * i) / 2 == i && (2 * i) % 2 == 0);
                assert((2 * i + 1) / 2 == i && (2 * i + 1) % 2 == 1);
            }
            let same_width = Conv2d {
                part: Part::CondBlock(blocks.len()),
                in_channels: ci,
                out_channels: ci,
                kernel_size: 3,
                padding: 1,
                stride: 1,
            };
            blocks.push(same_width);
            let widen = Conv2d {
                part: Part::CondBlock(blocks.len()),
                in_channels: ci,
                out_channels: co,
                kernel_size: 3,
                padding: 1,
                stride: 2,
            };
            blocks.push(widen);
            proof {
                assert(blocks@ =~= Seq::new(
                    (2 * (i + 1)) as nat,
                    |k: int| cond_block(block_out_channels@, k),
                ));
            }
            i += 1;
        }
        let conv_out = Conv2d {
            part: Part::CondConvOut,
            in_channels: block_out_channels[block_out_channels.len() - 1],
            out_channels,
            kernel_size: 3,
            padding: 1,
            stride: 1,
        };
        CondEmbedding { conv_in, blocks, conv_out }
    }
}

/// Residuals of one branch: one for each skip of the UNet, and one for its mid output.
#[derive(Clone, Debug)]
pub struct ControlResiduals<T> {
    pub down: Vec<T>,
    pub mid: T,
}

/// Two branches that do not have the same number of down residuals.
#[derive(Clone, Copy, Debug, PartialEq, Eq, Structural)]
pub struct BranchMismatch {
    pub left: usize,
    pub right: usize,
}

impl BranchMismatch {
    pub open spec fn text(self) -> Seq<char> {
        "controlnet residual sum: branch down counts differ ("@ + decimal(self.left as nat)
            + " vs "@ + decimal(self.right as nat) + ")"@
    }

    pub fn message(self) -> (r: String)
        ensures
            r@ == self.text(),
    {
        let mut s = String::from_str("controlnet residual sum: branch down counts differ (");
        s.append(decimal_of(self.left).as_str());
        s.append(" vs ");
        s.append(decimal_of(self.right).as_str());
        s.append(")");
        s
    }
}

impl<T> ControlResiduals<T> {
    /// Pairs the residuals of two branches, whose sums are injected: skip by skip, and mid with mid.
    pub fn add<'a>(&'a self, other: &'a ControlResiduals<T>) -> (r: Result<
        ControlResiduals<(&'a T, &'a T)>,
        BranchMismatch,
    >)
        ensures
            match r {
                Ok(s) => {
                    &&& self.down.len() == other.down.len()
                    &&& s.down@ == Seq::new(
                        self.down@.len(),
                        |i: int| (&self.down[i], &other.down[i]),
                    )
                    &&& s.mid == (&self.mid, &other.mid)
                    &&& s.down.len() == self.down.len()
                    &&& forall|i: int|
                        0 <= i < s.down.len() ==> *(#[trigger] s.down[i]).0 == self.down[i]
                            && *s.down[i].1 == other.down[i]
                },
                Err(e) => self.down.len() != other.down.len() && e == (BranchMismatch {
                    left: self.down.len(),
                    right: other.down.len(),
                }),
            },
    {
        if self.down.len() != other.down.len() {
            return Err(BranchMismatch { left: self.down.len(), right: other.down.len() });
        }
        let mut down: Vec<(&'a T, &'a T)> = Vec::new();
        let mut i: usize = 0;
        while i < self.down.len()
            invariant
                i <= self.down.len(),
                self.down.len() == other.down.len(),
                down@ == Seq::new(i as nat, |k: int| (&self.down[k], &other.down[k])),
            decreases self.down.len() - i,
        {
            down.push((&self.down[i], &other.down[i]));
            i += 1;
        }
        Ok(ControlResiduals { down, mid: (&self.mid, &other.mid) })
    }
}

/// The channel count of each collected residual, in skip order.
pub fn residual_channels(cfg: &UNet2DConditionModelConfig) -> (r: Vec<usize>)
    requires
        cfg.valid(),
    ensures
        r@ == Seq::new(cfg.residual_count() as nat, |k: int| residual_channel(cfg, k)),
{
    let n: usize = cfg.blocks.len();
    let ghost per = cfg.layers_per_block + 1;
    let mut chans: Vec<usize> = vec![cfg.blocks[0].out_channels];
    let mut i: usize = 0;
    proof {
        assert(n * per >= 1) by (nonlinear_arith)
            requires
                n >= 1,
                per >= 1,
        ;
        assert(chans@ =~= Seq::new(1, |k: int| residual_channel(cfg, k)));
        assert(0 * per == 0) by (nonlinear_arith);
    }
    while i < n
        invariant
            i <= n,
            n == cfg.blocks.len(),
            n >= 1,
            cfg.valid(),
            per == cfg.layers_per_block + 1,
            chans@ == Seq::new(
                (if i < n {
                    1 + i * per
                } else {
                    n * per
                }) as nat,
                |k: int| residual_channel(cfg, k),
            ),
        decreases n - i,
    {
        let width: usize = cfg.blocks[i].out_channels;
        let ghost base = 1 + i * per;
        proof {
            assert(i * per >= 0) by (nonlinear_arith)
                requires
                    i >= 0,
                    per >= 1,
            ;
        }
        let mut l: usize = 0;
        while l < cfg.layers_per_block
            invariant
                l <= cfg.layers_per_block,
                i < n,
                n == cfg.blocks.len(),
                per == cfg.layers_per_block + 1,
                base == 1 + i * per,
                base >= 1,
                width == cfg.blocks[i as int].out_channels,
                chans@ == Seq::new((base + l) as nat, |k: int| residual_channel(cfg, k)),
            decreases cfg.layers_per_block - l,
        {
            proof {
                vstd::arithmetic::div_mod::lemma_fundamental_div_mod_converse(
                    base + l - 1,
                    per,
                    i as int,
                    l as int,
                );
                assert(residual_channel(cfg, base + l) == width);
            }
            chans.push(width);
            l += 1;
        }
        proof {
            assert((i + 1) * per == i * per + per) by (nonlinear_arith);
        }
        if i < n - 1 {
            proof {
                vstd::arithmetic::div_mod::lemma_fundamental_div_mod_converse(
                    base + l - 1,
                    per,
                    i as int,
                    l as int,
                );
                assert(residual_channel(cfg, base + l) == width);
            }
            chans.push(width);
        }
        i += 1;
    }
    chans
}

/// The layer stack of a ControlNet.
#[derive(Clone, Debug)]
pub struct ControlNet {
    pub conv_in: Conv2d,
    pub time_proj: Timesteps,
    pub time_embedding: TimestepEmbedding,
    pub add_time_proj: Timesteps,
    pub add_embedding: TimestepEmbedding,
    pub down_blocks: Vec<UNetDownBlock>,
    pub mid_block: UNetMidBlock2DCrossAttn,
    pub cond_embedding: CondEmbedding,
    /// One 1x1 head for each down residual.
    pub down_zero: Vec<Conv2d>,
    /// The 1x1 head of the mid output.
    pub mid_zero: Conv2d,
    pub addition_time_embed_dim: usize,
}

/// A 1x1 convolution that keeps its width.
pub open spec fn head(part: Part, channels: usize) -> Conv2d {
    Conv2d {
        part,
        in_channels: channels,
        out_channels: channels,
        kernel_size: 1,
        padding: 0,
        stride: 1,
    }
}

/// A branch whose residuals do not pair with its heads.
#[derive(Clone, Copy, Debug, PartialEq, Eq, Structural)]
pub struct GeometryMismatch {
    pub residuals: usize,
    pub heads: usize,
}

impl GeometryMismatch {
    pub open spec fn text(self) -> Seq<char> {
        "sdxl controlnet: "@ + decimal(self.residuals as nat) + " down residuals but "@ + decimal(
            self.heads as nat,
        )
            + " zero-conv heads — control branch geometry does not match the loaded down_zero convs"@
    }

    pub fn message(self) -> (r: String)
        ensures
            r@ == self.text(),
    {
        let mut s = String::from_str("sdxl controlnet: ");
        s.append(decimal_of(self.residuals).as_str());
        s.append(" down residuals but ");
        s.append(decimal_of(self.heads).as_str());
        s.append(
            " zero-conv heads — control branch geometry does not match the loaded down_zero convs",
        );
        s
    }
}

impl ControlNet {
    /// The stack is the one that `cfg` describes.
    pub open spec fn built(&self, cfg: &ControlNetConfig) -> bool {
        let u = &cfg.unet;
        let n = u.blocks.len() as int;
        let width = u.blocks[0].out_channels;
        let last = u.blocks[n - 1].out_channels;
        &&& cfg.valid()
        &&& self.conv_in == conv3(Part::ConvIn, 4, width, 1)
        &&& self.time_proj == Timesteps {
            num_channels: width,
            flip_sin_to_cos: u.flip_sin_to_cos,
            freq_shift: u.freq_shift,
        }
        &&& self.time_embedding == TimestepEmbedding {
            part: Part::TimeEmbedding,
            channel: width,
            time_embed_dim: (width * 4) as usize,
        }
        &&& self.add_time_proj == Timesteps {
            num_channels: cfg.addition_time_embed_dim,
            flip_sin_to_cos: u.flip_sin_to_cos,
            freq_shift: u.freq_shift,
        }
        &&& self.add_embedding == TimestepEmbedding {
            part: Part::AddEmbedding,
            channel: cfg.projection_class_embeddings_input_dim,
            time_embed_dim: (width * 4) as usize,
        }
        &&& self.down_blocks@ == Seq::new(
            n as nat,
            |i: int| down_block(u, i, u.sliced_attention_size, false),
        )
        &&& self.mid_block == mid_block(u, false)
        &&& self.down_zero@ == Seq::new(
            u.residual_count() as nat,
            |i: int| head(Part::DownHead(i as usize), residual_channel(u, i)),
        )
        &&& self.mid_zero == head(Part::MidHead, last)
        &&& self.cond_embedding.built(
            cfg.conditioning_channels,
            cfg.cond_block_out_channels@,
            width,
        )
        &&& self.addition_time_embed_dim == cfg.addition_time_embed_dim
    }

    /// Lays out the ControlNet of `cfg`, with materialised attention.
    pub fn new(cfg: &ControlNetConfig) -> (r: Self)
        requires
            cfg.valid(),
        ensures
            r.built(cfg),
    {
        let u = &cfg.unet;
        let n: usize = u.blocks.len();
        let width: usize = u.blocks[0].out_channels;
        let last: usize = u.blocks[n - 1].out_channels;
        let mut down_blocks: Vec<UNetDownBlock> = Vec::new();
        let mut i: usize = 0;
        while i < n
            invariant
                i <= n,
                n == u.blocks.len(),
                u.valid(),
                down_blocks@ == Seq::new(
                    i as nat,
                    |k: int| down_block(u, k, u.sliced_attention_size, false),
                ),
            decreases n - i,
        {
            down_blocks.push(build_down_block(u, i, u.sliced_attention_size, false));
            i += 1;
        }
        let chans = residual_channels(u);
        let mut down_zero: Vec<Conv2d> = Vec::new();
        let mut j: usize = 0;
        while j < chans.len()
            invariant
                j <= chans.len(),
                chans@ == Seq::new(u.residual_count() as nat, |k: int| residual_channel(u, k)),
                down_zero@ == Seq::new(
                    j as nat,
                    |k: int| head(Part::DownHead(k as usize), residual_channel(u, k)),
                ),
            decreases chans.len() - j,
        {
            down_zero.push(
                Conv2d {
                    part: Part::DownHead(j),
                    in_channels: chans[j],
                    out_channels: chans[j],
                    kernel_size: 1,
                    padding: 0,
                    stride: 1,
                },
            );
            j += 1;
        }
        ControlNet {
            conv_in: Conv2d {
                part: Part::ConvIn,
                in_channels: 4,
                out_channels: width,
                kernel_size: 3,
                padding: 1,
                stride: 1,
            },
            time_proj: Timesteps {
                num_channels: width,
                flip_sin_to_cos: u.flip_sin_to_cos,
                freq_shift: u.freq_shift,
            },
            time_embedding: TimestepEmbedding {
                part: Part::TimeEmbedding,
                channel: width,
                time_embed_dim: width * 4,
            },
            add_time_proj: Timesteps {
                num_channels: cfg.addition_time_embed_dim,
                flip_sin_to_cos: u.flip_sin_to_cos,
                freq_shift: u.freq_shift,
            },
            add_embedding: TimestepEmbedding {
                part: Part::AddEmbedding,
                channel: cfg.projection_class_embeddings_input_dim,
                time_embed_dim: width * 4,
            },
            down_blocks,
            mid_block: build_mid_block(u, false),
            cond_embedding: CondEmbedding::new(
                cfg.conditioning_channels,
                &cfg.cond_block_out_channels,
                width,
            ),
            down_zero,
            mid_zero: Conv2d {
                part: Part::MidHead,
                in_channels: last,
                out_channels: last,
                kernel_size: 1,
                padding: 0,
                stride: 1,
            },
            addition_time_embed_dim: cfg.addition_time_embed_dim,
        }
    }

    /// The micro-conditioning head, for `time_ids` time ids.
    pub fn temb(&self, time_ids: usize) -> (r: AugEmbed)
        requires
            time_ids * self.addition_time_embed_dim <= usize::MAX,
        ensures
            r.time_proj == self.add_time_proj,
            r.embedding == self.add_embedding,
            r.time_width == time_ids * self.addition_time_embed_dim,
    {
        AugEmbed {
            time_proj: self.add_time_proj,
            embedding: self.add_embedding,
            time_width: time_ids * self.addition_time_embed_dim,
        }
    }

    /// The heads of the `residuals` collected by a forward pass, one each and in order, and the
    /// head of the mid output.
    pub fn forward(&self, residuals: usize) -> (r: Result<
        ControlResiduals<Conv2d>,
        GeometryMismatch,
    >)
        ensures
            match r {
                Ok(h) => residuals == self.down_zero.len() && h.down@ == self.down_zero@ && h.mid
                    == self.mid_zero,
                Err(e) => residuals != self.down_zero.len() && e == (GeometryMismatch {
                    residuals,
                    heads: self.down_zero.len(),
                }),
            },
    {
        if residuals != self.down_zero.len() {
            return Err(GeometryMismatch { residuals, heads: self.down_zero.len() });
        }
        let mut down: Vec<Conv2d> = Vec::new();
        let mut i: usize = 0;
        while i < self.down_zero.len()
            invariant
                i <= self.down_zero.len(),
                down@ == self.down_zero@.take(i as int),
            decreases self.down_zero.len() - i,
        {
            down.push(self.down_zero[i]);
            proof {
                assert(down@ =~= self.down_zero@.take(i + 1));
            }
            i += 1;
        }
        proof {
            assert(down@ =~= self.down_zero@);
        }
        Ok(ControlResiduals { down, mid: self.mid_zero })
    }
}

/// A branch yields one residual for each skip that the UNet of the same geometry collects, with the
/// channel count of that skip, so a built branch always pairs.
pub proof fn law_branch_pairs_with_unet(cn: &ControlNet, cfg: &ControlNetConfig)
    requires
        cn.built(cfg),
    ensures
        cn.down_zero.len() == cfg.unet.residual_count(),
        forall|i: int|
            0 <= i < cn.down_zero.len() ==> (#[trigger] cn.down_zero[i]).out_channels
                == residual_channel(&cfg.unet, i),
{
}

/// The inner convolutions of a conditioning embedding shrink an image by two for each stage after
/// the first: an image of `m * 2^(stages - 1)` comes out at `m`.
pub proof fn law_embedding_downsamples(stages: Seq<usize>, m: int)
    requires
        stages.len() > 0,
        m > 0,
    ensures
        ({
            let k = 2 * (stages.len() - 1);
            let convs = Seq::new(k as nat, |i: int| cond_block(stages, i));
            size_after(convs, k, m * pow2((stages.len() - 1) as nat)) == m
        }),
{
    let n = stages.len() - 1;
    let convs = Seq::new((2 * n) as nat, |i: int| cond_block(stages, i));
    lemma_stage_sizes(stages, convs, n, m * pow2(n as nat), m);
    assert(pow2(0) == 1) by {
        vstd::arithmetic::power2::lemma2_to64();
    }
    assert(m * 1 == m);
}

proof fn lemma_stage_sizes(stages: Seq<usize>, convs: Seq<Conv2d>, i: int, h: int, m: int)
    requires
        0 <= i < stages.len(),
        convs == Seq::new((2 * (stages.len() - 1)) as nat, |i: int| cond_block(stages, i)),
        m > 0,
        h == m * pow2((stages.len() - 1) as nat),
    ensures
        size_after(convs, 2 * i, h) == m * pow2((stages.len() - 1 - i) as nat),
    decreases i,
{
    if i > 0 {
        lemma_stage_sizes(stages, convs, i - 1, h, m);
        let k = 2 * (i - 1);
        assert(k / 2 == i - 1 && k % 2 == 0 && (k + 1) % 2 == 1);
        let p = (stages.len() - 1 - i) as nat;
        lemma_pow2_unfold(p + 1);
        lemma_pow2_pos(p);
        let half = m * pow2(p);
        assert(m * (2 * pow2(p)) == 2 * (m * pow2(p))) by (nonlinear_arith);
        assert(half > 0) by (nonlinear_arith)
            requires
                m > 0,
                pow2(p) > 0,
                half == m * pow2(p),
        ;
        assert(size_after(convs, k, h) == 2 * half);
        assert(size_after(convs, k + 1, h) == conv_size(convs[k], 2 * half));
        assert(convs[k].stride == 1 && convs[k + 1].stride == 2);
        assert((2 * half + 2 - 3) / 1 == 2 * half - 1);
        assert(conv_size(convs[k], 2 * half) == 2 * half);
        assert(size_after(convs, k + 2, h) == conv_size(convs[k + 1], 2 * half));
        assert((2 * half + 2 - 3) / 2 == half - 1);
    }
}

/// The convolutions that embed a control image fit together: each takes the channels that the one
/// before it yields, from the image's to the branch's own, and every second inner one halves the size,
/// while the others keep it.
pub proof fn law_conditioning_stages_chain(
    e: &CondEmbedding,
    channels: usize,
    stages: Seq<usize>,
    out_channels: usize,
)
    requires
        0 < stages.len() <= usize::MAX / 2,
        e.built(channels, stages, out_channels),
    ensures
        e.conv_in.in_channels == channels && e.conv_in.stride == 1,
        e.conv_out.out_channels == out_channels && e.conv_out.stride == 1,
        e.blocks.len() == 2 * (stages.len() - 1),
        forall|k: int|
            0 < k < e.blocks.len() ==> (#[trigger] e.blocks[k]).in_channels == e.blocks[k
                - 1].out_channels,
        e.blocks.len() > 0 ==> e.blocks[0].in_channels == e.conv_in.out_channels
            && e.conv_out.in_channels == e.blocks[e.blocks.len() - 1].out_channels,
        e.blocks.len() == 0 ==> e.conv_out.in_channels == e.conv_in.out_channels,
        forall|k: int|
            0 <= k < e.blocks.len() ==> (#[trigger] e.blocks[k]).stride == (if k % 2 == 1 {
                2int
            } else {
                1int
            }) && e.blocks[k].part == Part::CondBlock(k as usize) && e.blocks[k].kernel_size == 3
                && e.blocks[k].padding == 1,
        forall|s: int|
            0 <= s < stages.len() - 1 ==> e.blocks[2 * s].in_channels == #[trigger] stages[s]
                && e.blocks[2 * s + 1].out_channels == stages[s + 1],
{
    let n = stages.len() - 1;
    assert forall|k: int| 0 < k < e.blocks.len() implies (#[trigger] e.blocks[k]).in_channels
        == e.blocks[k - 1].out_channels by {
        assert(e.blocks@[k] == cond_block(stages, k));
        assert(e.blocks@[k - 1] == cond_block(stages, k - 1));
        if k % 2 == 0 {
            assert((k - 1) / 2 + 1 == k / 2);
        } else {
            assert((k - 1) / 2 == k / 2);
        }
    }
    assert forall|s: int| 0 <= s < stages.len() - 1 implies e.blocks[2 * s].in_channels
        == #[trigger] stages[s] && e.blocks[2 * s + 1].out_channels == stages[s + 1] by {
        assert((2 * s) / 2 == s && (2 * s) % 2 == 0);
        assert((2 * s + 1) / 2 == s && (2 * s + 1) % 2 == 1);
        assert(e.blocks@[2 * s] == cond_block(stages, 2 * s));
        assert(e.blocks@[2 * s + 1] == cond_block(stages, 2 * s + 1));
    }
    if n > 0 {
        assert(e.blocks@[2 * (n - 1) + 1] == cond_block(stages, 2 * (n - 1) + 1));
        assert((2 * (n - 1) + 1) / 2 == n - 1 && (2 * (n - 1) + 1) % 2 == 1);
        assert(e.blocks@[0] == cond_block(stages, 0));
    }
}

/// A branch is the encoder of the UNet of its geometry: the same time embedding, the same resnets at
/// every level and the same mid block as a UNet of that configuration without flash attention, and the
/// same blocks altogether where attention is not sliced.
pub proof fn law_branch_is_the_unets_encoder(
    cn: &ControlNet,
    cfg: &ControlNetConfig,
    m: &UNet2DConditionModel,
    out_channels: usize,
)
    requires
        cn.built(cfg),
        m.config == cfg.unet,
        m.built(4, out_channels, false),
    ensures
        cn.conv_in == m.conv_in,
        cn.time_proj == m.time_proj,
        cn.time_embedding == m.time_embedding,
        cn.mid_block == m.mid_block,
        cn.down_blocks.len() == m.down_blocks.len(),
        forall|i: int|
            0 <= i < m.down_blocks.len() ==> (#[trigger] cn.down_blocks[i]).resnets()
                == m.down_blocks[i].resnets(),
        cfg.unet.sliced_attention_size is None ==> cn.down_blocks@ == m.down_blocks@,
{
    assert forall|i: int| 0 <= i < m.down_blocks.len() implies (#[trigger] cn.down_blocks[i]).resnets()
        == m.down_blocks[i].resnets() by {
        assert(cn.down_blocks@[i] == down_block(
            &cfg.unet,
            i,
            cfg.unet.sliced_attention_size,
            false,
        ));
    }
    if cfg.unet.sliced_attention_size is None {
        assert(cn.down_blocks@ =~= m.down_blocks@);
    }
}

/// A head yields as many channels as it takes, at every place: it is pointwise. The mid output's takes
/// what the mid block yields; what is embedded of the control image has the channels of the input
/// convolution, to which it is added; and the pooled text goes into the time embedding.
pub proof fn law_heads_keep_what_they_are_given(cn: &ControlNet, cfg: &ControlNetConfig, i: int)
    requires
        cn.built(cfg),
        0 <= i < cn.down_zero.len(),
    ensures
        ({
            let h = cn.down_zero[i];
            &&& h.in_channels == h.out_channels
            &&& h.kernel_size == 1 && h.padding == 0 && h.stride == 1
            &&& h.part == Part::DownHead(i as usize)
            &&& i == 0 ==> h.in_channels == cn.conv_in.out_channels
            &&& cn.mid_zero.in_channels == cn.mid_zero.out_channels
            &&& cn.mid_zero.in_channels == cn.mid_block.in_channels
            &&& cn.mid_zero.kernel_size == 1 && cn.mid_zero.padding == 0 && cn.mid_zero.stride == 1
            &&& cn.mid_zero.part == Part::MidHead
            &&& cn.cond_embedding.conv_out.out_channels == cn.conv_in.out_channels
            &&& cn.cond_embedding.conv_in.in_channels == cfg.conditioning_channels
            &&& cn.add_embedding.time_embed_dim == cn.time_embedding.time_embed_dim
            &&& cn.add_embedding.channel == cfg.projection_class_embeddings_input_dim
            &&& cn.add_embedding.part == Part::AddEmbedding
            &&& cn.add_time_proj.num_channels == cfg.addition_time_embed_dim
            &&& cn.add_time_proj.flip_sin_to_cos == cn.time_proj.flip_sin_to_cos
            &&& cn.add_time_proj.freq_shift == cn.time_proj.freq_shift
        }),
{
}

/// The heads of the SDXL UNet are 64 wide at every level, a level has twice the channels of the one
/// before it, and every level but the first attends to the text.
pub proof fn law_sdxl_levels_double(c: &UNet2DConditionModelConfig, i: int)
    requires
        is_sdxl_unet(c),
        0 <= i < c.blocks.len(),
    ensures
        c.blocks.len() == 3,
        c.blocks[i].out_channels == 64 * c.blocks[i].attention_head_dim,
        i > 0 ==> c.blocks[i].out_channels == 2 * c.blocks[i - 1].out_channels,
        c.blocks[i].use_cross_attn is Some <==> i > 0,
        c.blocks[0].out_channels == 320,
        c.blocks[1].use_cross_attn == Some(2usize) && c.blocks[2].use_cross_attn == Some(10usize),
        c.blocks[i].out_channels % c.norm_num_groups == 0,
        c.cross_attention_dim == 768 + 1280,
        c.layers_per_block == 2,
{
}

/// A stock conditioning embedding has four stages, so that it brings an image to the size of its latent:
/// eight times smaller.
pub proof fn law_stock_embedding_shrinks_to_latents(m: int)
    requires
        m > 0,
    ensures
        ({
            let convs = Seq::new(6, |i: int| cond_block(cond_stages(), i));
            size_after(convs, 6, 8 * m) == m
        }),
        cond_stages() == seq![16usize, 32, 96, 256],
{
    vstd::arithmetic::power2::lemma2_to64();
    law_embedding_downsamples(cond_stages(), m);
    assert(m * 8 == 8 * m);
}

} // verus!

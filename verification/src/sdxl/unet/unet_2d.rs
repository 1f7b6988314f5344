//! The 2-D conditional UNet: the layer stack that a configuration describes, the order in which a
//! forward pass runs it, and which skip residuals each up block consumes.
use crate::float::{Real64, EPSILON_BITS, ONE_BITS, ZERO_BITS};
use crate::text::{decimal, decimal_of, join};
use vstd::arithmetic::power2::{lemma_pow2_unfold, pow2};
use vstd::prelude::*;
use vstd::string::*;

verus! {

/// One resolution level of the UNet.
#[derive(Clone, Copy, Debug)]
pub struct BlockConfig {
    pub out_channels: usize,
    /// When `None` no cross-attention is used; `Some(d)` uses `d` transformer blocks.
    pub use_cross_attn: Option<usize>,
    pub attention_head_dim: usize,
}

/// The configuration of a UNet.
#[derive(Clone, Debug)]
pub struct UNet2DConditionModelConfig {
    pub center_input_sample: bool,
    pub flip_sin_to_cos: bool,
    pub freq_shift: Real64,
    pub blocks: Vec<BlockConfig>,
    pub layers_per_block: usize,
    pub downsample_padding: usize,
    pub mid_block_scale_factor: Real64,
    pub norm_num_groups: usize,
    pub norm_eps: Real64,
    pub cross_attention_dim: usize,
    pub sliced_attention_size: Option<usize>,
    pub use_linear_projection: bool,
}

impl UNet2DConditionModelConfig {
    /// A UNet can be built from the configuration: it has a block, and its derived sizes fit.
    pub open spec fn valid(&self) -> bool {
        &&& self.blocks.len() > 0
        &&& self.blocks[0].out_channels * 4 <= usize::MAX
        &&& self.blocks.len() * (self.layers_per_block + 1) <= usize::MAX
    }

    /// How many skip residuals the down pass collects.
    pub open spec fn residual_count(&self) -> int {
        self.blocks.len() * (self.layers_per_block + 1)
    }
}

impl Default for UNet2DConditionModelConfig {
    /// The Stable Diffusion 1.5 geometry.
    fn default() -> (r: Self)
        ensures
            r.blocks@ == seq![
                (BlockConfig { out_channels: 320, use_cross_attn: Some(1), attention_head_dim: 8 }),
                (BlockConfig { out_channels: 640, use_cross_attn: Some(1), attention_head_dim: 8 }),
                (BlockConfig { out_channels: 1280, use_cross_attn: Some(1), attention_head_dim: 8 }),
                (BlockConfig { out_channels: 1280, use_cross_attn: None, attention_head_dim: 8 }),
            ],
            !r.center_input_sample && r.flip_sin_to_cos && !r.use_linear_projection,
            r.freq_shift.bits == ZERO_BITS && r.mid_block_scale_factor.bits == ONE_BITS,
            r.norm_eps.bits == EPSILON_BITS,
            r.layers_per_block == 2 && r.downsample_padding == 1 && r.norm_num_groups == 32,
            r.cross_attention_dim == 1280 && r.sliced_attention_size is None,
    {
        let blocks = vec![
            BlockConfig { out_channels: 320, use_cross_attn: Some(1), attention_head_dim: 8 },
            BlockConfig { out_channels: 640, use_cross_attn: Some(1), attention_head_dim: 8 },
            BlockConfig { out_channels: 1280, use_cross_attn: Some(1), attention_head_dim: 8 },
            BlockConfig { out_channels: 1280, use_cross_attn: None, attention_head_dim: 8 },
        ];
        UNet2DConditionModelConfig {
            center_input_sample: false,
            flip_sin_to_cos: true,
            freq_shift: Real64 { bits: ZERO_BITS },
            blocks,
            layers_per_block: 2,
            downsample_padding: 1,
            mid_block_scale_factor: Real64 { bits: ONE_BITS },
            norm_num_groups: 32,
            norm_eps: Real64 { bits: EPSILON_BITS },
            cross_attention_dim: 1280,
            sliced_attention_size: None,
            use_linear_projection: false,
        }
    }
}

/// A module of the checkpoint, by its place in the diffusers key layout.
#[derive(Clone, Copy, Debug, PartialEq, Eq, Structural)]
pub enum Part {
    ConvIn,
    TimeEmbedding,
    AddEmbedding,
    DownBlock(usize),
    MidBlock,
    UpBlock(usize),
    ConvNormOut,
    ConvOut,
    /// A ControlNet's 1x1 head on the numbered down residual.
    DownHead(usize),
    /// A ControlNet's 1x1 head on the mid output.
    MidHead,
    CondConvIn,
    CondBlock(usize),
    CondConvOut,
}

impl Part {
    /// The dotted checkpoint path of the module.
    pub open spec fn key(self) -> Seq<char> {
        match self {
            Part::ConvIn => "conv_in"@,
            Part::TimeEmbedding => "time_embedding"@,
            Part::AddEmbedding => "add_embedding"@,
            Part::DownBlock(i) => "down_blocks."@ + decimal(i as nat),
            Part::MidBlock => "mid_block"@,
            Part::UpBlock(i) => "up_blocks."@ + decimal(i as nat),
            Part::ConvNormOut => "conv_norm_out"@,
            Part::ConvOut => "conv_out"@,
            Part::DownHead(i) => "controlnet_down_blocks."@ + decimal(i as nat),
            Part::MidHead => "controlnet_mid_block"@,
            Part::CondConvIn => "controlnet_cond_embedding.conv_in"@,
            Part::CondBlock(i) => "controlnet_cond_embedding.blocks."@ + decimal(i as nat),
            Part::CondConvOut => "controlnet_cond_embedding.conv_out"@,
        }
    }

    /// The dotted checkpoint path of the module.
    pub fn path(self) -> (r: String)
        ensures
            r@ == self.key(),
    {
        match self {
            Part::ConvIn => String::from_str("conv_in"),
            Part::TimeEmbedding => String::from_str("time_embedding"),
            Part::AddEmbedding => String::from_str("add_embedding"),
            Part::DownBlock(i) => join("down_blocks.", decimal_of(i).as_str()),
            Part::MidBlock => String::from_str("mid_block"),
            Part::UpBlock(i) => join("up_blocks.", decimal_of(i).as_str()),
            Part::ConvNormOut => String::from_str("conv_norm_out"),
            Part::ConvOut => String::from_str("conv_out"),
            Part::DownHead(i) => join("controlnet_down_blocks.", decimal_of(i).as_str()),
            Part::MidHead => String::from_str("controlnet_mid_block"),
            Part::CondConvIn => String::from_str("controlnet_cond_embedding.conv_in"),
            Part::CondBlock(i) => join("controlnet_cond_embedding.blocks.", decimal_of(i).as_str()),
            Part::CondConvOut => String::from_str("controlnet_cond_embedding.conv_out"),
        }
    }
}

/// A 2-D convolution.
#[derive(Clone, Copy, Debug, PartialEq, Eq, Structural)]
pub struct Conv2d {
    pub part: Part,
    pub in_channels: usize,
    pub out_channels: usize,
    pub kernel_size: usize,
    pub padding: usize,
    pub stride: usize,
}

/// A sinusoidal timestep projection.
#[derive(Clone, Copy, Debug, PartialEq, Eq, Structural)]
pub struct Timesteps {
    pub num_channels: usize,
    pub flip_sin_to_cos: bool,
    pub freq_shift: Real64,
}

/// A two-layer embedding MLP.
#[derive(Clone, Copy, Debug, PartialEq, Eq, Structural)]
pub struct TimestepEmbedding {
    pub part: Part,
    pub channel: usize,
    pub time_embed_dim: usize,
}

/// A group normalisation.
#[derive(Clone, Copy, Debug, PartialEq, Eq, Structural)]
pub struct GroupNorm {
    pub part: Part,
    pub num_groups: usize,
    pub num_channels: usize,
    pub eps: Real64,
}

/// The spatial transformers of a cross-attention block.
#[derive(Clone, Copy, Debug, PartialEq, Eq, Structural)]
pub struct Attention {
    pub attn_num_head_channels: usize,
    pub cross_attention_dim: usize,
    pub sliced_attention_size: Option<usize>,
    pub use_linear_projection: bool,
    pub transformer_layers_per_block: usize,
    pub use_flash_attn: bool,
}

/// The resnets of a down block, and its downsampler.
#[derive(Clone, Copy, Debug, PartialEq, Eq, Structural)]
pub struct DownBlock2D {
    pub part: Part,
    pub in_channels: usize,
    pub out_channels: usize,
    pub temb_channels: usize,
    pub num_layers: usize,
    pub resnet_eps: Real64,
    pub resnet_groups: usize,
    pub add_downsample: bool,
    pub downsample_padding: usize,
}

/// The resnets of an up block, and its upsampler.
#[derive(Clone, Copy, Debug, PartialEq, Eq, Structural)]
pub struct UpBlock2D {
    pub part: Part,
    pub in_channels: usize,
    pub prev_output_channels: usize,
    pub out_channels: usize,
    pub temb_channels: usize,
    pub num_layers: usize,
    pub resnet_eps: Real64,
    pub resnet_groups: usize,
    pub add_upsample: bool,
}

/// The mid block.
#[derive(Clone, Copy, Debug, PartialEq, Eq, Structural)]
pub struct UNetMidBlock2DCrossAttn {
    pub part: Part,
    pub in_channels: usize,
    pub temb_channels: usize,
    pub use_flash_attn: bool,
    pub resnet_eps: Real64,
    pub output_scale_factor: Real64,
    pub cross_attn_dim: usize,
    pub attn_num_head_channels: usize,
    pub resnet_groups: usize,
    pub use_linear_projection: bool,
    pub transformer_layers_per_block: usize,
}

#[derive(Clone, Copy, Debug, PartialEq, Eq, Structural)]
pub enum UNetDownBlock {
    Basic(DownBlock2D),
    CrossAttn(DownBlock2D, Attention),
}

#[derive(Clone, Copy, Debug, PartialEq, Eq, Structural)]
pub enum UNetUpBlock {
    Basic(UpBlock2D),
    CrossAttn(UpBlock2D, Attention),
}

impl UNetDownBlock {
    pub open spec fn resnets(self) -> DownBlock2D {
        match self {
            UNetDownBlock::Basic(b) => b,
            UNetDownBlock::CrossAttn(b, _) => b,
        }
    }

    /// How many skip residuals one pass through the block yields.
    pub open spec fn residuals(self) -> int {
        self.resnets().num_layers + if self.resnets().add_downsample {
            1int
        } else {
            0int
        }
    }
}

impl UNetUpBlock {
    pub open spec fn resnets(self) -> UpBlock2D {
        match self {
            UNetUpBlock::Basic(b) => b,
            UNetUpBlock::CrossAttn(b, _) => b,
        }
    }

    /// The number of resnets, each of which consumes one skip residual.
    pub fn n_resnets(&self) -> (r: usize)
        ensures
            r == self.resnets().num_layers,
    {
        match self {
            UNetUpBlock::Basic(b) => b.num_layers,
            UNetUpBlock::CrossAttn(b, _) => b.num_layers,
        }
    }
}

/// Attention slicing of a block: a configured size of 0 selects half the head width.
pub open spec fn slice_size(configured: Option<usize>, attention_head_dim: usize) -> Option<usize> {
    if configured == Some(0usize) {
        Some((attention_head_dim / 2) as usize)
    } else {
        configured
    }
}

fn sliced(configured: Option<usize>, attention_head_dim: usize) -> (r: Option<usize>)
    ensures
        r == slice_size(configured, attention_head_dim),
{
    match configured {
        Some(0) => Some(attention_head_dim / 2),
        _ => configured,
    }
}

/// The attention that level `i` of a configuration carries, where it has one.
pub open spec fn level_attention(
    c: &UNet2DConditionModelConfig,
    i: int,
    sliced_attention_size: Option<usize>,
    flash: bool,
) -> Option<Attention> {
    match c.blocks[i].use_cross_attn {
        Some(d) => Some(
            Attention {
                attn_num_head_channels: c.blocks[i].attention_head_dim,
                cross_attention_dim: c.cross_attention_dim,
                sliced_attention_size,
                use_linear_projection: c.use_linear_projection,
                transformer_layers_per_block: d,
                use_flash_attn: flash,
            },
        ),
        None => None,
    }
}

/// The resnet stack of down level `i`.
pub open spec fn level_down(c: &UNet2DConditionModelConfig, i: int) -> DownBlock2D {
    DownBlock2D {
        part: Part::DownBlock(i as usize),
        in_channels: if i > 0 {
            c.blocks[i - 1].out_channels
        } else {
            c.blocks[0].out_channels
        },
        out_channels: c.blocks[i].out_channels,
        temb_channels: (c.blocks[0].out_channels * 4) as usize,
        num_layers: c.layers_per_block,
        resnet_eps: c.norm_eps,
        resnet_groups: c.norm_num_groups,
        add_downsample: i < c.blocks.len() - 1,
        downsample_padding: c.downsample_padding,
    }
}

/// The down block of level `i`.
pub open spec fn down_block(
    c: &UNet2DConditionModelConfig,
    i: int,
    sliced_attention_size: Option<usize>,
    flash: bool,
) -> UNetDownBlock {
    match level_attention(c, i, sliced_attention_size, flash) {
        Some(a) => UNetDownBlock::CrossAttn(level_down(c, i), a),
        None => UNetDownBlock::Basic(level_down(c, i)),
    }
}

/// The `i`-th up block. It mirrors level `n - 1 - i`: it takes the hidden state of the level below
/// it and the skips of its own level, the last of which comes from the level above.
pub open spec fn up_block(c: &UNet2DConditionModelConfig, i: int, flash: bool) -> UNetUpBlock {
    let n = c.blocks.len() as int;
    let level = n - 1 - i;
    let stack = UpBlock2D {
        part: Part::UpBlock(i as usize),
        in_channels: c.blocks[if level > 0 {
            level - 1
        } else {
            0
        }].out_channels,
        prev_output_channels: c.blocks[if i > 0 {
            level + 1
        } else {
            level
        }].out_channels,
        out_channels: c.blocks[level].out_channels,
        temb_channels: (c.blocks[0].out_channels * 4) as usize,
        num_layers: (c.layers_per_block + 1) as usize,
        resnet_eps: c.norm_eps,
        resnet_groups: c.norm_num_groups,
        add_upsample: i < n - 1,
    };
    let size = slice_size(c.sliced_attention_size, c.blocks[level].attention_head_dim);
    match level_attention(c, level, size, flash) {
        Some(a) => UNetUpBlock::CrossAttn(stack, a),
        None => UNetUpBlock::Basic(stack),
    }
}

/// The mid block: the width and heads of the last level, and its transformer depth, or 1.
pub open spec fn mid_block(c: &UNet2DConditionModelConfig, flash: bool) -> UNetMidBlock2DCrossAttn {
    let last = c.blocks[c.blocks.len() - 1];
    UNetMidBlock2DCrossAttn {
        part: Part::MidBlock,
        in_channels: last.out_channels,
        temb_channels: (c.blocks[0].out_channels * 4) as usize,
        use_flash_attn: flash,
        resnet_eps: c.norm_eps,
        output_scale_factor: c.mid_block_scale_factor,
        cross_attn_dim: c.cross_attention_dim,
        attn_num_head_channels: last.attention_head_dim,
        resnet_groups: c.norm_num_groups,
        use_linear_projection: c.use_linear_projection,
        transformer_layers_per_block: match last.use_cross_attn {
            Some(d) => d,
            None => 1,
        },
    }
}

/// A 3x3 convolution of padding 1 and the given stride.
pub open spec fn conv3(part: Part, in_channels: usize, out_channels: usize, stride: usize) -> Conv2d {
    Conv2d { part, in_channels, out_channels, kernel_size: 3, padding: 1, stride }
}

/// Builds the down block of level `i`.
pub(crate) fn build_down_block(
    c: &UNet2DConditionModelConfig,
    i: usize,
    sliced_attention_size: Option<usize>,
    flash: bool,
) -> (r: UNetDownBlock)
    requires
        c.valid(),
        i < c.blocks.len(),
    ensures
        r == down_block(c, i as int, sliced_attention_size, flash),
{
    let b = c.blocks[i];
    let stack = DownBlock2D {
        part: Part::DownBlock(i),
        in_channels: if i > 0 {
            c.blocks[i - 1].out_channels
        } else {
            c.blocks[0].out_channels
        },
        out_channels: b.out_channels,
        temb_channels: c.blocks[0].out_channels * 4,
        num_layers: c.layers_per_block,
        resnet_eps: c.norm_eps,
        resnet_groups: c.norm_num_groups,
        add_downsample: i < c.blocks.len() - 1,
        downsample_padding: c.downsample_padding,
    };
    match b.use_cross_attn {
        Some(d) => UNetDownBlock::CrossAttn(
            stack,
            Attention {
                attn_num_head_channels: b.attention_head_dim,
                cross_attention_dim: c.cross_attention_dim,
                sliced_attention_size,
                use_linear_projection: c.use_linear_projection,
                transformer_layers_per_block: d,
                use_flash_attn: flash,
            },
        ),
        None => UNetDownBlock::Basic(stack),
    }
}

/// Builds the mid block.
pub(crate) fn build_mid_block(c: &UNet2DConditionModelConfig, flash: bool) -> (r:
    UNetMidBlock2DCrossAttn)
    requires
        c.valid(),
    ensures
        r == mid_block(c, flash),
{
    let last = c.blocks[c.blocks.len() - 1];
    UNetMidBlock2DCrossAttn {
        part: Part::MidBlock,
        in_channels: last.out_channels,
        temb_channels: c.blocks[0].out_channels * 4,
        use_flash_attn: flash,
        resnet_eps: c.norm_eps,
        output_scale_factor: c.mid_block_scale_factor,
        cross_attn_dim: c.cross_attention_dim,
        attn_num_head_channels: last.attention_head_dim,
        resnet_groups: c.norm_num_groups,
        use_linear_projection: c.use_linear_projection,
        transformer_layers_per_block: match last.use_cross_attn {
            Some(d) => d,
            None => 1,
        },
    }
}

/// Builds the `i`-th up block.
fn build_up_block(c: &UNet2DConditionModelConfig, i: usize, flash: bool) -> (r: UNetUpBlock)
    requires
        c.valid(),
        i < c.blocks.len(),
    ensures
        r == up_block(c, i as int, flash),
{
    let n: usize = c.blocks.len();
    let level: usize = n - 1 - i;
    let b = c.blocks[level];
    let prev: usize = if i > 0 {
        n - i
    } else {
        level
    };
    let above: usize = if i == n - 1 {
        0
    } else {
        n - i - 2
    };
    proof {
        assert(c.layers_per_block + 1 <= usize::MAX) by (nonlinear_arith)
            requires
                c.blocks.len() >= 1,
                c.blocks.len() * (c.layers_per_block + 1) <= usize::MAX,
        ;
    }
    let stack = UpBlock2D {
        part: Part::UpBlock(i),
        in_channels: c.blocks[above].out_channels,
        prev_output_channels: c.blocks[prev].out_channels,
        out_channels: b.out_channels,
        temb_channels: c.blocks[0].out_channels * 4,
        num_layers: c.layers_per_block + 1,
        resnet_eps: c.norm_eps,
        resnet_groups: c.norm_num_groups,
        add_upsample: i < n - 1,
    };
    match b.use_cross_attn {
        Some(d) => UNetUpBlock::CrossAttn(
            stack,
            Attention {
                attn_num_head_channels: b.attention_head_dim,
                cross_attention_dim: c.cross_attention_dim,
                sliced_attention_size: sliced(c.sliced_attention_size, b.attention_head_dim),
                use_linear_projection: c.use_linear_projection,
                transformer_layers_per_block: d,
                use_flash_attn: flash,
            },
        ),
        None => UNetUpBlock::Basic(stack),
    }
}

/// The layer stack of a UNet.
#[derive(Clone, Debug)]
pub struct UNet2DConditionModel {
    pub conv_in: Conv2d,
    pub time_proj: Timesteps,
    pub time_embedding: TimestepEmbedding,
    pub down_blocks: Vec<UNetDownBlock>,
    pub mid_block: UNetMidBlock2DCrossAttn,
    pub up_blocks: Vec<UNetUpBlock>,
    pub conv_norm_out: GroupNorm,
    pub conv_out: Conv2d,
    /// The micro-conditioning head, absent until it is loaded.
    pub add_time_proj: Option<Timesteps>,
    pub add_embedding: Option<TimestepEmbedding>,
    pub addition_time_embed_dim: usize,
    pub config: UNet2DConditionModelConfig,
}

impl UNet2DConditionModel {
    /// The stack is the one that its configuration describes.
    pub open spec fn built(&self, in_channels: usize, out_channels: usize, flash: bool) -> bool {
        let c = &self.config;
        let n = c.blocks.len() as int;
        let width = c.blocks[0].out_channels;
        &&& c.valid()
        &&& self.conv_in == conv3(Part::ConvIn, in_channels, width, 1)
        &&& self.time_proj == Timesteps {
            num_channels: width,
            flip_sin_to_cos: c.flip_sin_to_cos,
            freq_shift: c.freq_shift,
        }
        &&& self.time_embedding == TimestepEmbedding {
            part: Part::TimeEmbedding,
            channel: width,
            time_embed_dim: (width * 4) as usize,
        }
        &&& self.down_blocks@ == Seq::new(
            n as nat,
            |i: int|
                down_block(
                    c,
                    i,
                    slice_size(c.sliced_attention_size, c.blocks[i].attention_head_dim),
                    flash,
                ),
        )
        &&& self.mid_block == mid_block(c, flash)
        &&& self.up_blocks@ == Seq::new(n as nat, |i: int| up_block(c, i, flash))
        &&& self.conv_norm_out == GroupNorm {
            part: Part::ConvNormOut,
            num_groups: c.norm_num_groups,
            num_channels: width,
            eps: c.norm_eps,
        }
        &&& self.conv_out == conv3(Part::ConvOut, width, out_channels, 1)
    }

    /// The stack is built from its configuration, for some channel counts.
    pub open spec fn wf(&self) -> bool {
        self.built(
            self.conv_in.in_channels,
            self.conv_out.out_channels,
            self.mid_block.use_flash_attn,
        )
    }

    /// Lays out the UNet of `config`: the input convolution and time embedding, one down block per
    /// level, the mid block, the mirrored up blocks and the output head.
    pub fn new(
        in_channels: usize,
        out_channels: usize,
        use_flash_attn: bool,
        config: UNet2DConditionModelConfig,
    ) -> (r: Self)
        requires
            config.valid(),
        ensures
            r.config == config,
            r.built(in_channels, out_channels, use_flash_attn),
            r.add_time_proj is None && r.add_embedding is None && r.addition_time_embed_dim == 0,
    {
        let n: usize = config.blocks.len();
        let width: usize = config.blocks[0].out_channels;
        let mut down_blocks: Vec<UNetDownBlock> = Vec::new();
        let mut i: usize = 0;
        while i < n
            invariant
                i <= n,
                n == config.blocks.len(),
                config.valid(),
                down_blocks@ == Seq::new(
                    i as nat,
                    |k: int|
                        down_block(
                            &config,
                            k,
                            slice_size(
                                config.sliced_attention_size,
                                config.blocks[k].attention_head_dim,
                            ),
                            use_flash_attn,
                        ),
                ),
            decreases n - i,
        {
            let size = sliced(config.sliced_attention_size, config.blocks[i].attention_head_dim);
            down_blocks.push(build_down_block(&config, i, size, use_flash_attn));
            i += 1;
        }
        let mid_block = build_mid_block(&config, use_flash_attn);
        let mut up_blocks: Vec<UNetUpBlock> = Vec::new();
        let mut j: usize = 0;
        while j < n
            invariant
                j <= n,
                n == config.blocks.len(),
                config.valid(),
                up_blocks@ == Seq::new(j as nat, |k: int| up_block(&config, k, use_flash_attn)),
            decreases n - j,
        {
            up_blocks.push(build_up_block(&config, j, use_flash_attn));
            j += 1;
        }
        UNet2DConditionModel {
            conv_in: Conv2d {
                part: Part::ConvIn,
                in_channels,
                out_channels: width,
                kernel_size: 3,
                padding: 1,
                stride: 1,
            },
            time_proj: Timesteps {
                num_channels: width,
                flip_sin_to_cos: config.flip_sin_to_cos,
                freq_shift: config.freq_shift,
            },
            time_embedding: TimestepEmbedding {
                part: Part::TimeEmbedding,
                channel: width,
                time_embed_dim: width * 4,
            },
            down_blocks,
            mid_block,
            up_blocks,
            conv_norm_out: GroupNorm {
                part: Part::ConvNormOut,
                num_groups: config.norm_num_groups,
                num_channels: width,
                eps: config.norm_eps,
            },
            conv_out: Conv2d {
                part: Part::ConvOut,
                in_channels: width,
                out_channels,
                kernel_size: 3,
                padding: 1,
                stride: 1,
            },
            add_time_proj: None,
            add_embedding: None,
            addition_time_embed_dim: 0,
            config,
        }
    }
}

/// What one up block of a forward pass consumes.
#[derive(Clone, Copy, Debug, PartialEq, Eq)]
pub struct UpCall {
    pub block: usize,
    /// The index of the first of the block's skip residuals in the collected list.
    pub first_skip: usize,
    pub n_skips: usize,
    /// The size to upsample to, where the input does not divide evenly.
    pub upsample_size: Option<(usize, usize)>,
}

/// The decisions of one forward pass through the blocks.
#[derive(Clone, Debug)]
pub struct BlockPlan {
    /// Rescale the input from `[0, 1]` to `[-1, 1]` before the input convolution.
    pub center_input: bool,
    /// Add the given residuals to the collected skips, index by index.
    pub add_skip_residuals: bool,
    /// Add the given residual to the mid output.
    pub add_mid_residual: bool,
    pub ups: Vec<UpCall>,
}

/// The input does not divide by the overall upsampling factor of `n` levels.
pub open spec fn uneven(height: usize, width: usize, n: nat) -> bool {
    let factor = pow2((n - 1) as nat) as int;
    height as int % factor != 0 || width as int % factor != 0
}

/// The call of up block `i`: it pops the last `layers_per_block + 1` residuals that are left, and
/// where sizes are uneven it upsamples to the last one that then remains. The final block keeps the
/// size chosen before it.
pub open spec fn up_call(
    c: &UNet2DConditionModelConfig,
    sizes: Seq<(usize, usize)>,
    odd: bool,
    i: int,
) -> UpCall {
    let n = c.blocks.len() as int;
    let per = c.layers_per_block + 1;
    let chosen = if i < n - 1 {
        i
    } else {
        n - 2
    };
    UpCall {
        block: i as usize,
        first_skip: ((n - 1 - i) * per) as usize,
        n_skips: per as usize,
        upsample_size: if odd {
            Some(sizes[(n - 1 - chosen) * per - 1])
        } else {
            None
        },
    }
}

impl BlockPlan {
    /// The plan is that of one pass of `m`, with or without extra residuals.
    pub open spec fn is_pass(
        &self,
        m: &UNet2DConditionModel,
        height: usize,
        width: usize,
        sizes: Seq<(usize, usize)>,
        skips: bool,
        mid: bool,
    ) -> bool {
        let n = m.config.blocks.len();
        &&& self.center_input == m.config.center_input_sample
        &&& self.add_skip_residuals == skips
        &&& self.add_mid_residual == mid
        &&& self.ups@ == Seq::new(
            n as nat,
            |i: int| up_call(&m.config, sizes, uneven(height, width, n as nat), i),
        )
    }
}

/// Extra residuals change a pass in nothing but that they are added: a pass that is given them
/// otherwise takes the same skips, in the same order and sizes, as one that is not.
pub proof fn law_control_residuals_keep_the_pass(
    m: &UNet2DConditionModel,
    height: usize,
    width: usize,
    sizes: Seq<(usize, usize)>,
    plain: BlockPlan,
    controlled: BlockPlan,
    mid: bool,
)
    requires
        plain.is_pass(m, height, width, sizes, false, false),
        controlled.is_pass(m, height, width, sizes, true, mid),
    ensures
        plain.ups@ == controlled.ups@,
        plain.center_input == controlled.center_input,
        !plain.add_skip_residuals && !plain.add_mid_residual,
        controlled.add_skip_residuals && controlled.add_mid_residual == mid,
{
}

/// The number of residuals collected by the input convolution and the first `k` down blocks.
pub open spec fn collected(blocks: Seq<UNetDownBlock>, k: int) -> int
    decreases k,
{
    if k <= 0 {
        1
    } else {
        collected(blocks, k - 1) + blocks[k - 1].residuals()
    }
}

/// The channel count of the `k`-th collected residual: the input convolution's, then each level's
/// resnets and downsampler.
pub open spec fn residual_channel(c: &UNet2DConditionModelConfig, k: int) -> usize {
    if k == 0 {
        c.blocks[0].out_channels
    } else {
        c.blocks[(k - 1) / (c.layers_per_block + 1)].out_channels
    }
}

/// One recomputable stage of a checkpointed backward pass.
#[derive(Clone, Copy, Debug, PartialEq, Eq, Structural)]
pub enum Segment {
    Down(usize),
    Mid,
    Up { block: usize, n_resnets: usize },
}

/// The number of residuals that the state vector holds before segment `k`.
pub open spec fn residuals_before(m: &UNet2DConditionModel, segs: Seq<Segment>, k: int) -> int
    decreases k,
{
    if k <= 0 {
        1
    } else {
        residuals_before(m, segs, k - 1) + match segs[k - 1] {
            Segment::Down(i) => m.down_blocks[i as int].residuals(),
            Segment::Mid => 0,
            Segment::Up { block: _, n_resnets } => -(n_resnets as int),
        }
    }
}

/// The state after a down segment: the new hidden, the residuals so far, the block's own.
pub open spec fn down_state<T>(state: Seq<T>, hidden: T, residuals: Seq<T>) -> Seq<T> {
    seq![hidden] + state.skip(1) + residuals
}

/// The state after the mid segment: the new hidden, the residuals untouched.
pub open spec fn mid_state<T>(state: Seq<T>, hidden: T) -> Seq<T> {
    seq![hidden] + state.skip(1)
}

/// The state after a down segment: the new hidden, the residuals so far, the block's own.
pub fn after_down<T>(state: Vec<T>, hidden: T, residuals: Vec<T>) -> (r: Vec<T>)
    requires
        state.len() > 0,
    ensures
        r@ == down_state(state@, hidden, residuals@),
{
    let ghost before = state@;
    let mut out = state;
    let mut res = residuals;
    out.set(0, hidden);
    out.append(&mut res);
    proof {
        assert(out@ =~= seq![hidden] + before.skip(1) + residuals@);
    }
    out
}

/// The state after the mid segment: the new hidden, the residuals untouched.
pub fn after_mid<T>(state: Vec<T>, hidden: T) -> (r: Vec<T>)
    requires
        state.len() > 0,
    ensures
        r@ == mid_state(state@, hidden),
{
    let ghost before = state@;
    let mut out = state;
    out.set(0, hidden);
    proof {
        assert(out@ =~= seq![hidden] + before.skip(1));
    }
    out
}

/// Splits the last `n` residuals off the state, for an up segment to consume.
pub fn split_skips<T>(state: Vec<T>, n: usize) -> (r: (Vec<T>, Vec<T>))
    requires
        n < state.len(),
    ensures
        r.0@ == state@.take(state.len() - n),
        r.1@ == state@.skip(state.len() - n),
{
    let mut rest = state;
    let at: usize = rest.len() - n;
    let skips = rest.split_off(at);
    proof {
        assert(rest@ =~= state@.take(at as int));
        assert(skips@ =~= state@.skip(at as int));
    }
    (rest, skips)
}

impl UNet2DConditionModel {
    /// Plans one pass through the blocks for an input of `height` by `width`, given the spatial
    /// sizes of the residuals that the down pass collected. `additional` is the number of extra
    /// down residuals, where a control branch supplies them.
    pub fn run_blocks(
        &self,
        height: usize,
        width: usize,
        residual_sizes: &Vec<(usize, usize)>,
        additional: Option<usize>,
        mid_additional: bool,
    ) -> (r: BlockPlan)
        requires
            self.wf(),
            pow2((self.config.blocks.len() - 1) as nat) <= usize::MAX,
            residual_sizes.len() == self.config.residual_count(),
            additional matches Some(k) ==> k == self.config.residual_count(),
        ensures
            r.is_pass(self, height, width, residual_sizes@, additional.is_some(), mid_additional),
    {
        let n: usize = self.config.blocks.len();
        let ghost per = self.config.layers_per_block + 1;
        let ghost odd_spec = uneven(height, width, n as nat);
        let mut factor: usize = 1;
        let mut level: usize = 1;
        proof {
            assert(pow2(0) == 1) by {
                vstd::arithmetic::power2::lemma2_to64();
            }
        }
        while level < n
            invariant
                1 <= level <= n,
                factor == pow2((level - 1) as nat),
                pow2((n - 1) as nat) <= usize::MAX,
            decreases n - level,
        {
            proof {
                lemma_pow2_unfold(level as nat);
                if level < n - 1 {
                    vstd::arithmetic::power2::lemma_pow2_strictly_increases(
                        level as nat,
                        (n - 1) as nat,
                    );
                }
            }
            factor = factor * 2;
            level += 1;
        }
        proof {
            vstd::arithmetic::power2::lemma_pow2_pos((n - 1) as nat);
        }
        let odd = height % factor != 0 || width % factor != 0;
        proof {
            if n == 1 {
                assert(height as int % 1 == 0 && width as int % 1 == 0);
            }
        }
        let mut ups: Vec<UpCall> = Vec::new();
        let mut upsample_size: Option<(usize, usize)> = None;
        let mut left: usize = residual_sizes.len();
        let mut i: usize = 0;
        while i < n
            invariant
                i <= n,
                n == self.config.blocks.len(),
                per == self.config.layers_per_block + 1,
                self.wf(),
                odd == odd_spec,
                n == 1 ==> !odd,
                residual_sizes.len() == n * per,
                left == (n - i) * per,
                i > 0 && i < n ==> upsample_size == (if odd {
                    Some(residual_sizes[(n - i) * per - 1])
                } else {
                    None
                }),
                i == 0 ==> upsample_size is None,
                ups@ == Seq::new(
                    i as nat,
                    |k: int| up_call(&self.config, residual_sizes@, odd_spec, k),
                ),
            decreases n - i,
        {
            let take: usize = self.up_blocks[i].n_resnets();
            proof {
                assert(self.up_blocks@[i as int] == up_block(
                    &self.config,
                    i as int,
                    self.mid_block.use_flash_attn,
                ));
                assert(per <= usize::MAX) by (nonlinear_arith)
                    requires
                        n >= 1,
                        n * per <= usize::MAX,
                ;
                assert(take == per);
                assert((n - i) * per == (n - 1 - i) * per + per) by (nonlinear_arith);
                assert((n - 1 - i) * per >= 0) by (nonlinear_arith)
                    requires
                        n - 1 - i >= 0,
                        per >= 1,
                ;
                assert((n - i) * per <= n * per) by (nonlinear_arith)
                    requires
                        0 <= i,
                        per >= 1,
                ;
                if i < n - 1 {
                    assert((n - 1 - i) * per >= 1) by (nonlinear_arith)
                        requires
                            n - 1 - i >= 1,
                            per >= 1,
                    ;
                }
            }
            left -= take;
            if i < n - 1 && odd {
                upsample_size = Some(residual_sizes[left - 1]);
            }
            ups.push(UpCall { block: i, first_skip: left, n_skips: take, upsample_size });
            i += 1;
        }
        BlockPlan {
            center_input: self.config.center_input_sample,
            add_skip_residuals: additional.is_some(),
            add_mid_residual: mid_additional,
            ups,
        }
    }

    /// The stages of a checkpointed backward pass: every down block, the mid block, every up block.
    pub fn block_segments(&self) -> (r: Vec<Segment>)
        requires
            self.wf(),
        ensures
            r@ == Seq::new(
                2 * self.config.blocks.len() as nat + 1,
                |k: int| segment(&self.config, k),
            ),
    {
        let n: usize = self.config.blocks.len();
        let mut segs: Vec<Segment> = Vec::new();
        let mut i: usize = 0;
        while i < n
            invariant
                i <= n,
                n == self.config.blocks.len(),
                segs@ == Seq::new(i as nat, |k: int| segment(&self.config, k)),
            decreases n - i,
        {
            segs.push(Segment::Down(i));
            i += 1;
        }
        segs.push(Segment::Mid);
        let mut j: usize = 0;
        while j < n
            invariant
                j <= n,
                n == self.config.blocks.len(),
                self.wf(),
                segs@ == Seq::new((n + 1 + j) as nat, |k: int| segment(&self.config, k)),
            decreases n - j,
        {
            let n_resnets: usize = self.up_blocks[j].n_resnets();
            segs.push(Segment::Up { block: j, n_resnets });
            j += 1;
        }
        segs
    }
}

/// The `k`-th segment of a checkpointed pass.
pub open spec fn segment(c: &UNet2DConditionModelConfig, k: int) -> Segment {
    let n = c.blocks.len() as int;
    if k < n {
        Segment::Down(k as usize)
    } else if k == n {
        Segment::Mid
    } else {
        Segment::Up {
            block: (k - n - 1) as usize,
            n_resnets: (c.layers_per_block + 1) as usize,
        }
    }
}

/// The down pass collects exactly as many residuals as the up pass consumes: `layers_per_block + 1`
/// for each level.
pub proof fn law_skips_balance(m: &UNet2DConditionModel)
    requires
        m.wf(),
    ensures
        collected(m.down_blocks@, m.config.blocks.len() as int) == m.config.residual_count(),
        m.up_blocks.len() == m.config.blocks.len(),
        forall|i: int|
            0 <= i < m.up_blocks.len() ==> (#[trigger] m.up_blocks[i]).resnets().num_layers
                == m.config.layers_per_block + 1,
{
    let n = m.config.blocks.len() as int;
    let per = m.config.layers_per_block + 1;
    lemma_collected(m, n);
    assert(per <= usize::MAX) by (nonlinear_arith)
        requires
            n >= 1,
            n * per <= usize::MAX,
    ;
    assert((n - 1) * per + per == n * per) by (nonlinear_arith);
}

proof fn lemma_collected(m: &UNet2DConditionModel, k: int)
    requires
        m.wf(),
        0 <= k <= m.config.blocks.len(),
    ensures
        collected(m.down_blocks@, k) == (if k < m.config.blocks.len() {
            1 + k * (m.config.layers_per_block + 1)
        } else {
            k * (m.config.layers_per_block + 1)
        }),
    decreases k,
{
    let per = m.config.layers_per_block + 1;
    if k > 0 {
        lemma_collected(m, k - 1);
        assert((k - 1) * per + per == k * per) by (nonlinear_arith);
    }
}

/// Every resnet of every up block is fed a skip of the channel count it was built for: its own
/// level's output width, and for the last resnet the width of the level above.
pub proof fn law_skip_channels_match(c: &UNet2DConditionModelConfig, i: int, j: int, flash: bool)
    requires
        c.valid(),
        0 <= i < c.blocks.len(),
        0 <= j <= c.layers_per_block,
    ensures
        ({
            let up = up_block(c, i, flash).resnets();
            let skip = (c.blocks.len() - 1 - i) * (c.layers_per_block + 1) + c.layers_per_block - j;
            0 <= skip < c.residual_count() && residual_channel(c, skip) == (if j
                == c.layers_per_block {
                up.in_channels
            } else {
                up.out_channels
            })
        }),
{
    let per = c.layers_per_block + 1;
    let level = c.blocks.len() - 1 - i;
    let skip = level * per + c.layers_per_block - j;
    assert(level * per >= 0) by (nonlinear_arith)
        requires
            level >= 0,
            per >= 1,
    ;
    assert(level * per + per <= c.blocks.len() * per) by (nonlinear_arith)
        requires
            level + 1 <= c.blocks.len(),
            per >= 1,
    ;
    if j < c.layers_per_block {
        let r = c.layers_per_block - j - 1;
        vstd::arithmetic::div_mod::lemma_fundamental_div_mod_converse(skip - 1, per, level, r);
    } else if level > 0 {
        assert(level * per - 1 == (level - 1) * per + (per - 1)) by (nonlinear_arith);
        vstd::arithmetic::div_mod::lemma_fundamental_div_mod_converse(
            skip - 1,
            per,
            level - 1,
            per - 1,
        );
        assert(level * per >= 1) by (nonlinear_arith)
            requires
                level >= 1,
                per >= 1,
        ;
    } else {
        assert(level * per == 0) by (nonlinear_arith)
            requires
                level == 0,
        ;
    }
}

/// The checkpointed stages consume the skips that the plain forward pass consumes: before up stage
/// `j` the state holds the residuals up to the end of that block's range, and none are left at the
/// end.
pub proof fn law_segments_reproduce_forward(
    m: &UNet2DConditionModel,
    sizes: Seq<(usize, usize)>,
    odd: bool,
    j: int,
)
    requires
        m.wf(),
        0 <= j < m.config.blocks.len(),
    ensures
        ({
            let n = m.config.blocks.len() as int;
            let segs = Seq::new((2 * n + 1) as nat, |k: int| segment(&m.config, k));
            let call = up_call(&m.config, sizes, odd, j);
            &&& segs[n + 1 + j] == Segment::Up { block: call.block, n_resnets: call.n_skips }
            &&& residuals_before(m, segs, n + 1 + j) == call.first_skip + call.n_skips
            &&& residuals_before(m, segs, 2 * n + 1) == 0
        }),
{
    let n = m.config.blocks.len() as int;
    let per = m.config.layers_per_block + 1;
    let segs = Seq::new((2 * n + 1) as nat, |k: int| segment(&m.config, k));
    assert(per <= usize::MAX) by (nonlinear_arith)
        requires
            n >= 1,
            n * per <= usize::MAX,
    ;
    lemma_residuals_before_down(m, segs, n);
    law_skips_balance(m);
    lemma_residuals_before_up(m, segs, j);
    lemma_residuals_before_up(m, segs, n);
    assert((n - j) * per == (n - 1 - j) * per + per) by (nonlinear_arith);
    assert((n - n) * per == 0) by (nonlinear_arith);
    assert(0 <= (n - 1 - j) * per <= n * per) by (nonlinear_arith)
        requires
            0 <= j < n,
            per >= 1,
    ;
}

proof fn lemma_residuals_before_down(m: &UNet2DConditionModel, segs: Seq<Segment>, k: int)
    requires
        m.wf(),
        0 <= k <= m.config.blocks.len(),
        segs == Seq::new(
            (2 * m.config.blocks.len() + 1) as nat,
            |k: int| segment(&m.config, k),
        ),
    ensures
        residuals_before(m, segs, k) == collected(m.down_blocks@, k),
    decreases k,
{
    if k > 0 {
        lemma_residuals_before_down(m, segs, k - 1);
        assert(segs[k - 1] == Segment::Down((k - 1) as usize));
    }
}

proof fn lemma_residuals_before_up(m: &UNet2DConditionModel, segs: Seq<Segment>, j: int)
    requires
        m.wf(),
        0 <= j <= m.config.blocks.len(),
        segs == Seq::new(
            (2 * m.config.blocks.len() + 1) as nat,
            |k: int| segment(&m.config, k),
        ),
    ensures
        residuals_before(m, segs, m.config.blocks.len() + 1 + j) == (m.config.blocks.len() - j) * (
        m.config.layers_per_block + 1),
    decreases j,
{
    let n = m.config.blocks.len() as int;
    let per = m.config.layers_per_block + 1;
    if j == 0 {
        lemma_residuals_before_down(m, segs, n);
        law_skips_balance(m);
        assert(segs[n] == Segment::Mid);
    } else {
        lemma_residuals_before_up(m, segs, j - 1);
        assert(per <= usize::MAX) by (nonlinear_arith)
            requires
                n >= 1,
                n * per <= usize::MAX,
        ;
        assert(segs[n + j] == Segment::Up { block: (j - 1) as usize, n_resnets: per as usize });
        assert((n - (j - 1)) * per == (n - j) * per + per) by (nonlinear_arith);
    }
}

/// What one module yields is what the next one takes, in the order in which a pass runs them: the
/// channels go from the input convolution down the levels, through the mid block, up again and out
/// of the head. The time embedding is made for the widest module it feeds, and all of them take it.
pub proof fn law_modules_fit_together(m: &UNet2DConditionModel)
    requires
        m.wf(),
    ensures
        ({
            let n = m.down_blocks.len() as int;
            let d = |i: int| m.down_blocks[i].resnets();
            let u = |i: int| m.up_blocks[i].resnets();
            &&& n == m.config.blocks.len() && n == m.up_blocks.len()
            &&& d(0).in_channels == m.conv_in.out_channels
            &&& forall|i: int|
                0 < i < n ==> (#[trigger] m.down_blocks[i]).resnets().in_channels == d(
                    i - 1,
                ).out_channels
            &&& m.mid_block.in_channels == d(n - 1).out_channels
            &&& u(0).prev_output_channels == m.mid_block.in_channels
            &&& forall|i: int|
                0 < i < n ==> (#[trigger] m.up_blocks[i]).resnets().prev_output_channels == u(
                    i - 1,
                ).out_channels
            &&& m.conv_norm_out.num_channels == u(n - 1).out_channels
            &&& m.conv_out.in_channels == m.conv_norm_out.num_channels
            &&& m.time_embedding.channel == m.time_proj.num_channels
            &&& m.time_proj.num_channels == m.conv_in.out_channels
            &&& m.time_embedding.time_embed_dim == 4 * m.time_embedding.channel
            &&& m.mid_block.temb_channels == m.time_embedding.time_embed_dim
            &&& forall|i: int|
                0 <= i < n ==> (#[trigger] m.down_blocks[i]).resnets().temb_channels
                    == m.time_embedding.time_embed_dim
            &&& forall|i: int|
                0 <= i < n ==> (#[trigger] m.up_blocks[i]).resnets().temb_channels
                    == m.time_embedding.time_embed_dim
        }),
{
}

/// Each level is configured once, for its way down and its way up: both have the level's channels,
/// and spatial transformers of its depth and heads where it has a depth, none where it has not. Every
/// level but the last halves its input, and is undone by an upsampler on the way back.
pub proof fn law_levels_are_mirrored(m: &UNet2DConditionModel, level: int)
    requires
        m.wf(),
        0 <= level < m.config.blocks.len(),
    ensures
        ({
            let n = m.config.blocks.len() as int;
            let b = m.config.blocks[level];
            let down = m.down_blocks[level];
            let up = m.up_blocks[n - 1 - level];
            &&& down.resnets().out_channels == b.out_channels
            &&& up.resnets().out_channels == b.out_channels
            &&& down.resnets().num_layers == m.config.layers_per_block
            &&& up.resnets().num_layers == down.resnets().num_layers + 1
            &&& down.resnets().add_downsample <==> level + 1 < n
            &&& up.resnets().add_upsample <==> level > 0
            &&& down.resnets().part == Part::DownBlock(level as usize)
            &&& up.resnets().part == Part::UpBlock((n - 1 - level) as usize)
            &&& down is CrossAttn <==> b.use_cross_attn is Some
            &&& up is CrossAttn <==> b.use_cross_attn is Some
            &&& down matches UNetDownBlock::CrossAttn(_, a) ==> {
                &&& up == UNetUpBlock::CrossAttn(up.resnets(), a)
                &&& b.use_cross_attn == Some(a.transformer_layers_per_block)
                &&& a.attn_num_head_channels == b.attention_head_dim
                &&& a.cross_attention_dim == m.config.cross_attention_dim
                &&& a.use_linear_projection == m.config.use_linear_projection
                &&& a.use_flash_attn == m.mid_block.use_flash_attn
                &&& m.config.sliced_attention_size is None ==> a.sliced_attention_size is None
            }
            &&& down.resnets().downsample_padding == m.config.downsample_padding
        }),
{
    let per = m.config.layers_per_block + 1;
    let n = m.config.blocks.len() as int;
    assert(per <= usize::MAX) by (nonlinear_arith)
        requires
            n >= 1,
            n * per <= usize::MAX,
    ;
    assert(n - 1 - (n - 1 - level) == level);
}

/// One normalisation serves the whole UNet: every resnet and the head have the configured groups and
/// epsilon.
pub proof fn law_modules_share_their_normalisation(m: &UNet2DConditionModel, i: int)
    requires
        m.wf(),
        0 <= i < m.config.blocks.len(),
    ensures
        m.down_blocks[i].resnets().resnet_groups == m.config.norm_num_groups,
        m.down_blocks[i].resnets().resnet_eps == m.config.norm_eps,
        m.up_blocks[i].resnets().resnet_groups == m.config.norm_num_groups,
        m.up_blocks[i].resnets().resnet_eps == m.config.norm_eps,
        m.mid_block.resnet_groups == m.conv_norm_out.num_groups,
        m.mid_block.resnet_eps == m.conv_norm_out.eps,
        m.conv_norm_out.num_groups == m.config.norm_num_groups,
        m.conv_norm_out.eps == m.config.norm_eps,
{
}

/// The mid block is as deep as the last level that it follows, and has a transformer even where that
/// level has none; it attends with the level's heads.
pub proof fn law_mid_block_is_that_of_the_last_level(m: &UNet2DConditionModel)
    requires
        m.wf(),
    ensures
        ({
            let last = m.config.blocks@.last();
            let depth = m.mid_block.transformer_layers_per_block;
            &&& last.use_cross_attn is Some ==> last.use_cross_attn == Some(depth)
            &&& last.use_cross_attn is None ==> depth == 1
            &&& m.mid_block.attn_num_head_channels == last.attention_head_dim
            &&& m.mid_block.cross_attn_dim == m.config.cross_attention_dim
            &&& m.mid_block.output_scale_factor == m.config.mid_block_scale_factor
            &&& m.mid_block.use_linear_projection == m.config.use_linear_projection
            &&& m.mid_block.part == Part::MidBlock
        }),
{
}

/// A convolution of the UNet's own ends keeps the size of what it is given: of kernel 3, it is padded
/// by 1 and has stride 1.
pub proof fn law_ends_keep_the_size(m: &UNet2DConditionModel)
    requires
        m.wf(),
    ensures
        2 * m.conv_in.padding + 1 == m.conv_in.kernel_size && m.conv_in.stride == 1,
        2 * m.conv_out.padding + 1 == m.conv_out.kernel_size && m.conv_out.stride == 1,
        m.conv_in.kernel_size == 3 && m.conv_out.kernel_size == 3,
        m.conv_in.part == Part::ConvIn && m.conv_out.part == Part::ConvOut,
        m.conv_norm_out.part == Part::ConvNormOut,
        m.time_embedding.part == Part::TimeEmbedding,
{
}

/// A slice size that is given is taken, none stays none, and 0 asks for slices of half the head width,
/// rounded down.
pub proof fn law_zero_slices_by_half(configured: Option<usize>, width: usize)
    ensures
        slice_size(None, width) is None,
        configured matches Some(s) ==> {
            &&& s > 0 ==> slice_size(configured, width) == configured
            &&& s == 0 ==> (slice_size(configured, width) matches Some(h) && (2 * h == width || 2 * h
                + 1 == width))
        },
{
}

/// The up pass takes the collected residuals from the end: each block the ones just before those of
/// the block that ran before it, none twice, until none is left.
pub proof fn law_skips_are_taken_from_the_end(
    m: &UNet2DConditionModel,
    height: usize,
    width: usize,
    sizes: Seq<(usize, usize)>,
    skips: bool,
    mid: bool,
    plan: BlockPlan,
)
    requires
        m.wf(),
        plan.is_pass(m, height, width, sizes, skips, mid),
    ensures
        ({
            let n = m.config.blocks.len() as int;
            &&& plan.ups.len() == n
            &&& forall|i: int| 0 <= i < n ==> (#[trigger] plan.ups[i]).block == i
            &&& forall|i: int|
                0 <= i < n ==> (#[trigger] plan.ups[i]).n_skips
                    == m.up_blocks[i].resnets().num_layers
            &&& plan.ups[0].first_skip + plan.ups[0].n_skips == m.config.residual_count()
            &&& forall|i: int|
                0 < i < n ==> (#[trigger] plan.ups[i]).first_skip + plan.ups[i].n_skips
                    == plan.ups[i - 1].first_skip
            &&& plan.ups[n - 1].first_skip == 0
        }),
{
    let n = m.config.blocks.len() as int;
    let per = m.config.layers_per_block + 1;
    assert(per <= usize::MAX) by (nonlinear_arith)
        requires
            n >= 1,
            n * per <= usize::MAX,
    ;
    assert forall|i: int| 0 <= i < n implies (#[trigger] plan.ups[i]).first_skip == (n - 1 - i) * per
        && plan.ups[i].n_skips == per && plan.ups[i].block == i by {
        assert(0 <= (n - 1 - i) * per <= n * per) by (nonlinear_arith)
            requires
                0 <= i < n,
                per >= 1,
        ;
        assert(plan.ups@[i] == up_call(&m.config, sizes, uneven(height, width, n as nat), i));
    }
    assert((n - 1 - 0) * per + per == n * per) by (nonlinear_arith);
    assert((n - 1 - (n - 1)) * per == 0) by (nonlinear_arith);
    assert forall|i: int| 0 < i < n implies (#[trigger] plan.ups[i]).first_skip + plan.ups[i].n_skips
        == plan.ups[i - 1].first_skip by {
        assert((n - 1 - i) * per + per == (n - 1 - (i - 1)) * per) by (nonlinear_arith);
    }
}

/// An input that halves evenly at every level needs no sizes on the way up. Any other is brought back
/// to the size of the residual that is next to be taken: the one just before the block's own. The last
/// block, after which none is left, keeps the size chosen before it.
pub proof fn law_uneven_inputs_come_back_to_size(
    m: &UNet2DConditionModel,
    height: usize,
    width: usize,
    sizes: Seq<(usize, usize)>,
    skips: bool,
    mid: bool,
    plan: BlockPlan,
)
    requires
        m.wf(),
        plan.is_pass(m, height, width, sizes, skips, mid),
        m.config.blocks.len() > 1,
    ensures
        ({
            let n = m.config.blocks.len() as int;
            let odd = uneven(height, width, n as nat);
            &&& !odd ==> forall|i: int|
                0 <= i < n ==> (#[trigger] plan.ups[i]).upsample_size is None
            &&& odd ==> forall|i: int|
                0 <= i < n - 1 ==> (#[trigger] plan.ups[i]).upsample_size == Some(
                    sizes[plan.ups[i].first_skip - 1],
                )
            &&& plan.ups[n - 1].upsample_size == plan.ups[n - 2].upsample_size
        }),
{
    let n = m.config.blocks.len() as int;
    let per = m.config.layers_per_block + 1;
    let odd = uneven(height, width, n as nat);
    assert forall|i: int| 0 <= i < n implies (#[trigger] plan.ups[i]) == up_call(
        &m.config,
        sizes,
        odd,
        i,
    ) && plan.ups[i].first_skip == (n - 1 - i) * per by {
        assert(0 <= (n - 1 - i) * per <= n * per) by (nonlinear_arith)
            requires
                0 <= i < n,
                per >= 1,
        ;
        assert(plan.ups@[i] == up_call(&m.config, sizes, odd, i));
    }
}

/// Which inputs halve evenly, level by level: all of them where there is one level; with one level
/// more, those of even height and width whose halves do so with one level less.
pub proof fn law_even_inputs_halve_at_every_level(height: usize, width: usize, n: nat)
    requires
        n >= 1,
    ensures
        !uneven(height, width, 1),
        height % 2 != 0 || width % 2 != 0 ==> uneven(height, width, n + 1),
        height % 2 == 0 && width % 2 == 0 ==> uneven(height, width, n + 1) == uneven(
            (height / 2) as usize,
            (width / 2) as usize,
            n,
        ),
{
    assert(pow2(0) == 1) by {
        vstd::arithmetic::power2::lemma2_to64();
    }
    assert(height as int % 1 == 0 && width as int % 1 == 0);
    lemma_pow2_unfold(n);
    let f = pow2((n - 1) as nat) as int;
    vstd::arithmetic::power2::lemma_pow2_pos((n - 1) as nat);
    lemma_halves(height as int, f);
    lemma_halves(width as int, f);
}

/// Division by `2 * f` goes through the half.
proof fn lemma_halves(x: int, f: int)
    requires
        x >= 0,
        f > 0,
    ensures
        x % 2 != 0 ==> x % (2 * f) != 0,
        x % 2 == 0 ==> (x % (2 * f) == 0 <==> (x / 2) % f == 0),
{
    let q = x / (2 * f);
    vstd::arithmetic::div_mod::lemma_fundamental_div_mod(x, 2 * f);
    assert((2 * f) * q == 2 * (f * q)) by (nonlinear_arith);
    if x % 2 == 0 {
        let h = x / 2;
        vstd::arithmetic::div_mod::lemma_fundamental_div_mod(h, f);
        let r = h % f;
        let p = h / f;
        assert(x == (2 * f) * p + 2 * r) by (nonlinear_arith)
            requires
                x == 2 * h,
                h == f * p + r,
        ;
        vstd::arithmetic::div_mod::lemma_fundamental_div_mod_converse(x, 2 * f, p, 2 * r);
    }
}

/// A pass rescales its input, and adds what a control branch gives it, exactly where it is told to.
pub proof fn law_passes_do_as_told(
    m: &UNet2DConditionModel,
    height: usize,
    width: usize,
    sizes: Seq<(usize, usize)>,
    skips: bool,
    mid: bool,
    plan: BlockPlan,
)
    requires
        plan.is_pass(m, height, width, sizes, skips, mid),
    ensures
        plan.center_input <==> m.config.center_input_sample,
        plan.add_skip_residuals <==> skips,
        plan.add_mid_residual <==> mid,
{
}

/// The stages of a checkpointed pass run every block once: the down blocks in order, the mid block
/// once, between them and the up blocks, and the up blocks in order.
pub proof fn law_segments_run_every_block(c: &UNet2DConditionModelConfig, k: int)
    requires
        c.valid(),
        0 <= k <= 2 * c.blocks.len(),
    ensures
        segment(c, k) is Mid <==> k == c.blocks.len(),
        segment(c, k) is Down <==> k < c.blocks.len(),
        segment(c, k) matches Segment::Down(i) ==> i == k,
        segment(c, k) matches Segment::Up { block, .. } ==> block as int + c.blocks.len() + 1 == k,
{
    assert(c.blocks.len() <= usize::MAX);
}

/// What a down stage added is what the next up stage would split off again: behind the hidden state
/// and the residuals that were there before, in the order in which it came.
pub proof fn law_stages_stack_their_residuals<T>(state: Seq<T>, hidden: T, residuals: Seq<T>)
    requires
        state.len() > 0,
    ensures
        ({
            let after = down_state(state, hidden, residuals);
            &&& after.len() == state.len() + residuals.len()
            &&& after[0] == hidden
            &&& after.skip(state.len() as int) == residuals
            &&& after.take(state.len() as int).skip(1) == state.skip(1)
            &&& after.take(state.len() as int) == mid_state(state, hidden)
            &&& mid_state(state, hidden).len() == state.len()
            &&& mid_state(state, hidden)[0] == hidden
            &&& mid_state(state, hidden).skip(1) == state.skip(1)
        }),
{
    let after = down_state(state, hidden, residuals);
    assert(after.skip(state.len() as int) =~= residuals);
    assert(after.take(state.len() as int).skip(1) =~= state.skip(1));
    assert(after.take(state.len() as int) =~= mid_state(state, hidden));
    assert(mid_state(state, hidden).skip(1) =~= state.skip(1));
}

/// The residuals are those of the levels, in order: the input convolution's has the channels of the
/// first level, and each level then yields one for each of its resnets, and one for its downsampler.
pub proof fn law_residuals_have_their_levels_channels(
    c: &UNet2DConditionModelConfig,
    level: int,
    j: int,
)
    requires
        c.valid(),
        0 <= level < c.blocks.len(),
        0 <= j <= c.layers_per_block,
    ensures
        residual_channel(c, 0) == c.blocks[0].out_channels,
        residual_channel(c, 1 + level * (c.layers_per_block + 1) + j) == c.blocks[level].out_channels,
{
    let per = c.layers_per_block + 1;
    assert(level * per >= 0) by (nonlinear_arith)
        requires
            level >= 0,
            per >= 1,
    ;
    vstd::arithmetic::div_mod::lemma_fundamental_div_mod_converse(level * per + j, per, level, j);
}

/// The modules are named by their place in the checkpoint: those of which there are several by the
/// place and their number, the ControlNet's own under its prefix.
pub proof fn law_parts_are_named_by_their_place(i: usize)
    ensures
        Part::ConvIn.key() == "conv_in"@ && Part::ConvOut.key() == "conv_out"@,
        Part::TimeEmbedding.key() == "time_embedding"@ && Part::AddEmbedding.key() == "add_embedding"@,
        Part::ConvNormOut.key() == "conv_norm_out"@ && Part::MidBlock.key() == "mid_block"@,
        Part::DownBlock(i).key() == "down_blocks."@ + decimal(i as nat),
        Part::UpBlock(i).key() == "up_blocks."@ + decimal(i as nat),
        Part::DownHead(i).key() == "controlnet_"@ + Part::DownBlock(i).key(),
        Part::MidHead.key() == "controlnet_"@ + Part::MidBlock.key(),
        Part::CondConvIn.key() == "controlnet_cond_embedding."@ + Part::ConvIn.key(),
        Part::CondConvOut.key() == "controlnet_cond_embedding."@ + Part::ConvOut.key(),
        Part::CondBlock(i).key() == "controlnet_cond_embedding.blocks."@ + decimal(i as nat),
{
    reveal_strlit("conv_in");
    reveal_strlit("conv_out");
    reveal_strlit("mid_block");
    reveal_strlit("down_blocks.");
    reveal_strlit("controlnet_");
    reveal_strlit("controlnet_down_blocks.");
    reveal_strlit("controlnet_mid_block");
    reveal_strlit("controlnet_cond_embedding.");
    reveal_strlit("controlnet_cond_embedding.conv_in");
    reveal_strlit("controlnet_cond_embedding.conv_out");
    assert(Part::DownHead(i).key() =~= "controlnet_"@ + Part::DownBlock(i).key());
    assert(Part::MidHead.key() =~= "controlnet_"@ + Part::MidBlock.key());
    assert(Part::CondConvIn.key() =~= "controlnet_cond_embedding."@ + Part::ConvIn.key());
    assert(Part::CondConvOut.key() =~= "controlnet_cond_embedding."@ + Part::ConvOut.key());
}

} // verus!

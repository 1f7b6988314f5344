//! The parts of the conditioned SDXL models: the UNet with its micro-conditioning head, and the
//! ControlNet's weights.
use super::unet::attention::{downs, ups};
use super::unet::controlnet::{is_sdxl_unet, sdxl_unet_config};
use super::unet::unet_2d::UNet2DConditionModel;
use crate::error::Error;
use crate::request::WeightsSource;
use crate::text::join;
use vstd::prelude::*;

verus! {

/// The width of one embedded time id.
pub const ADDITION_TIME_EMBED_DIM: usize = 256;

/// The input width of the micro-conditioning head: the pooled text and six time ids.
pub const PROJECTION_INPUT_DIM: usize = 2816;

/// Lays out the SDXL UNet with its micro-conditioning head: four latent channels in and out.
pub fn instantid_unet() -> (r: UNet2DConditionModel)
    ensures
        r.wf(),
        is_sdxl_unet(&r.config),
        r.conv_in.in_channels == 4 && r.conv_out.out_channels == 4,
        !r.mid_block.use_flash_attn,
        r.addition_time_embed_dim == ADDITION_TIME_EMBED_DIM,
        r.add_time_proj is Some,
        r.add_embedding matches Some(e) && e.channel == PROJECTION_INPUT_DIM,
{
    UNet2DConditionModel::new(4, 4, false, sdxl_unet_config()).with_add_embedding(
        ADDITION_TIME_EMBED_DIM,
        PROJECTION_INPUT_DIM,
    )
}

/// The weights of a ControlNet.
#[derive(Clone, Copy, Debug, PartialEq, Eq, Structural)]
pub enum ControlNetFile {
    /// The source itself.
    Given,
    /// The full-precision file of the source directory.
    Primary,
    /// The half-precision file of the source directory.
    Fp16,
}

/// Chooses the weights of a ControlNet: a file is used as it is; of a directory the full-precision
/// file is taken, or the half-precision one where that is missing.
pub fn load_sdxl_controlnet(source: &WeightsSource, primary: bool, fp16: bool) -> (r: Result<
    ControlNetFile,
    Error,
>)
    ensures
        match *source {
            WeightsSource::File(_) => r == Ok::<ControlNetFile, Error>(ControlNetFile::Given),
            WeightsSource::Dir(d) => if primary {
                r == Ok::<ControlNetFile, Error>(ControlNetFile::Primary)
            } else if fp16 {
                r == Ok::<ControlNetFile, Error>(ControlNetFile::Fp16)
            } else {
                r matches Err(e) && e.says(
                    "sdxl controlnet: no diffusion_pytorch_model(.fp16).safetensors in "@ + d@,
                )
            },
        },
{
    match source {
        WeightsSource::File(_) => Ok(ControlNetFile::Given),
        WeightsSource::Dir(d) => {
            if primary {
                Ok(ControlNetFile::Primary)
            } else if fp16 {
                Ok(ControlNetFile::Fp16)
            } else {
                Err(
                    Error::Msg(
                        join(
                            "sdxl controlnet: no diffusion_pytorch_model(.fp16).safetensors in ",
                            d.as_str(),
                        ),
                    ),
                )
            }
        },
    }
}

/// The SDXL UNet has 70 cross-attentions, so that an image-prompt adapter brings 70 pairs.
pub proof fn law_sdxl_takes_seventy_pairs(m: &UNet2DConditionModel)
    requires
        m.wf(),
        is_sdxl_unet(&m.config),
    ensures
        m.processor_order().len() == 70,
{
    reveal_with_fuel(downs, 4);
    reveal_with_fuel(ups, 4);
    assert(m.config.blocks.len() == 3);
    assert(m.config.blocks[0].use_cross_attn is None);
    assert(m.config.blocks[1].use_cross_attn == Some(2usize));
    assert(m.config.blocks[2].use_cross_attn == Some(10usize));
    assert(m.config.layers_per_block == 2);
    assert(2nat * 2 == 4 && 2nat * 10 == 20 && 3nat * 10 == 30 && 3nat * 2 == 6);
}

} // verus!

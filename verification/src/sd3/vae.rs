//! The 16-channel autoencoder of SD3.5.
use crate::float::Real64;
use candle_transformers::models::z_image::vae::VaeConfig;
use vstd::arithmetic::power2::{lemma2_to64, pow2};
use vstd::prelude::*;

verus! {

/// The latent channels.
pub const LATENT_CHANNELS: usize = 16;

/// The image pixels of a latent cell, on each side.
pub const SPATIAL_SCALE: u32 = 8;

/// The bits of the double `1.5305`, by which a latent is scaled.
pub const SCALING_FACTOR: u64 = 0x3ff8_7ced_9168_72b0;

/// The bits of the double `0.0609`, by which a latent is shifted.
pub const SHIFT_FACTOR: u64 = 0x3faf_2e48_e8a7_1de7;

/// The geometry of an autoencoder.
#[derive(Clone, Debug)]
pub struct Sd3VaeConfig {
    pub in_channels: usize,
    pub out_channels: usize,
    pub latent_channels: usize,
    pub block_out_channels: Vec<usize>,
    pub layers_per_block: usize,
    pub norm_num_groups: usize,
    pub scaling_factor: Real64,
    pub shift_factor: Real64,
}

/// `candle_transformers`' `z_image::vae::VaeConfig::z_image`, whose geometry is that of SD3.5: three
/// image channels, 16 latent ones, four blocks of two layers and 32 norm groups. Its scale and shift
/// are those of another model, and nothing is said of them.
#[verifier::external_body]
fn z_image_geometry() -> (r: Sd3VaeConfig)
    ensures
        r.in_channels == 3 && r.out_channels == 3 && r.latent_channels == 16,
        r.block_out_channels@ == seq![128usize, 256, 512, 512],
        r.layers_per_block == 2 && r.norm_num_groups == 32,
{
    let c = VaeConfig::z_image();
    Sd3VaeConfig {
        in_channels: c.in_channels,
        out_channels: c.out_channels,
        latent_channels: c.latent_channels,
        block_out_channels: c.block_out_channels,
        layers_per_block: c.layers_per_block,
        norm_num_groups: c.norm_num_groups,
        scaling_factor: Real64 { bits: c.scaling_factor.to_bits() },
        shift_factor: Real64 { bits: c.shift_factor.to_bits() },
    }
}

/// The SD3.5 autoencoder: the shared geometry with its own scale and shift.
pub fn sd3_vae_config() -> (r: Sd3VaeConfig)
    ensures
        r.in_channels == 3 && r.out_channels == 3,
        r.latent_channels == LATENT_CHANNELS,
        r.block_out_channels@ == seq![128usize, 256, 512, 512],
        r.layers_per_block == 2 && r.norm_num_groups == 32,
        r.scaling_factor.bits == SCALING_FACTOR,
        r.shift_factor.bits == SHIFT_FACTOR,
        // Every block but the last halves each side.
        pow2((r.block_out_channels.len() - 1) as nat) == SPATIAL_SCALE,
{
    proof {
        lemma2_to64();
    }
    let geometry = z_image_geometry();
    Sd3VaeConfig {
        scaling_factor: Real64 { bits: SCALING_FACTOR },
        shift_factor: Real64 { bits: SHIFT_FACTOR },
        ..geometry
    }
}

/// The sides of the latent of an image.
pub fn latent_size(width: u32, height: u32) -> (r: (u32, u32))
    ensures
        r.0 == width as int / SPATIAL_SCALE as int,
        r.1 == height as int / SPATIAL_SCALE as int,
        8 * r.0 <= width < 8 * (r.0 + 1),
        8 * r.1 <= height < 8 * (r.1 + 1),
{
    (width / SPATIAL_SCALE, height / SPATIAL_SCALE)
}

} // verus!

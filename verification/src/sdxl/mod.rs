//! The SDXL provider.
pub mod adapters;
pub mod conditioning;
pub mod edit_provider;
pub mod ip_adapter;
pub mod ip_provider;
pub mod loaders;
pub mod naming;
pub mod pipeline;
pub mod provider;
pub mod train_run;
pub mod training;
pub mod render;
pub mod sampler;
pub mod unet;
pub mod vision_encoder;
pub mod weights;

use vstd::prelude::*;

verus! {

/// The registry id of the provider.
pub const MODEL_ID: &'static str = "sdxl";

} // verus!

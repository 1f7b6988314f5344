//! The SDXL UNet and its ControlNet branch.
pub mod attention;
pub mod controlnet;
pub mod unet_2d;

//! The Stable Diffusion 3.5 provider.
pub mod adapters;
pub mod clip_tokenizer;
pub mod conditioning;
pub mod config;
pub mod memory;
pub mod parts;
pub mod provider;
pub mod quant;
pub mod targets;
pub mod transformer;
pub mod vae;

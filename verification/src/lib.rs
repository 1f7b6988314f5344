//! Diffusion model providers.
pub mod adapter;
pub mod charsmap;
pub mod definition;
pub mod error;
pub mod factors;
pub mod float;
pub mod grouping;
pub mod image;
pub mod json;
pub mod provider;
pub mod request;
pub mod rng;
pub mod sd3;
pub mod sdxl;
pub mod text;
pub mod tokenizer;

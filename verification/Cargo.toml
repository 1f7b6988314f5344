[package]
name = "candle_gen_sd"
version = "0.1.0"
edition = "2021"
publish = false

[dependencies]
candle-core = "*"
candle-nn = "*"
candle-transformers = "*"
hf-hub = { version = "*", default-features = false, features = ["ureq"] }
rand = "0.9"
rand_distr = "0.5"
safetensors = "*"
serde_json = "1"
tokenizers = { version = "*", default-features = false, features = ["fancy-regex"] }

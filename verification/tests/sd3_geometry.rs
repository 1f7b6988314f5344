use candle_gen_sd::float::Real32;
use candle_gen_sd::request::Quant;
use candle_gen_sd::sd3::config::{Sd3Config, Variant};
use candle_gen_sd::sd3::memory::{
    dit_param_counts, memory_profile, min_memory_gb, param_counts, Precision,
    ACTIVATION_OVERHEAD_GIB, FRAG_MARGIN, GIB,
};
use candle_gen_sd::sd3::parts::{BlockPart, Part};
use candle_gen_sd::sd3::quant::{bytes_per_param, ggml_dtype, GgmlDType, QLinear, Weight};
use candle_gen_sd::sd3::transformer::{
    unpatchify, BlockStep, GridError, JointBlock, Modulation, Sd3Transformer,
};
use candle_gen_sd::sd3::vae::{
    latent_size, sd3_vae_config, LATENT_CHANNELS, SCALING_FACTOR, SHIFT_FACTOR, SPATIAL_SCALE,
};
use candle_transformers::models::z_image::vae::VaeConfig;

fn tiny_cfg() -> Sd3Config {
    Sd3Config {
        in_channels: 16,
        patch_size: 2,
        pos_embed_max_size: 8,
        inner_dim: 16,
        num_heads: 2,
        head_dim: 8,
        num_layers: 3,
        mlp_ratio: Real32 {
            bits: 2.0f32.to_bits(),
        },
        qk_norm: true,
        context_pre_only_last: true,
        pooled_dim: 2048,
        joint_attention_dim: 4096,
        clip_l_dim: 768,
        clip_g_dim: 1280,
        clip_concat_dim: 2048,
        clip_seq_len: 77,
        t5_seq_len: 8,
        t5_dim: 4096,
        timestep_channels: 16,
        dual_attention_layers: Vec::new(),
    }
}

fn tiny_dual_cfg() -> Sd3Config {
    Sd3Config {
        dual_attention_layers: vec![0],
        ..tiny_cfg()
    }
}

fn quant_cfg() -> Sd3Config {
    Sd3Config {
        inner_dim: 32,
        num_heads: 2,
        head_dim: 16,
        ..tiny_cfg()
    }
}

fn gib(tenths: u64) -> f64 {
    tenths as f64 / 10.0
}

#[test]
fn large_preset_geometry_matches_diffusers() {
    let c = Sd3Config::large();
    assert_eq!(c.inner_dim, c.num_heads * c.head_dim);
    assert_eq!(c.inner_dim, 2432);
    assert_eq!(c.num_heads, 38);
    assert_eq!(c.num_layers, 38);
    assert_eq!(c.clip_l_dim + c.clip_g_dim, c.pooled_dim);
    assert_eq!(c.clip_concat_dim, 2048);
    assert_eq!(c.context_seq_len(), 333);
    assert_eq!(c.t5_dim, c.joint_attention_dim);
    assert_eq!(c.patch_dim(), 64);
}

#[test]
fn t5_length_is_configurable() {
    let mut c = Sd3Config::large();
    assert_eq!(c.context_seq_len(), 333);
    c.t5_seq_len = 512;
    assert_eq!(c.context_seq_len(), 77 + 512);
    c.t5_seq_len = 77;
    assert_eq!(c.context_seq_len(), 154);
}

#[test]
fn large_dit_param_counts_match_published_total() {
    let cfg = Sd3Config::large();
    let (q, dense) = dit_param_counts(&cfg);
    assert!(
        (4_500_000_000..6_500_000_000).contains(&q),
        "Large quantized DiT params {q} outside the ~5.4B expected band"
    );
    let total = q + dense;
    assert!(
        (7_600_000_000..8_500_000_000).contains(&total),
        "Large DiT total {total} not near the published ~8.05B"
    );
}

#[test]
fn medium_dit_smaller_than_large() {
    let (lq, _) = dit_param_counts(&Sd3Config::large());
    let (mq, _) = dit_param_counts(&Sd3Config::medium());
    assert!(mq < lq, "Medium DiT {mq} must be smaller than Large {lq}");
    assert!(mq > 1_000_000_000, "Medium DiT {mq} unexpectedly tiny");
}

#[test]
fn turbo_matches_large_counts() {
    let l = param_counts(Variant::Large);
    let t = param_counts(Variant::LargeTurbo);
    assert_eq!(l.dit_quantized, t.dit_quantized);
    assert_eq!(l.dit_dense, t.dit_dense);
    assert_eq!(l.total(), t.total());
}

#[test]
fn min_memory_is_ordered_q4_lt_q8_lt_bf16() {
    for variant in [Variant::Large, Variant::LargeTurbo, Variant::Medium] {
        let bf16 = min_memory_gb(variant, Precision::Bf16);
        let q8 = min_memory_gb(variant, Precision::Q8);
        let q4 = min_memory_gb(variant, Precision::Q4);
        assert!(
            q4 < q8 && q8 < bf16,
            "{variant:?}: expected Q4 ({q4}) < Q8 ({q8}) < bf16 ({bf16})"
        );
    }
}

#[test]
fn estimates_are_finite_and_plausible() {
    for variant in [Variant::Large, Variant::LargeTurbo, Variant::Medium] {
        for precision in [Precision::Bf16, Precision::Q8, Precision::Q4] {
            let gb = gib(min_memory_gb(variant, precision));
            assert!(
                gb.is_finite() && gb > 0.0,
                "{variant:?}/{precision:?} = {gb}"
            );
            assert!(
                (16.0..64.0).contains(&gb),
                "{variant:?}/{precision:?} minMemoryGb {gb} outside a plausible band"
            );
        }
    }
}

#[test]
fn medium_threshold_not_above_large() {
    for precision in [Precision::Bf16, Precision::Q8, Precision::Q4] {
        assert!(
            min_memory_gb(Variant::Medium, precision) <= min_memory_gb(Variant::Large, precision)
        );
    }
}

#[test]
fn min_memory_gate_exceeds_measured_peaks() {
    let peaks = [
        (Variant::Large, Precision::Bf16, 38.45),
        (Variant::Large, Precision::Q8, 34.69),
        (Variant::Large, Precision::Q4, 31.60),
        (Variant::Medium, Precision::Bf16, 27.41),
        (Variant::Medium, Precision::Q8, 25.97),
        (Variant::Medium, Precision::Q4, 25.22),
    ];
    for (variant, precision, peak) in peaks {
        let gate = gib(min_memory_gb(variant, precision));
        assert!(
            gate >= peak,
            "{variant:?}/{precision:?}: gate {gate} GiB must be >= measured peak {peak} GiB"
        );
        assert!(
            gate <= peak + 6.0,
            "{variant:?}/{precision:?}: gate {gate} GiB is > 6 GiB above peak {peak} — too loose"
        );
    }
}

#[test]
fn print_min_memory_table() {
    println!(
        "SD3.5 minMemoryGb (+{ACTIVATION_OVERHEAD_GIB}GiB activation, x{:.2} frag):",
        1.0 + FRAG_MARGIN as f64 / 100.0
    );
    for (name, variant) in [
        ("Large", Variant::Large),
        ("Large-Turbo", Variant::LargeTurbo),
        ("Medium", Variant::Medium),
    ] {
        let bf16 = gib(min_memory_gb(variant, Precision::Bf16));
        let q8 = gib(min_memory_gb(variant, Precision::Q8));
        let q4 = gib(min_memory_gb(variant, Precision::Q4));
        println!("{name:<20} {bf16:>8.1} {q8:>8.1} {q4:>8.1}");
    }
    for precision in [Precision::Bf16, Precision::Q8, Precision::Q4] {
        let p = memory_profile(Variant::Large, precision);
        println!(
            "Large/{:?}: weights={:.2}G min={:.1}G",
            precision,
            p.weight_bytes() as f64 / GIB as f64,
            gib(p.min_memory_gb()),
        );
    }
}

#[test]
fn gates_are_the_documented_ones() {
    for (variant, precision, tenths) in [
        (Variant::Large, Precision::Bf16, 430),
        (Variant::Large, Precision::Q8, 379),
        (Variant::Large, Precision::Q4, 352),
        (Variant::Medium, Precision::Bf16, 315),
        (Variant::Medium, Precision::Q8, 301),
        (Variant::Medium, Precision::Q4, 294),
    ] {
        assert_eq!(min_memory_gb(variant, precision), tenths);
    }
    // The same in floating point, as the product of the footprint and the slack.
    for variant in [Variant::Large, Variant::Medium] {
        for precision in [Precision::Bf16, Precision::Q8, Precision::Q4] {
            let w = memory_profile(variant, precision).weight_bytes() as f64;
            let gib = 1024.0 * 1024.0 * 1024.0;
            let want = ((w + 14.0 * gib) * 1.08 / gib * 10.0).ceil() as u64;
            assert_eq!(min_memory_gb(variant, precision), want);
        }
    }
}

#[test]
fn bytes_per_param_includes_block_scale() {
    let per = |q: Quant| bytes_per_param(q) as f64 / 32.0;
    assert!((per(Quant::Q4) - 0.5625).abs() < 1e-9);
    assert!((per(Quant::Q8) - 1.0625).abs() < 1e-9);
    assert!(per(Quant::Q4) < per(Quant::Q8));
    assert!(per(Quant::Q8) < 2.0);
    assert_eq!(ggml_dtype(Quant::Q4), GgmlDType::Q4_0);
    assert_eq!(ggml_dtype(Quant::Q8), GgmlDType::Q8_0);
}

#[test]
fn quantize_is_idempotent() {
    let mut lin = QLinear::linear_no_bias(32, 64);
    lin.quantize(Quant::Q8).unwrap();
    lin.quantize(Quant::Q8).unwrap();
    assert_eq!(lin.weight, Weight::Blocks(Quant::Q8));
    assert!(!lin.bias);
    // Another level does not change it either.
    lin.quantize(Quant::Q4).unwrap();
    assert_eq!(lin.weight, Weight::Blocks(Quant::Q8));
}

#[test]
fn partial_blocks_are_refused() {
    let mut lin = QLinear::linear(33, 64);
    let e = lin.quantize(Quant::Q4).unwrap_err();
    assert_eq!(e.in_dim, 33);
    assert_eq!(lin.weight, Weight::Dense);
    // The first projection that does not fit is reported.
    let refused = |cfg: &Sd3Config| {
        let e = Sd3Transformer::new(cfg).quantize(Quant::Q4).unwrap_err();
        e.in_dim
    };
    assert_eq!(refused(&tiny_cfg()), 16);
    let wide = Sd3Config {
        joint_attention_dim: 4097,
        ..tiny_cfg()
    };
    assert_eq!(refused(&wide), 4097);
    let narrow = Sd3Config {
        mlp_ratio: Real32 {
            bits: 1.5f32.to_bits(),
        },
        ..quant_cfg()
    };
    assert_eq!(refused(&narrow), 48);
    let block = JointBlock::new(&narrow, false, true);
    assert_eq!(block.quantize(Quant::Q8).unwrap_err().in_dim, 48);
}

#[test]
fn feed_forwards_are_scaled_in_single_precision() {
    for ratio in [
        4.0f32, 2.0, 8.0 / 3.0, 0.1, 0.0, -2.0, 1e-40, 3.4e38, 1e20, f32::INFINITY, f32::NAN,
        f32::NEG_INFINITY, 16_777_217.0,
    ] {
        for inner in [0usize, 1, 3, 1536, 2432, 16_777_217, usize::MAX / 3, usize::MAX] {
            let cfg = Sd3Config {
                mlp_ratio: Real32 {
                    bits: ratio.to_bits(),
                },
                inner_dim: inner,
                ..tiny_cfg()
            };
            assert_eq!(
                cfg.ff_hidden(),
                (ratio * inner as f32) as usize,
                "{ratio} times {inner}"
            );
        }
    }
    assert_eq!(Sd3Config::large().ff_hidden(), 9728);
    assert_eq!(Sd3Config::medium().ff_hidden(), 6144);
}

#[test]
fn adaln_zero_chunk_count_and_width() {
    let inner = 16;
    let block = JointBlock::new(&tiny_cfg(), false, false);
    let ada = block.norm1;
    assert_eq!(ada.n_chunks, 6);
    for i in 0..6 {
        assert_eq!(ada.chunk_range(i), (i * inner, inner));
    }
}

#[test]
fn adaln_continuous_chunk_order_is_scale_then_shift() {
    let t = Sd3Transformer::new(&tiny_cfg());
    let ((scale, n), (shift, m)) = t.norm_out.scale_and_shift();
    assert_eq!((scale, n), (0, 16));
    assert_eq!((shift, m), (16, 16));
}

#[test]
fn patchify_unpatchify_round_trip_shape() {
    let cfg = tiny_cfg();
    let t = Sd3Transformer::new(&cfg);
    let (h, w) = t.token_grid(8, 8).unwrap();
    assert_eq!((h, w), (4, 4));
    assert_eq!(t.pos_embed.cropped_pos_embed(h, w).len(), 16);
    let patched: Vec<u32> = (0..(h * w * cfg.patch_dim()) as u32).collect();
    let out = unpatchify(&patched, h, w, 2, 16);
    assert_eq!(out.len(), 16 * 8 * 8);
    // Channel 3, row 5, column 2: token (2, 1), place (1, 0), channel last.
    assert_eq!(out[3 * 64 + 5 * 8 + 2], ((2 * 4 + 1) * 64 + (1 * 2) * 16 + 3) as u32);
    let mut sorted = out.clone();
    sorted.sort();
    assert_eq!(sorted, patched);
}

#[test]
fn grids_outside_the_table_are_refused() {
    let t = Sd3Transformer::new(&tiny_cfg());
    assert_eq!(t.token_grid(1, 8), Err(GridError::TooSmall));
    assert_eq!(t.token_grid(8, 18), Err(GridError::TooLarge));
    assert_eq!(t.token_grid(16, 3), Ok((8, 1)));
}

#[test]
fn positions_are_cropped_from_the_centre() {
    let t = Sd3Transformer::new(&tiny_cfg());
    // A 2x4 grid of the 8x8 table: rows 3 and 4, columns 2 to 5.
    assert_eq!(
        t.pos_embed.cropped_pos_embed(2, 4),
        vec![26, 27, 28, 29, 34, 35, 36, 37]
    );
}

#[test]
fn final_block_context_pre_only_forwards() {
    let block = JointBlock::new(&tiny_cfg(), true, false);
    assert!(block.context_pre_only);
    assert!(block.ff_context.is_none());
    assert!(block.attn.to_add_out.is_none());
    // No step touches the text stream.
    assert_eq!(
        block.forward(),
        vec![
            BlockStep::JointAttention,
            BlockStep::ImageResidual,
            BlockStep::ImageFeedForward
        ]
    );
    assert_eq!(
        block.modulation().text_attention,
        Modulation {
            shift: 1,
            scale: 0,
            gate: None
        }
    );
}

#[test]
fn dual_block_norm1_emits_nine_chunks() {
    let cfg = tiny_dual_cfg();
    let dual = JointBlock::new(&cfg, false, true);
    assert_eq!(dual.norm1.n_chunks, 9, "dual norm1 must emit 9 chunks");
    assert!(dual.attn2.is_some(), "dual block must carry attn2");
    let std = JointBlock::new(&cfg, false, false);
    assert_eq!(std.norm1.n_chunks, 6, "standard norm1 must emit 6 chunks");
    assert!(std.attn2.is_none(), "standard block must NOT carry attn2");
    for i in 0..9 {
        assert_eq!(dual.norm1.chunk_range(i), (i * 16, 16));
    }
    assert_eq!(
        dual.modulation().dual_attention,
        Some(Modulation {
            shift: 6,
            scale: 7,
            gate: Some(8)
        })
    );
}

#[test]
fn dual_attention_path_changes_output() {
    let cfg = tiny_dual_cfg();
    let mut block = JointBlock::new(&cfg, false, true);
    let with = block.forward();
    assert!(with.contains(&BlockStep::DualResidual));
    block.attn2 = None;
    let without = block.forward();
    assert_ne!(with, without);
    assert_eq!(
        without,
        vec![
            BlockStep::JointAttention,
            BlockStep::ImageResidual,
            BlockStep::ImageFeedForward,
            BlockStep::TextResidual,
            BlockStep::TextFeedForward
        ]
    );
}

#[test]
fn dual_flags_reach_the_blocks() {
    let cfg = Sd3Config {
        dual_attention_layers: vec![0, 1],
        ..tiny_cfg()
    };
    let model = Sd3Transformer::new(&cfg);
    assert!(model.blocks[0].attn2.is_some());
    assert!(model.blocks[1].attn2.is_some());
    assert!(model.blocks[2].attn2.is_none());
    assert!(model.blocks[2].context_pre_only);
}

#[test]
fn quantize_is_idempotent_and_still_forwards() {
    let cfg = quant_cfg();
    let model = Sd3Transformer::new(&cfg).quantize(Quant::Q4).unwrap();
    let model = model.quantize(Quant::Q4).unwrap();
    assert_eq!(model.blocks[0].attn.to_q.weight, Weight::Blocks(Quant::Q4));
    assert_eq!(model.proj_out.weight, Weight::Blocks(Quant::Q4));
    assert_eq!(model.context_embedder.weight, Weight::Blocks(Quant::Q4));
    // The modulation layers keep their widths.
    assert_eq!(model.blocks[0].norm1.linear.out_dim, 6 * 32);
}

#[test]
fn counts_are_those_of_the_layers() {
    let cfg = tiny_dual_cfg();
    let t = Sd3Transformer::new(&cfg);
    let lin = |i: usize, o: usize| (i * o + o) as u64;
    let q = |l: &QLinear| (l.in_dim * l.out_dim + if l.bias { l.out_dim } else { 0 }) as u64;
    let mut quantized = q(&t.context_embedder) + q(&t.proj_out);
    let mut dense = 0;
    for b in &t.blocks {
        let a = &b.attn;
        for l in [
            &a.to_q, &a.to_k, &a.to_v, &a.to_out, &a.add_q, &a.add_k, &a.add_v,
        ] {
            quantized += q(l);
        }
        quantized += a.to_add_out.iter().map(q).sum::<u64>();
        for f in std::iter::once(&b.ff).chain(b.ff_context.iter()) {
            quantized += q(&f.proj) + q(&f.out);
        }
        for s in b.attn2.iter() {
            quantized += q(&s.to_q) + q(&s.to_k) + q(&s.to_v) + q(&s.to_out);
        }
        dense += lin(b.norm1.linear.in_dim, b.norm1.linear.out_dim);
        dense += lin(b.norm1_context.linear.in_dim, b.norm1_context.linear.out_dim);
    }
    for m in [&t.time_text_embed.timestep, &t.time_text_embed.text] {
        dense += lin(m.linear_1.in_dim, m.linear_1.out_dim);
        dense += lin(m.linear_2.in_dim, m.linear_2.out_dim);
    }
    dense += lin(t.norm_out.linear.in_dim, t.norm_out.linear.out_dim);
    dense += (16 * 16 * 2 * 2 + 16 + 8 * 8 * 16) as u64;
    assert_eq!(dit_param_counts(&cfg), (quantized, dense));
}

#[test]
fn sd3_vae_config_uses_sd35_constants() {
    let c = sd3_vae_config();
    assert_eq!(c.latent_channels, 16);
    assert_eq!(c.block_out_channels, vec![128, 256, 512, 512]);
    assert!((f64::from_bits(c.scaling_factor.bits) - 1.5305).abs() < 1e-9);
    assert!((f64::from_bits(c.shift_factor.bits) - 0.0609).abs() < 1e-9);
    assert_ne!(
        f64::from_bits(c.scaling_factor.bits),
        VaeConfig::z_image().scaling_factor
    );
    assert_ne!(
        f64::from_bits(c.shift_factor.bits),
        VaeConfig::z_image().shift_factor
    );
    let z = VaeConfig::z_image();
    assert_eq!(
        (c.in_channels, c.out_channels, c.layers_per_block, c.norm_num_groups),
        (z.in_channels, z.out_channels, z.layers_per_block, z.norm_num_groups)
    );
}

#[test]
fn latent_geometry_constants() {
    assert_eq!(LATENT_CHANNELS, 16);
    assert_eq!(SPATIAL_SCALE, 8);
    assert_eq!(f64::from_bits(SCALING_FACTOR), 1.5305);
    assert_eq!(f64::from_bits(SHIFT_FACTOR), 0.0609);
    assert_eq!(latent_size(1024, 768), (128, 96));
}

#[test]
fn modules_have_their_checkpoint_paths() {
    let t = Sd3Transformer::new(&tiny_dual_cfg());
    let paths: Vec<String> = t.parts().into_iter().map(|p| p.path()).collect();
    let mut unique = paths.clone();
    unique.sort();
    unique.dedup();
    assert_eq!(unique.len(), paths.len());
    assert_eq!(paths[0], "transformer_blocks.0.norm1.linear");
    assert_eq!(paths.last().map(|s| s.as_str()), Some("proj_out"));
    for path in [
        "transformer_blocks.0.attn2.to_out.0",
        "transformer_blocks.1.attn.norm_added_k",
        "transformer_blocks.1.ff_context.net.0.proj",
        "pos_embed.pos_embed",
        "time_text_embed.text_embedder.linear_2",
    ] {
        assert!(paths.iter().any(|p| p == path), "{path}");
    }
    // The last block drops its text output.
    let last = t.blocks.last().unwrap().block_parts();
    assert!(!last.contains(&BlockPart::ToAddOut) && !last.contains(&BlockPart::FfContextIn));
    assert_eq!(Part::Block(12, BlockPart::AddV).path(), "transformer_blocks.12.attn.add_v_proj");
}

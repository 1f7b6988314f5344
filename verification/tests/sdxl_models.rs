use std::path::Path;

use candle_core::{Device, Tensor};
use candle_gen_sd::float::{Real32, Real64, EPSILON_BITS, ONE_BITS, ZERO_BITS};
use candle_gen_sd::request::{LoadSpec, WeightsSource};
use candle_gen_sd::sdxl::loaders::{instantid_unet, load_sdxl_controlnet, ControlNetFile};
use candle_gen_sd::sdxl::train_run::{training_output, TrainAction, TrainRun, TrainingProgress};
use candle_gen_sd::sdxl::training::{
    adapter_path, checkpoint_path, effective_weight_decay, is_mae, load_trainer,
    parse_compute_dtype, resolve_target_paths, SavePath,
    sample_timestep, ComputeDtype, NetworkType, TrainingConfig, TrainingItem, TrainingRequest,
    NUM_TRAIN_TIMESTEPS,
};
use candle_gen_sd::sdxl::unet::attention::IpAdapterError;
use candle_gen_sd::sdxl::unet::controlnet::{
    residual_channels, sdxl_unet_config, CondEmbedding, ControlNet, ControlNetConfig,
    ControlResiduals,
};
use candle_gen_sd::sdxl::unet::unet_2d::{
    BlockConfig, Segment, UNet2DConditionModel, UNet2DConditionModelConfig,
};
use rand::rngs::StdRng;
use rand::{Rng, SeedableRng};

fn bc(out_channels: usize, use_cross_attn: Option<usize>, attention_head_dim: usize) -> BlockConfig {
    BlockConfig {
        out_channels,
        use_cross_attn,
        attention_head_dim,
    }
}

fn unet_cfg(blocks: Vec<BlockConfig>, cross_attention_dim: usize) -> UNet2DConditionModelConfig {
    UNet2DConditionModelConfig {
        center_input_sample: false,
        flip_sin_to_cos: true,
        freq_shift: Real64 { bits: ZERO_BITS },
        blocks,
        layers_per_block: 1,
        downsample_padding: 1,
        mid_block_scale_factor: Real64 { bits: ONE_BITS },
        norm_num_groups: 32,
        norm_eps: Real64 { bits: EPSILON_BITS },
        cross_attention_dim,
        sliced_attention_size: None,
        use_linear_projection: false,
    }
}

fn tiny_cfg() -> ControlNetConfig {
    ControlNetConfig {
        unet: unet_cfg(vec![bc(32, None, 8), bc(64, Some(1), 8)], 16),
        addition_time_embed_dim: 8,
        projection_class_embeddings_input_dim: 32,
        conditioning_channels: 3,
        cond_block_out_channels: vec![16, 32, 96, 256],
    }
}

fn tiny_unet() -> UNet2DConditionModel {
    UNet2DConditionModel::new(
        4,
        4,
        false,
        unet_cfg(vec![bc(32, Some(1), 8), bc(64, None, 8)], 64),
    )
}

#[test]
fn float_constants_are_the_doubles() {
    assert_eq!(f64::from_bits(ONE_BITS), 1.0);
    assert_eq!(f64::from_bits(ZERO_BITS), 0.0);
    assert_eq!(f64::from_bits(EPSILON_BITS), 1e-5);
}

#[test]
fn kolors_config_differs_from_sdxl_only_in_add_embedding_input() {
    let sdxl = ControlNetConfig::sdxl();
    let kolors = ControlNetConfig::kolors();
    assert_eq!(sdxl.projection_class_embeddings_input_dim, 2816);
    assert_eq!(kolors.projection_class_embeddings_input_dim, 4096 + 6 * 256);
    assert_eq!(kolors.addition_time_embed_dim, sdxl.addition_time_embed_dim);
    assert_eq!(kolors.conditioning_channels, sdxl.conditioning_channels);
    assert_eq!(kolors.cond_block_out_channels, sdxl.cond_block_out_channels);
    assert_eq!(
        residual_channels(&kolors.unet),
        residual_channels(&sdxl.unet)
    );
}

#[test]
fn residual_channel_sequence_matches_sdxl() {
    let chans = residual_channels(&sdxl_unet_config());
    assert_eq!(
        chans,
        vec![320, 320, 320, 320, 640, 640, 640, 1280, 1280],
        "SDXL has 9 down residuals (one per zero-conv head)"
    );
}

#[test]
fn controlnet_forward_residual_shapes_and_scale() {
    let cfg = tiny_cfg();
    let cn = ControlNet::new(&cfg);
    // conv_in + block0[32, 32] + block1[64].
    let heads = cn.forward(4).unwrap();
    assert_eq!(heads.down.len(), 4);
    let widths: Vec<usize> = heads.down.iter().map(|h| h.out_channels).collect();
    assert_eq!(widths, vec![32, 32, 32, 64]);
    assert_eq!(heads.mid.in_channels, 64);
    // 128 pixels become the 16 cells of the latent, at the width of the input convolution.
    let c = &cn.cond_embedding;
    let mut size = 128;
    for conv in std::iter::once(&c.conv_in)
        .chain(&c.blocks)
        .chain(std::iter::once(&c.conv_out))
    {
        size = (size + 2 * conv.padding - conv.kernel_size) / conv.stride + 1;
    }
    assert_eq!((size, c.conv_out.out_channels), (16, 32));
    // Two time ids of 8 join 16 pooled features.
    assert_eq!(cn.temb(2).time_width, 16);
    // A pass that collects another number of residuals is refused.
    let e = cn.forward(3).unwrap_err();
    assert!(e.message().starts_with("sdxl controlnet: 3 down residuals but 4 zero-conv heads"));
}

#[test]
fn conditioning_embedding_widens_at_each_stride() {
    let c = CondEmbedding::new(3, &vec![16, 32, 96, 256], 320);
    let plan: Vec<(usize, usize, usize)> = c
        .blocks
        .iter()
        .map(|b| (b.in_channels, b.out_channels, b.stride))
        .collect();
    assert_eq!(
        plan,
        vec![
            (16, 16, 1),
            (16, 32, 2),
            (32, 32, 1),
            (32, 96, 2),
            (96, 96, 1),
            (96, 256, 2)
        ]
    );
    assert_eq!((c.conv_in.in_channels, c.conv_out.out_channels), (3, 320));
}

#[test]
fn residual_sum_is_elementwise_and_rejects_mismatch() {
    let dev = Device::Cpu;
    let t = |v: &[f32]| Tensor::from_vec(v.to_vec(), v.len(), &dev).unwrap();
    let a = ControlResiduals {
        down: vec![t(&[1.0, 2.0, 3.0]), t(&[4.0, 5.0])],
        mid: t(&[10.0, 20.0]),
    };
    let b = ControlResiduals {
        down: vec![t(&[0.5, 0.5, 0.5]), t(&[-1.0, 1.0])],
        mid: t(&[1.0, -2.0]),
    };
    let s = a.add(&b).unwrap();
    let sum = |p: &(&Tensor, &Tensor)| (p.0 + p.1).unwrap().to_vec1::<f32>().unwrap();
    assert_eq!(sum(&s.down[0]), vec![1.5, 2.5, 3.5]);
    assert_eq!(sum(&s.down[1]), vec![3.0, 6.0]);
    assert_eq!(sum(&s.mid), vec![11.0, 18.0]);
    let bad = ControlResiduals {
        down: vec![t(&[0.0])],
        mid: t(&[0.0, 0.0]),
    };
    let Err(e) = a.add(&bad) else {
        panic!("branches of different lengths must error")
    };
    assert_eq!(
        e.message(),
        "controlnet residual sum: branch down counts differ (2 vs 1)"
    );
}

#[test]
fn forward_instantid_runs_without_ip_install() {
    let plain = UNet2DConditionModel::new(
        4,
        4,
        false,
        unet_cfg(vec![bc(32, None, 8), bc(64, Some(1), 8)], 16),
    );
    // Without the head there is nothing to fold in.
    assert_eq!(
        plain.instantid_temb(2).unwrap_err().message(),
        "instantid: UNet add_embedding not loaded (call with_add_embedding)"
    );
    let unet = plain.with_add_embedding(8, 32);
    let aug = unet.instantid_temb(2).unwrap();
    assert_eq!((aug.time_width, aug.embedding.channel), (16, 32));
    assert_eq!(aug.embedding.time_embed_dim, 128);
    // An 8 by 8 latent divides evenly, so no up block is told a size.
    let plan = unet.run_blocks(8, 8, &vec![(8, 8), (8, 8), (4, 4), (4, 4)], None, false);
    assert!(plan.ups.iter().all(|u| u.upsample_size.is_none()));
    assert!(!plan.add_skip_residuals && !plan.add_mid_residual);
    let skips: Vec<(usize, usize)> = plan.ups.iter().map(|u| (u.first_skip, u.n_skips)).collect();
    assert_eq!(skips, vec![(2, 2), (0, 2)]);
}

#[test]
fn uneven_latents_are_upsampled_to_the_skip_size() {
    let unet = tiny_unet();
    let plan = unet.run_blocks(7, 8, &vec![(7, 8), (7, 8), (4, 4), (4, 4)], Some(4), true);
    assert_eq!(plan.ups[0].upsample_size, Some((7, 8)));
    // The last block has no upsampler, and is handed the size of the one before it.
    assert_eq!(plan.ups[1].upsample_size, Some((7, 8)));
    assert!(plan.add_skip_residuals && plan.add_mid_residual);
}

/// One basic and one cross-attention level: four cross-attentions in all.
fn tiny_ip_unet() -> UNet2DConditionModel {
    UNet2DConditionModel::new(
        4,
        4,
        false,
        unet_cfg(vec![bc(32, None, 8), bc(64, Some(1), 8)], 16),
    )
}

#[test]
fn install_ip_adapter_rejects_pair_count_mismatch() {
    let unet = tiny_ip_unet();
    assert_eq!(unet.install_ip_adapter(4).unwrap().len(), 4);
    let few = unet.install_ip_adapter(2).unwrap_err();
    assert_eq!(few, IpAdapterError::FewerPairs);
    assert_eq!(
        few.message(),
        "ip_adapter: fewer K/V pairs than UNet cross-attentions"
    );
    let many = unet.install_ip_adapter(5).unwrap_err();
    assert_eq!(many, IpAdapterError::MorePairs);
    assert_eq!(
        many.message(),
        "ip_adapter: more K/V pairs than UNet cross-attentions"
    );
}

#[test]
fn the_image_prompt_is_set_on_every_cross_attention() {
    let unet = tiny_ip_unet();
    let scale = Real64 {
        bits: 0.8f64.to_bits(),
    };
    let set = unet.set_ip_context(Some(7u32), scale);
    assert_eq!(set.len(), 4);
    assert!(set.iter().all(|c| c.tokens == Some(7) && c.scale == scale));
    assert_eq!(
        set[0].layer.path(),
        "down_blocks.1.attentions.0.transformer_blocks.0"
    );
    assert_eq!(
        set[3].layer.path(),
        "mid_block.attentions.0.transformer_blocks.0"
    );
    let cleared = unet.set_ip_context(None::<u32>, scale);
    assert!(cleared.iter().all(|c| c.tokens.is_none()));
}

#[test]
fn sdxl_takes_seventy_pairs() {
    let unet = instantid_unet();
    let layers = unet.install_ip_adapter(70).unwrap();
    assert_eq!(
        layers[0].path(),
        "down_blocks.1.attentions.0.transformer_blocks.0"
    );
    // The mid block's layers come last.
    assert_eq!(
        layers[69].path(),
        "mid_block.attentions.0.transformer_blocks.9"
    );
    assert!(unet.instantid_temb(6).is_ok());
}

#[test]
fn segments_cover_the_forward_pass() {
    let s = tiny_unet().block_segments();
    assert_eq!(
        s,
        vec![
            Segment::Down(0),
            Segment::Down(1),
            Segment::Mid,
            Segment::Up {
                block: 0,
                n_resnets: 2
            },
            Segment::Up {
                block: 1,
                n_resnets: 2
            },
        ]
    );
}

#[test]
fn adaptable_projections_are_named() {
    let paths = tiny_unet().lora_target_paths();
    assert_eq!(
        paths[0],
        "down_blocks.0.attentions.0.transformer_blocks.0.attn1.to_q"
    );
    assert_eq!(
        paths[7],
        "down_blocks.0.attentions.0.transformer_blocks.0.attn2.to_out.0"
    );
    assert_eq!(paths.len() % 8, 0);
}

#[test]
fn controlnet_files_are_chosen() {
    let dir = WeightsSource::Dir("d".into());
    let file = WeightsSource::File("f".into());
    assert_eq!(
        load_sdxl_controlnet(&file, false, false).unwrap(),
        ControlNetFile::Given
    );
    assert_eq!(
        load_sdxl_controlnet(&dir, true, true).unwrap(),
        ControlNetFile::Primary
    );
    assert_eq!(
        load_sdxl_controlnet(&dir, false, true).unwrap(),
        ControlNetFile::Fp16
    );
    assert_eq!(
        load_sdxl_controlnet(&dir, false, false).unwrap_err().message(),
        "sdxl controlnet: no diffusion_pytorch_model(.fp16).safetensors in d"
    );
}

fn single(x: f32) -> Real32 {
    Real32 { bits: x.to_bits() }
}

fn config() -> TrainingConfig {
    TrainingConfig {
        rank: 16,
        alpha: single(16.0),
        learning_rate: single(1e-4),
        weight_decay: single(0.01),
        steps: 5,
        gradient_accumulation: 2,
        lr_warmup_steps: 0,
        resolution: 1024,
        save_every: 2,
        seed: 42,
        network_type: NetworkType::Lora,
        decompose_factor: -1,
        gradient_checkpointing: false,
        train_dtype: "bf16".into(),
        loss_type: "mse".into(),
        optimizer: "adamw".into(),
        lora_target_modules: vec![],
    }
}

fn request() -> TrainingRequest {
    TrainingRequest {
        items: vec![TrainingItem {
            image_path: "/img.png".into(),
            caption: "x".into(),
        }],
        config: config(),
        output_dir: "/out".into(),
        file_name: "a.safetensors".into(),
    }
}

#[test]
fn timestep_is_deterministic_and_in_range() {
    for seed in [0u64, 1, 42, 9999] {
        let a = sample_timestep(seed);
        let b = sample_timestep(seed);
        assert_eq!(a, b);
        assert!(a < NUM_TRAIN_TIMESTEPS);
        // The first draw of the seeded generator.
        let want = StdRng::seed_from_u64(seed).random_range(0..NUM_TRAIN_TIMESTEPS);
        assert_eq!(a, want);
    }
    assert_ne!(sample_timestep(1), sample_timestep(2));
}

#[test]
fn trainer_registers_and_resolves_as_candle() {
    let spec = LoadSpec::new(WeightsSource::Dir("/nonexistent".into()));
    let t = load_trainer(&spec).unwrap();
    assert_eq!(t.descriptor.id, "sdxl");
    assert_eq!(t.descriptor.backend, "candle");
    assert!(t.descriptor.supports_lora);
    assert!(t.descriptor.supports_lokr);
    let file = LoadSpec::new(WeightsSource::File("/f.safetensors".into()));
    assert!(load_trainer(&file)
        .unwrap_err()
        .message()
        .contains("snapshot directory"));
}

#[test]
fn validate_rejects_bad_requests() {
    let spec = LoadSpec::new(WeightsSource::Dir("/nonexistent".into()));
    let t = load_trainer(&spec).unwrap();
    let base = request();
    assert!(t.validate(&base).is_ok());
    let empty = TrainingRequest {
        items: vec![],
        ..base.clone()
    };
    assert!(t.validate(&empty).is_err());
    let zero_rank = TrainingRequest {
        config: TrainingConfig {
            rank: 0,
            ..config()
        },
        ..base.clone()
    };
    assert!(t.validate(&zero_rank).is_err());
    let bad_opt = TrainingRequest {
        config: TrainingConfig {
            optimizer: "lion".into(),
            ..config()
        },
        ..base
    };
    assert!(t
        .validate(&bad_opt)
        .unwrap_err()
        .message()
        .contains("'lion'"));
}

#[test]
fn training_knobs_parse() {
    assert_eq!(parse_compute_dtype(" BFloat16 "), ComputeDtype::Bf16);
    assert_eq!(parse_compute_dtype("fp16"), ComputeDtype::F32);
    assert!(is_mae("L1") && is_mae("mae") && !is_mae("mse"));
    assert_eq!(effective_weight_decay(&config()), single(0.01));
    let adam = TrainingConfig {
        optimizer: "Adam".into(),
        ..config()
    };
    assert_eq!(effective_weight_decay(&adam), single(0.0));
}

#[test]
fn targets_are_chosen_by_suffix() {
    let paths: Vec<String> = vec![
        "down.attn1.to_q".into(),
        "mid_block.attn1.to_q".into(),
        "down.attn1.to_qx".into(),
        "down.ff".into(),
    ];
    assert_eq!(
        resolve_target_paths(&paths, &config()).unwrap(),
        vec!["down.attn1.to_q", "mid_block.attn1.to_q"]
    );
    let lokr = TrainingConfig {
        network_type: NetworkType::Lokr,
        ..config()
    };
    assert_eq!(
        resolve_target_paths(&paths, &lokr).unwrap(),
        vec!["down.attn1.to_q"]
    );
    let none = TrainingConfig {
        lora_target_modules: vec!["proj_in".into()],
        ..config()
    };
    assert!(resolve_target_paths(&paths, &none).is_err());
}

/// Runs a training run to its end, cancelling it at the given action.
fn drive(cfg: &TrainingConfig, items: u32, cancel_at: usize) -> Vec<TrainAction> {
    let mut run = TrainRun::new(cfg, items);
    let mut seen = Vec::new();
    for i in 0..10_000 {
        let a = run.next(i >= cancel_at, single(0.5));
        if a == TrainAction::Idle {
            break;
        }
        seen.push(a);
    }
    seen
}

#[test]
fn a_run_steps_updates_and_saves() {
    let seen = drive(&config(), 3, usize::MAX);
    let count = |f: fn(&TrainAction) -> bool| seen.iter().filter(|a| f(a)).count();
    assert_eq!(count(|a| matches!(a, TrainAction::Step(_))), 5);
    // Five steps in windows of two: after 2, 4 and 5.
    assert_eq!(count(|a| matches!(a, TrainAction::Update { .. })), 3);
    // Checkpoints after 2 and 4.
    assert_eq!(count(|a| matches!(a, TrainAction::SaveCheckpoint { .. })), 2);
    assert_eq!(count(|a| matches!(a, TrainAction::SaveAdapter)), 1);
    assert_eq!(count(|a| matches!(a, TrainAction::CacheItem(_))), 3);
    assert_eq!(
        seen[0],
        TrainAction::Report(TrainingProgress::Preparing)
    );
    assert!(matches!(
        seen.last(),
        Some(TrainAction::Done { steps: 5, .. })
    ));
    // The same run again is the same run.
    assert_eq!(seen, drive(&config(), 3, usize::MAX));
}

#[test]
fn a_cancelled_run_stops() {
    let seen = drive(&config(), 3, 0);
    assert_eq!(seen.last(), Some(&TrainAction::Canceled));
    assert!(!seen.iter().any(|a| matches!(a, TrainAction::Step(_))));
    let none = drive(&config(), 0, usize::MAX);
    assert_eq!(none.last(), Some(&TrainAction::NoUsableItems));
}

#[test]
fn an_adapter_is_saved_under_its_name() {
    let at = |p: SavePath| Path::new(&p.dir).join(&p.file);
    let adapter = |dir: &str, name: &str| {
        at(adapter_path(&TrainingRequest {
            output_dir: dir.into(),
            file_name: name.into(),
            ..request()
        }))
    };
    assert_eq!(adapter("/out", "a.safetensors"), Path::new("/out/a.safetensors"));
    assert_eq!(adapter("/out/", "a.safetensors"), Path::new("/out/a.safetensors"));
    assert_eq!(adapter("", "a.safetensors"), Path::new("a.safetensors"));
    assert_eq!(adapter("/out", "/else/a.safetensors"), Path::new("/else/a.safetensors"));
    let req = request();
    assert_eq!(
        at(checkpoint_path(&req, "a-5.safetensors")),
        Path::new("/out/a-5.safetensors")
    );
    let loss = Real32 {
        bits: 0.5f32.to_bits(),
    };
    let out = training_output(
        &req,
        TrainAction::Done {
            steps: 7,
            final_loss: loss,
        },
    )
    .unwrap();
    assert_eq!(at(out.adapter_path), Path::new("/out").join(&req.file_name));
    assert_eq!((out.steps, out.final_loss), (7, loss));
    assert!(training_output(&req, TrainAction::Canceled).is_none());
}

#[test]
fn unmatched_targets_are_listed() {
    let cfg = TrainingConfig {
        lora_target_modules: vec!["to_x".into(), "a\"b".into()],
        ..config()
    };
    let e = resolve_target_paths(&vec!["down.to_q".into()], &cfg).unwrap_err();
    assert_eq!(
        e.message(),
        format!(
            "sdxl trainer: no adapter targets matched {:?}",
            cfg.lora_target_modules
        )
    );
}

use candle_core::{Device, Tensor};
use candle_gen_sd::adapter::TensorEntry;
use candle_gen_sd::error::Error;
use candle_gen_sd::float::{effective_steps, Real32};
use candle_gen_sd::image::{
    check_buffer, image_of_planes, read_ppm, region_diff, split_mask, write_ppm, Image, PpmError,
};
use candle_gen_sd::request::{
    AdapterKind, AdapterSpec, ConditioningKind, GenerationRequest, LoadSpec, Modality,
    WeightsSource,
};
use candle_gen_sd::sd3::clip_tokenizer::synthesize_clip_tokenizer;
use candle_gen_sd::sdxl::conditioning::{encode, eos_position, pad_tokens, pool_eos, text_projection};
use candle_gen_sd::sdxl::edit_provider::{
    self, encode_mask, SdxlEditRequest, DEFAULT_EDIT_STRENGTH, DEFAULT_INPAINT_STRENGTH,
};
use candle_gen_sd::sdxl::ip_adapter::{
    check_reference, crop_planes, ip_tokens, load_ip_kv_pairs, resampler_keys, Resampler,
    ResamplerConfig, TokenRow,
};
use candle_gen_sd::sdxl::ip_provider::{
    self, assemble, resolve_image_encoder, EncoderFile, IpAdapterSdxlRequest,
    DEFAULT_IP_ADAPTER_SCALE,
};
use candle_gen_sd::sdxl::loaders::instantid_unet;
use candle_gen_sd::sdxl::pipeline::{
    components, encode_one, resolve, snapshot_file, text_embeddings, token_error, Clip, Component,
    VAE_SCALE,
};
use candle_gen_sd::sdxl::provider::{
    descriptor, flash_attn_enabled, force_link, load, set_flash_attn, set_vae_tiling, tiles_decode,
    uses_flash_attn, vae_tiling_enabled, Toggles,
};
use candle_gen_sd::sdxl::render::{
    Progress, RenderAction, RenderPlan, RenderRun, STEP_RNG_SALT,
};
use candle_gen_sd::sdxl::sampler::EulerAncestralSampler;
use candle_gen_sd::sdxl::training::{caption_error, caption_pads, encode_caption};
use candle_gen_sd::sdxl::vision_encoder::{
    check_layer_count, vision_keys, ClipVisionEncoder, VisionConfig,
};
use candle_gen_sd::sdxl::weights::{ElementType, Weights};
use candle_gen_sd::tokenizer::{TextTokenizer, TokenError};

fn single(x: f32) -> Real32 {
    Real32 { bits: x.to_bits() }
}

fn tokenizer() -> TextTokenizer {
    let vocab: Vec<(String, u32)> = [
        ("a", 0),
        ("c", 1),
        ("t", 2),
        ("a</w>", 3),
        ("t</w>", 4),
        ("at</w>", 5),
        ("cat</w>", 6),
        ("!", 7),
        ("<|startoftext|>", 8),
        ("<|endoftext|>", 9),
    ]
    .iter()
    .map(|(t, i)| (t.to_string(), *i))
    .collect();
    let merges = vec![("a".into(), "t</w>".into()), ("c".into(), "at</w>".into())];
    synthesize_clip_tokenizer(&vocab, &merges).unwrap()
}

#[test]
fn pad_tokens_pads_and_rejects_overflow() {
    let p = pad_tokens(vec![1, 2, 3], 9, 6).unwrap();
    assert_eq!(p, vec![1, 2, 3, 9, 9, 9]);
    assert_eq!(pad_tokens(vec![1, 2, 3], 9, 3).unwrap(), vec![1, 2, 3]);
    let e = pad_tokens(vec![1, 2, 3, 4], 9, 3).unwrap_err();
    assert_eq!(
        e.message(),
        "sdxl conditioning: prompt is 4 tokens > the 3-token CLIP limit"
    );
}

#[test]
fn eos_position_is_argmax() {
    let row = [49406u32, 320, 540, 49407, 256, 256];
    assert_eq!(eos_position(&row), 3);
    assert_eq!(eos_position(&[49406, 1, 2, 3, 49407]), 4);
}

#[test]
fn pool_eos_gathers_eos_and_projects() {
    let token_rows = vec![vec![49406u32, 10, 49407, 256]];
    let at = pool_eos(&token_rows);
    assert_eq!(at, vec![2]);
    let data: Vec<f32> = (0..4).flat_map(|r| vec![r as f32; 3]).collect();
    let final_g = Tensor::from_vec(data, (1, 4, 3), &Device::Cpu).unwrap();
    let row = final_g
        .get(0)
        .unwrap()
        .get(at[0])
        .unwrap()
        .to_vec1::<f32>()
        .unwrap();
    assert_eq!(row, vec![2.0, 2.0, 2.0]);
}

#[test]
fn text_rows_are_uncond_first() {
    let t = tokenizer();
    let rows = encode(&t, &t, "cat", "a", true).unwrap();
    assert_eq!(rows.l.len(), 2);
    assert_eq!(&rows.l[0][..4], &[8, 3, 9, 7]);
    assert_eq!(&rows.l[1][..4], &[8, 6, 9, 7]);
    assert_eq!(rows.l[0].len(), 77);
    assert!(rows.l[1][3..].iter().all(|&x| x == 7));
    assert_eq!(rows.eos, vec![2, 2]);
    let rows = encode(&t, &t, "cat", "a", false).unwrap();
    assert_eq!(rows.g.len(), 1);
    assert_eq!(&rows.g[0][..3], &[8, 6, 9]);
    // A prompt of 100 words does not fit.
    let long = "cat ".repeat(100);
    let e = encode(&t, &t, &long, "a", true).unwrap_err();
    assert!(matches!(
        e,
        TokenError::TooLong {
            tokens: 102,
            limit: 77
        }
    ));
    assert_eq!(token_error(&e), "prompt too long: 102 tokens > 77");
}

#[test]
fn pipeline_rows_are_uncond_first() {
    let t = tokenizer();
    let (uncond, cond) = encode_one(Clip::L, &t, "cat", "").unwrap();
    assert_eq!(&uncond[..3], &[8, 9, 7]);
    assert_eq!(&cond[..3], &[8, 6, 9]);
    let (l, g) = text_embeddings(&t, &t, "cat", "").unwrap();
    assert_eq!(l, g);
    assert_eq!(l, (uncond, cond));
}

#[test]
fn a_missing_pad_token_is_reported() {
    let vocab: Vec<(String, u32)> = vec![
        ("a</w>".into(), 0),
        ("<|startoftext|>".into(), 1),
        ("<|endoftext|>".into(), 2),
    ];
    let t = synthesize_clip_tokenizer(&vocab, &vec![]).unwrap();
    let e = encode(&t, &t, "a", "", false).unwrap_err();
    assert_eq!(e.message(), "pad token \"!\" not in vocab");
    assert_eq!(token_error(&e), e.message());
}

#[test]
fn sdxl_projection_is_found() {
    let tensors = vec![TensorEntry {
        name: "text_projection.weight".into(),
        dims: vec![1280, 1280],
    }];
    assert_eq!(text_projection(&tensors, "g").unwrap(), 0);
    assert_eq!(
        text_projection(&vec![], "g").unwrap_err().message(),
        "sdxl conditioning: text_projection.weight missing from g"
    );
}

fn dir(path: &str) -> LoadSpec {
    LoadSpec::new(WeightsSource::Dir(path.into()))
}

#[test]
fn sdxl_registers_and_resolves_as_candle() {
    force_link();
    let g = load(&dir("/nonexistent")).unwrap();
    assert_eq!(g.descriptor.id, "sdxl");
    assert_eq!(g.descriptor.backend, "candle");
    assert_eq!(g.descriptor.modality, Modality::Image);
}

#[test]
fn descriptor_advertises_only_wired_txt2img_surface() {
    let d = descriptor();
    assert!(d.capabilities.supports_negative_prompt);
    assert!(d.capabilities.supports_guidance);
    assert!(!d.capabilities.supports_true_cfg);
    assert!(!d.capabilities.mac_only);
    assert!(d.capabilities.conditioning.is_empty());
    assert!(!d.capabilities.supports_lora);
    assert!(!d.capabilities.supports_lokr);
    assert_eq!(d.capabilities.samplers, vec!["ddim"]);
}

#[test]
fn flash_attn_toggle_roundtrips() {
    let mut t = Toggles::default();
    assert!(
        flash_attn_enabled(&t),
        "flash-attn runtime toggle defaults on"
    );
    set_flash_attn(&mut t, false);
    assert!(!flash_attn_enabled(&t));
    assert!(!uses_flash_attn(&t, true));
    set_flash_attn(&mut t, true);
    assert!(flash_attn_enabled(&t));
    assert!(uses_flash_attn(&t, true));
    assert!(!uses_flash_attn(&t, false));
}

#[test]
fn vae_tiling_toggle_roundtrips() {
    let mut t = Toggles::default();
    assert!(
        vae_tiling_enabled(&t),
        "vae-tiling runtime toggle defaults on"
    );
    set_vae_tiling(&mut t, false);
    assert!(!vae_tiling_enabled(&t));
    assert!(!tiles_decode(&t, 1024, 1024));
    set_vae_tiling(&mut t, true);
    assert!(vae_tiling_enabled(&t));
    assert!(tiles_decode(&t, 1024, 512));
    assert!(!tiles_decode(&t, 512, 512));
    assert!(flash_attn_enabled(&t));
}

#[test]
fn lib_validate_accepts_txt2img_and_rejects_unsupported() {
    let g = load(&dir("/nonexistent")).unwrap();
    let prompt = |p: &str| GenerationRequest {
        prompt: p.into(),
        ..Default::default()
    };
    let ok = GenerationRequest {
        guidance: Some(single(7.0)),
        negative_prompt: Some("blurry".into()),
        ..prompt("a rusty robot holding a lit candle")
    };
    assert!(g.validate(&ok).is_ok());
    for bad in [
        GenerationRequest::default(),
        GenerationRequest {
            width: 1020,
            ..prompt("x")
        },
        GenerationRequest {
            steps: Some(0),
            ..prompt("x")
        },
        GenerationRequest {
            conditioning: vec![ConditioningKind::Reference],
            ..prompt("x")
        },
    ] {
        assert!(g.validate(&bad).is_err(), "should reject: {bad:?}");
    }
    assert!(!descriptor()
        .capabilities
        .accepts(ConditioningKind::Reference));
    let e = g
        .validate(&GenerationRequest {
            steps: Some(0),
            ..prompt("x")
        })
        .unwrap_err();
    assert_eq!(
        e.message(),
        "sdxl: steps must be >= 1 (an explicit 0 renders undenoised noise)"
    );
}

#[test]
fn load_rejects_lora_adapters() {
    let spec = LoadSpec {
        adapters: vec![AdapterSpec {
            path: "/lora.safetensors".into(),
            scale: single(1.0),
            kind: AdapterKind::Lora,
        }],
        ..dir("/snap")
    };
    assert!(matches!(load(&spec), Err(Error::Unsupported(_))));
}

#[test]
fn lib_load_rejects_single_file_source() {
    let spec = LoadSpec::new(WeightsSource::File("/tmp/sdxl.safetensors".into()));
    let err = load(&spec).unwrap_err().message();
    assert!(err.contains("snapshot directory"), "got: {err}");
}

#[test]
fn pipeline_parts_have_sources() {
    let v = components();
    assert_eq!(v.len(), 6);
    assert_eq!(v[0], Component::Tokenizer(Clip::L));
    assert_eq!(
        v[2].source(),
        (
            Some("laion/CLIP-ViT-bigG-14-laion2B-39B-b160k"),
            "tokenizer.json"
        )
    );
    assert_eq!(
        v[4].source(),
        (
            Some("madebyollin/sdxl-vae-fp16-fix"),
            "diffusion_pytorch_model.safetensors"
        )
    );
    assert_eq!(
        Clip::BigG.sources().1,
        "text_encoder_2/model.fp16.safetensors"
    );
    assert!(snapshot_file("/r", "unet/x", true).is_ok());
    assert_eq!(
        snapshot_file("/r", "unet/x", false).unwrap_err().message(),
        "sdxl snapshot is missing unet/x (expected a diffusers multi-component snapshot at /r)"
    );
    assert_eq!(f64::from_bits(VAE_SCALE), 0.13025);
}

#[test]
fn requests_resolve_to_runs() {
    let req = GenerationRequest {
        prompt: "x".into(),
        count: 2,
        ..Default::default()
    };
    let t = resolve(&req, 11);
    assert_eq!(t.plan.steps, 30);
    assert_eq!(t.plan.base_seed, 11);
    assert!(t.plan.guided);
    assert_eq!(f32::from_bits(t.guidance.bits), 7.0);
    assert_eq!((t.latent_height, t.latent_width), (128, 128));
    assert_eq!(t.negative, "");
    let req = GenerationRequest {
        guidance: Some(single(1.0)),
        seed: Some(5),
        steps: Some(4),
        negative_prompt: Some("n".into()),
        ..req
    };
    let t = resolve(&req, 11);
    assert_eq!((t.plan.steps, t.plan.base_seed, t.plan.guided), (4, 5, false));
    assert_eq!(t.negative, "n");
}

fn drive(plan: RenderPlan, cancel_at: usize) -> Vec<RenderAction> {
    let mut run = RenderRun::new(plan);
    let mut seen = Vec::new();
    for i in 0..1000 {
        let a = run.next(i >= cancel_at);
        seen.push(a);
        if matches!(a, RenderAction::Finish { .. } | RenderAction::Cancel) {
            break;
        }
    }
    seen
}

fn plan(count: u32, steps: u32) -> RenderPlan {
    RenderPlan {
        count,
        steps,
        base_seed: u64::MAX,
        guided: true,
        masked: false,
    }
}

#[test]
fn a_render_prepares_steps_and_decodes() {
    let seen = drive(plan(2, 2), usize::MAX);
    let step = |n: u32| RenderAction::Denoise {
        step: n,
        rows: 2,
        blend: false,
        report: Progress::Step {
            current: n + 1,
            total: 2,
        },
    };
    let decode = |image: u32| RenderAction::Decode {
        image,
        report: Progress::Decoding,
    };
    assert_eq!(
        seen,
        vec![
            RenderAction::Prepare {
                image: 0,
                seed: u64::MAX,
                step_seed: STEP_RNG_SALT - 1
            },
            step(0),
            step(1),
            decode(0),
            RenderAction::Prepare {
                image: 1,
                seed: 0,
                step_seed: STEP_RNG_SALT
            },
            step(0),
            step(1),
            decode(1),
            RenderAction::Finish { images: 2 },
        ]
    );
}

#[test]
fn an_image_can_be_rendered_alone() {
    let all = drive(plan(3, 2), usize::MAX);
    for image in 0..3u32 {
        let alone = drive(
            RenderPlan {
                count: 1,
                base_seed: u64::MAX.wrapping_add(image as u64),
                ..plan(3, 2)
            },
            usize::MAX,
        );
        let part = &all[4 * image as usize..4 * (image as usize + 1)];
        for (a, b) in part.iter().zip(&alone) {
            let numbered = match *b {
                RenderAction::Prepare { seed, step_seed, .. } => RenderAction::Prepare {
                    image,
                    seed,
                    step_seed,
                },
                RenderAction::Decode { report, .. } => RenderAction::Decode { image, report },
                other => other,
            };
            assert_eq!(*a, numbered);
        }
    }
}

#[test]
fn a_render_heeds_cancellation_before_steps() {
    // Asked for from the start, it is heeded before the first step, and the preparation still runs.
    let seen = drive(plan(1, 3), 0);
    assert_eq!(seen.len(), 2);
    assert_eq!(seen[1], RenderAction::Cancel);
    let first = plan(1, 3);
    let steps = |v: &[RenderAction]| {
        v.iter()
            .filter(|a| matches!(a, RenderAction::Denoise { .. }))
            .count()
    };
    // Before the third step: two were run.
    let seen = drive(first, 3);
    assert_eq!(seen.last(), Some(&RenderAction::Cancel));
    assert_eq!(steps(&seen), 2);
    // After the last step it comes too late.
    let seen = drive(first, 4);
    assert_eq!(seen.last(), Some(&RenderAction::Finish { images: 1 }));
    assert_eq!(steps(&seen), 3);
    let mut run = RenderRun::new(first);
    assert!(matches!(run.next(true), RenderAction::Prepare { .. }));
    assert_eq!(run.next(true), RenderAction::Cancel);
    assert_eq!(run.next(false), RenderAction::Cancel);
    // Without steps there is nothing to cancel: the image is decoded.
    let seen = drive(plan(1, 0), 0);
    assert_eq!(seen.len(), 3);
    assert!(matches!(seen[1], RenderAction::Decode { .. }));
    assert_eq!(seen[2], RenderAction::Finish { images: 1 });
}

#[test]
fn edit_provider_request_defaults() {
    let r = SdxlEditRequest::default();
    assert_eq!((r.width, r.height), (1024, 1024));
    assert_eq!(r.steps, 30);
    assert_eq!(r.strength.bits, DEFAULT_EDIT_STRENGTH);
    assert_eq!(f32::from_bits(DEFAULT_EDIT_STRENGTH), 0.8);
    assert_eq!(f32::from_bits(DEFAULT_INPAINT_STRENGTH), 0.85);
    assert_eq!(f32::from_bits(r.guidance.bits), 5.0);
}

#[test]
fn ip_provider_request_defaults() {
    let r = IpAdapterSdxlRequest::default();
    assert_eq!((r.width, r.height), (1024, 1024));
    assert_eq!(r.steps, 30);
    assert_eq!(r.ip_adapter_scale.bits, DEFAULT_IP_ADAPTER_SCALE);
    assert_eq!(f32::from_bits(DEFAULT_IP_ADAPTER_SCALE), 0.7);
}

#[test]
fn strength_scales_the_schedule() {
    let want = |steps: usize, s: f32| (steps as f64 * s.clamp(0.0, 1.0) as f64).round() as usize;
    for steps in [0usize, 1, 2, 3, 7, 30, 50, 999, 1 << 40, usize::MAX] {
        for s in [
            0.0f32, 0.1, 0.2, 0.25, 0.3, 0.5, 0.6, 0.75, 0.8, 0.85, 0.99, 1.0, 1.5, -0.5,
            1e-30, 1e-45, f32::INFINITY, f32::NEG_INFINITY, f32::NAN, 0.33333334,
        ] {
            assert_eq!(effective_steps(steps, single(s)), want(steps, s), "{steps} {s}");
        }
    }
    assert_eq!(effective_steps(30, single(0.8)), 24);
    assert_eq!(effective_steps(5, single(0.5)), 3);
}

#[test]
fn edits_are_checked_before_they_start() {
    let req = SdxlEditRequest {
        width: 1020,
        ..Default::default()
    };
    assert!(matches!(
        edit_provider::start(&req, false, true),
        Err(Error::Canceled)
    ));
    assert_eq!(
        edit_provider::start(&req, false, false).unwrap_err().message(),
        "sdxl edit: width/height must be multiples of 8 (got 1020x1024)"
    );
    let p = edit_provider::start(&SdxlEditRequest::default(), true, false).unwrap();
    assert_eq!((p.count, p.steps, p.guided, p.masked), (1, 24, true, true));
}

fn solid(width: u32, height: u32, v: u8) -> Image {
    Image {
        width,
        height,
        pixels: vec![v; (width * height * 3) as usize],
    }
}

#[test]
fn edits_are_prepared_in_order() {
    let t = tokenizer();
    let req = SdxlEditRequest {
        prompt: "cat".into(),
        negative: "a".into(),
        width: 64,
        height: 32,
        ..Default::default()
    };
    let source = solid(8, 8, 1);
    let job = edit_provider::prepare(&req, &t, &t, &source, &None, false).unwrap();
    assert_eq!((job.latent_height, job.latent_width), (4, 8));
    assert_eq!(job.rows.l.len(), 2);
    assert!(!job.plan.masked);
    let bad = Image {
        width: 9,
        ..solid(8, 8, 1)
    };
    let e = edit_provider::prepare(&req, &t, &t, &bad, &Some(bad.clone()), false).unwrap_err();
    assert_eq!(e.message(), "sdxl edit: source pixel buffer 192 != 9x8x3");
    let e = edit_provider::prepare(&req, &t, &t, &source, &Some(bad.clone()), false).unwrap_err();
    assert_eq!(e.message(), "sdxl edit: mask pixel buffer 192 != 9x8x3");
    let long = SdxlEditRequest {
        prompt: "cat ".repeat(100),
        ..req.clone()
    };
    let e = edit_provider::prepare(&long, &t, &t, &bad, &None, false).unwrap_err();
    assert!(e.message().contains("102 tokens"));
    assert!(matches!(
        edit_provider::prepare(&long, &t, &t, &bad, &None, true),
        Err(Error::Canceled)
    ));
}

#[test]
fn mask_binarize_and_downsample() {
    let (w, h) = (16u32, 8u32);
    let mut pixels = Vec::with_capacity((w * h * 3) as usize);
    for _y in 0..h {
        for x in 0..w {
            let v = if x < 8 { 255u8 } else { 0u8 };
            pixels.extend_from_slice(&[v, v, v]);
        }
    }
    let m = encode_mask(&pixels, w, h);
    assert_eq!(m, vec![true, false]);
    assert_eq!(encode_mask(&split_mask(16, 8).pixels, 16, 8), m);
}

#[test]
fn masks_are_binarized_as_in_single_precision() {
    let want = |p: &[u8]| {
        let (r, g, b) = (p[0] as f32, p[1] as f32, p[2] as f32);
        let luma = 0.299f32 * r + 0.587f32 * g + 0.114f32 * b;
        luma / 255.0 >= 0.5
    };
    // Every red and green, with the blue that comes closest to the threshold.
    for r in 0..=255u32 {
        for g in 0..=255u32 {
            let b = ((127.5 - 0.299 * r as f64 - 0.587 * g as f64) / 0.114) as i64;
            for b in [b - 1, b, b + 1] {
                if !(0..=255).contains(&b) {
                    continue;
                }
                let p = [r as u8, g as u8, b as u8];
                let mut pixels = vec![0u8; 8 * 8 * 3];
                pixels[..3].copy_from_slice(&p);
                assert_eq!(encode_mask(&pixels, 8, 8), vec![want(&p)], "{p:?}");
            }
        }
    }
}

#[test]
fn ppm_round_trips() {
    let img = Image {
        width: 2,
        height: 1,
        pixels: vec![1, 2, 3, 10, 32, 35],
    };
    let bytes = write_ppm(&img);
    assert_eq!(&bytes[..11], b"P6\n2 1\n255\n");
    let back = read_ppm(&bytes).unwrap();
    assert_eq!((back.width, back.height, back.pixels), (2, 1, img.pixels));
    // A comment and other white space.
    let back = read_ppm(&b"P6 # made by hand\n\t1\r\n1 # one\n255\nabc".to_vec()).unwrap();
    assert_eq!(back.pixels, b"abc");
    let err = |b: &[u8]| read_ppm(&b.to_vec()).unwrap_err();
    assert_eq!(err(b"P5\n1 1\n255\nabc"), PpmError::NotPpm);
    assert_eq!(err(b"P6\nx 1\n255\nabc"), PpmError::Width);
    assert_eq!(err(b"P6\n1 -1\n255\nabc"), PpmError::Height);
    assert_eq!(err(b"P6\n1 1\n?\nabc"), PpmError::MaxValue);
    assert_eq!(err(b"P6\n1 1\n255\nab"), PpmError::Truncated);
    assert_eq!(err(b""), PpmError::NotPpm);
}

#[test]
fn regions_are_compared() {
    let a = solid(4, 2, 10);
    let mut b = solid(4, 2, 10);
    b.pixels[0] = 13;
    b.pixels[23] = 0;
    assert_eq!(region_diff(&a, &b, 0, 4), (13, 24));
    assert_eq!(region_diff(&a, &b, 0, 2), (3, 12));
    assert_eq!(region_diff(&b, &a, 3, 4), (10, 6));
    assert_eq!(region_diff(&a, &a, 0, 4), (0, 24));
    let m = split_mask(4, 1);
    assert_eq!(m.pixels, vec![255, 255, 255, 255, 255, 255, 0, 0, 0, 0, 0, 0]);
}

#[test]
fn planes_become_pixels() {
    let i = image_of_planes(&vec![1, 2, 3, 4, 5, 6], 3, 1, 2).unwrap();
    assert_eq!(i.pixels, vec![1, 3, 5, 2, 4, 6]);
    assert_eq!((i.width, i.height), (2, 1));
    let e = image_of_planes(&vec![1, 2], 1, 1, 2).unwrap_err();
    assert_eq!(e.message(), "expected 3 channels, got 1");
    assert!(check_buffer("x", &i).is_ok());
}

fn weights_of(keys: Vec<String>) -> Weights {
    Weights::from_map(
        keys.into_iter()
            .map(|name| TensorEntry {
                name,
                dims: vec![1],
            })
            .collect(),
    )
}

#[test]
fn resampler_forward_shape_and_finite() {
    let cfg = ResamplerConfig {
        dim: 8,
        depth: 2,
        heads: 2,
        dim_head: 4,
        num_queries: 4,
        embed_dim: 6,
        output_dim: 10,
    };
    let mut w = weights_of(resampler_keys("image_proj", cfg.depth));
    w.tensors[0].dims = vec![1, 4, 8];
    let r = Resampler::from_weights(&w, "image_proj", &cfg).unwrap();
    assert_eq!(r.output_dim(), 10);
    assert_eq!(r.num_queries(), 4);
    assert_eq!(r.forward(2).unwrap(), (2, 4, 10));
    assert_eq!(cfg.kv_halves(), ((0, 8), (8, 8)));
    // One latents tensor, 11 for each block, 6 around them.
    assert_eq!(w.tensors.len(), 1 + 2 * 11 + 6);
    // Latents of another shape.
    w.tensors[0].dims = vec![1, 4, 9];
    let r = Resampler::from_weights(&w, "image_proj", &cfg).unwrap();
    assert_eq!(
        r.forward(1).unwrap_err().message(),
        "resampler latents shape [1, 4, 9] != [1, 4, 8]"
    );
    // A missing tensor.
    w.tensors.retain(|t| t.name != "image_proj.layers.1.0.to_kv.weight");
    let e = Resampler::from_weights(&w, "image_proj", &cfg).unwrap_err();
    assert_eq!(
        e.message(),
        "missing tensor: image_proj.layers.1.0.to_kv.weight"
    );
}

#[test]
fn resampler_presets() {
    let p = ResamplerConfig::plus_sdxl_vit_h();
    let f = ResamplerConfig::instantid_face();
    assert_eq!(f, ResamplerConfig { embed_dim: 512, ..p });
    let k = ResamplerConfig::kolors_plus();
    assert_eq!((k.dim, k.heads, k.embed_dim), (2048, 12, 1024));
}

#[test]
fn ip_kv_pairs_sorted_by_numeric_index() {
    let mut keys = Vec::new();
    for n in [10u32, 2, 0] {
        keys.push(format!("ip_adapter.{n}.to_k_ip.weight"));
        keys.push(format!("ip_adapter.{n}.to_v_ip.weight"));
    }
    let w = weights_of(keys);
    let pairs = load_ip_kv_pairs(&w).unwrap();
    assert_eq!(pairs, vec![(4, 5), (2, 3), (0, 1)]);
    // A pair without its value.
    let w = weights_of(vec!["ip_adapter.7.to_k_ip.weight".into()]);
    assert_eq!(
        load_ip_kv_pairs(&w).unwrap_err().message(),
        "missing tensor: ip_adapter.7.to_v_ip.weight"
    );
}

#[test]
fn ip_kv_pairs_errors_when_absent() {
    let w = weights_of(vec![]);
    assert_eq!(
        load_ip_kv_pairs(&w).unwrap_err().message(),
        "ip_adapter: no ip_adapter.{n}.to_k_ip.weight keys found"
    );
}

#[test]
fn preprocess_clip_image_nchw_and_normalized() {
    let img = solid(4, 4, 128);
    assert!(check_reference(&img).is_ok());
    // A constant image stays constant in every plane.
    let planes = crop_planes(&vec![128u8; 8 * 8 * 3], 8, 8, 8);
    assert_eq!(planes, vec![128u8; 3 * 8 * 8]);
    // The centre of a wider image, plane by plane.
    let wide: Vec<u32> = (0..(2 * 4 * 3)).collect();
    assert_eq!(
        crop_planes(&wide, 2, 4, 2),
        vec![3, 6, 15, 18, 4, 7, 16, 19, 5, 8, 17, 20]
    );
    let bad = Image {
        width: 4,
        height: 4,
        pixels: vec![0u8; 8],
    };
    assert_eq!(
        check_reference(&bad).unwrap_err().message(),
        "ip-adapter image buffer 8 != 4x4x3"
    );
    assert_eq!(
        check_reference(&solid(0, 4, 0)).unwrap_err().message(),
        "ip-adapter reference image has a zero dimension (0x4)"
    );
}

#[test]
fn ip_image_encoder_tokens_and_zeros() {
    assert_eq!(ip_tokens(true), vec![TokenRow::Zeros, TokenRow::Reference]);
    assert_eq!(ip_tokens(false), vec![TokenRow::Reference]);
    let t = tokenizer();
    let req = IpAdapterSdxlRequest {
        prompt: "cat".into(),
        ..Default::default()
    };
    let job = ip_provider::prepare(&req, &t, &t, &solid(6, 5, 200), false).unwrap();
    assert_eq!(job.image_rows.len(), 2);
    assert_eq!(job.plan.steps, 30);
    assert_eq!((job.latent_height, job.latent_width), (128, 128));
    assert!(matches!(
        ip_provider::prepare(&req, &t, &t, &solid(6, 5, 200), true),
        Err(Error::Canceled)
    ));
    assert!(ip_provider::prepare(&req, &t, &t, &solid(0, 5, 200), false).is_err());
}

#[test]
fn image_encoder_resolution() {
    let e = resolve_image_encoder("/enc", false, false, false).unwrap_err();
    assert!(e
        .message()
        .starts_with("ip-adapter: CLIP image encoder not found under /enc"));
    assert_eq!(
        resolve_image_encoder("/enc", false, true, true).unwrap(),
        EncoderFile::Model
    );
    assert_eq!(
        resolve_image_encoder("/enc", false, false, true).unwrap(),
        EncoderFile::Fp16
    );
    assert_eq!(
        resolve_image_encoder("/enc/model.safetensors", true, false, false).unwrap(),
        EncoderFile::Given
    );
}

#[test]
fn reference_models_are_assembled() {
    let unet = instantid_unet();
    let mut keys = resampler_keys("image_proj", 4);
    for n in 0..70 {
        keys.push(format!("ip_adapter.{n}.to_k_ip.weight"));
        keys.push(format!("ip_adapter.{n}.to_v_ip.weight"));
    }
    let bundle = weights_of(keys.clone());
    let encoder = weights_of(vision_keys(32));
    let parts = assemble(&unet, &bundle, &encoder).unwrap();
    assert_eq!(parts.pairs.len(), 70);
    assert_eq!(parts.layers.len(), 70);
    assert_eq!(parts.tower.head_dim, 80);
    assert_eq!(parts.resampler.output_dim(), 2048);
    // One pair too few.
    let few = weights_of(keys[..keys.len() - 2].to_vec());
    assert_eq!(
        assemble(&unet, &few, &encoder).unwrap_err().message(),
        "ip_adapter: fewer K/V pairs than UNet cross-attentions"
    );
    // A tower of another depth.
    let e = assemble(&unet, &bundle, &weights_of(vision_keys(24))).unwrap_err();
    assert_eq!(
        e.message(),
        "clip vision encoder: checkpoint has 24 layers but the config expects 32 (wrong \
         ViT-H/ViT-L variant?)"
    );
    let e = assemble(&unet, &bundle, &weights_of(vec![])).unwrap_err();
    assert_eq!(
        e.message(),
        "clip vision encoder: no `vision_model.encoder.layers.{n}` keys found"
    );
}

#[test]
fn num_positions_matches_grid() {
    assert_eq!(VisionConfig::vit_h_14().num_positions(), 257);
    assert_eq!(VisionConfig::vit_l_14().num_positions(), 257);
    assert_eq!(VisionConfig::vit_l_14_336().num_positions(), 577);
}

#[test]
fn penultimate_shape_and_finite() {
    let cfg = VisionConfig {
        hidden: 32,
        num_layers: 3,
        num_heads: 4,
        patch: 2,
        image_size: 8,
        num_channels: 3,
        quick_gelu: false,
    };
    let w = weights_of(vision_keys(3));
    check_layer_count(&w, &cfg).unwrap();
    let enc = ClipVisionEncoder::from_weights(&w, &cfg).unwrap();
    assert_eq!(enc.penultimate(), 2);
    assert_eq!(cfg.num_positions(), 17);
    assert_eq!((enc.hidden, enc.head_dim, enc.patch), (32, 8, 2));
    // Five embedding tensors and 16 for each layer, all found in order.
    assert_eq!(enc.tensors, (0..5 + 3 * 16).collect::<Vec<usize>>());
}

#[test]
fn last_hidden_runs_full_tower() {
    let cfg = VisionConfig {
        hidden: 32,
        num_layers: 3,
        num_heads: 4,
        patch: 2,
        image_size: 8,
        num_channels: 3,
        quick_gelu: true,
    };
    let enc = ClipVisionEncoder::from_weights(&weights_of(vision_keys(3)), &cfg).unwrap();
    assert_eq!(enc.last_hidden(), 3);
    assert_ne!(enc.last_hidden(), enc.penultimate());
}

#[test]
fn check_layer_count_rejects_mismatch() {
    let cfg = VisionConfig {
        hidden: 8,
        num_layers: 2,
        num_heads: 2,
        patch: 2,
        image_size: 4,
        num_channels: 3,
        quick_gelu: false,
    };
    let w = weights_of(vision_keys(2));
    let wrong = VisionConfig {
        num_layers: 4,
        ..cfg
    };
    assert!(check_layer_count(&w, &wrong).is_err());
    assert!(check_layer_count(&w, &cfg).is_ok());
    // The largest index counts, whatever it is.
    let one = VisionConfig {
        num_layers: 1,
        ..cfg
    };
    let far = weights_of(vec![
        "vision_model.encoder.layers.0.x".into(),
        format!("vision_model.encoder.layers.{}.x", usize::MAX),
    ]);
    assert_eq!(
        check_layer_count(&far, &one).unwrap_err().message(),
        format!(
            "clip vision encoder: checkpoint has {} layers but the config expects 1 \
             (wrong ViT-H/ViT-L variant?)",
            usize::MAX as u128 + 1
        )
    );
    assert_eq!(
        check_layer_count(&weights_of(vec![]), &cfg)
            .unwrap_err()
            .message(),
        "clip vision encoder: no `vision_model.encoder.layers.{n}` keys found"
    );
    let mut short = vision_keys(2);
    short.pop();
    let e = ClipVisionEncoder::from_weights(&weights_of(short), &cfg).unwrap_err();
    assert_eq!(
        e.message(),
        "missing tensor: vision_model.encoder.layers.1.mlp.fc2.bias"
    );
}

#[test]
fn weights_are_looked_up_and_cast() {
    let w = weights_of(vec!["a".into(), "b".into()]);
    assert_eq!(w.require("b").unwrap(), 1);
    assert!(w.contains("a") && !w.contains("c"));
    assert_eq!(w.keys(), vec!["a", "b"]);
    assert_eq!(w.require("c").unwrap_err().message(), "missing tensor: c");
    assert!(ElementType::F32.is_cast_to(ElementType::F16));
    assert!(!ElementType::F16.is_cast_to(ElementType::F16));
    assert!(!ElementType::I64.is_cast_to(ElementType::F16));
}

#[test]
fn timesteps_span_and_zero_steps() {
    let s = EulerAncestralSampler::sdxl();
    assert!(s.timesteps(0).is_empty());
    let times = |n: usize| -> Vec<(f64, f64)> {
        let at = |i: usize| (0.0 - 1000.0) * (i as f64 / n as f64) + 1000.0;
        s.timesteps(n).iter().map(|&(a, b)| (at(a), at(b))).collect()
    };
    let ts = times(4);
    assert_eq!(ts.len(), 4);
    assert_eq!(ts[0].0, 1000.0);
    assert!((ts.last().unwrap().1 - 0.0).abs() < 1e-9);
    for w in ts.windows(2) {
        assert!((w[0].1 - w[1].0).abs() < 1e-12);
    }
}

#[test]
fn sigma_table_endpoints_and_interp() {
    let s = EulerAncestralSampler::sdxl();
    assert_eq!(s.table_len(), 1001);
    assert_eq!(s.max_time(), 1000);
    assert!(s.is_ancestral());
    // A half index lies between its neighbours, and the last entry has none above it.
    assert_eq!(s.bracket(10), (10, 11));
    assert_eq!(s.bracket(1000), (1000, 1000));
    assert_eq!(s.bracket(2000), (1000, 1000));
}

#[test]
fn final_step_ignores_noise() {
    let s = EulerAncestralSampler::sdxl();
    assert!(s.adds_noise(0, 4));
    assert!(!s.adds_noise(3, 4));
    let plain = EulerAncestralSampler::new(1000, false).unwrap();
    assert!(!plain.adds_noise(0, 4));
}

#[test]
fn zero_train_steps_is_rejected() {
    assert_eq!(
        EulerAncestralSampler::new(0, true).unwrap_err().message(),
        "euler sampler: train_steps must be >= 1"
    );
}

#[test]
fn captions_are_encoded_for_both_encoders() {
    let t = tokenizer();
    let pads = caption_pads(&t, &t).unwrap();
    assert_eq!(pads, (7, 7));
    let (l, g) = encode_caption(&t, &t, pads, "a cat").unwrap();
    assert_eq!(&l[..5], &[8, 3, 6, 9, 7]);
    assert_eq!((l.len(), &l), (77, &g));
    let e = encode_caption(&t, &t, pads, &"cat ".repeat(90)).unwrap_err();
    assert_eq!(caption_error(&e), "caption too long: 92 tokens > 77");
    let bare: Vec<(String, u32)> = vec![
        ("a</w>".into(), 0),
        ("<|startoftext|>".into(), 1),
        ("<|endoftext|>".into(), 2),
    ];
    let none = synthesize_clip_tokenizer(&bare, &vec![]).unwrap();
    let e = caption_pads(&t, &none).unwrap_err();
    assert_eq!(caption_error(&e), "pad token \"!\" not in CLIP vocab");
}

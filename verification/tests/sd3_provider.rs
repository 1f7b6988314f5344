use candle_gen_sd::error::Error;
use candle_gen_sd::float::Real32;
use candle_gen_sd::provider::{check_request, Invalid};
use candle_gen_sd::request::{
    AdapterKind, AdapterSpec, ConditioningKind, GenerationRequest, LoadSpec, Modality, Quant,
    Unserved, WeightsSource,
};
use candle_gen_sd::sd3::config::Variant;
use candle_gen_sd::sd3::provider::{
    descriptor, descriptor_for, descriptor_turbo, force_link, load, load_turbo, model_id,
    Sd3Generator, MODEL_ID, MODEL_ID_TURBO,
};

fn samplers() -> Vec<String> {
    vec!["euler".into(), "heun".into()]
}

fn schedulers() -> Vec<String> {
    vec!["flow_match".into()]
}

fn dir(path: &str) -> LoadSpec {
    LoadSpec::new(WeightsSource::Dir(path.into()))
}

fn large() -> Sd3Generator {
    load(&dir("/nonexistent"), samplers(), schedulers()).unwrap()
}

fn prompt(p: &str) -> GenerationRequest {
    GenerationRequest {
        prompt: p.into(),
        ..Default::default()
    }
}

fn single(x: f32) -> Real32 {
    Real32 { bits: x.to_bits() }
}

#[test]
fn sd3_registers_and_resolves_as_candle() {
    force_link();
    let g = large();
    assert_eq!(g.descriptor.id, MODEL_ID);
    assert_eq!(g.descriptor.family, "stable-diffusion-3");
    assert_eq!(g.descriptor.backend, "candle");
    assert_eq!(g.descriptor.modality, Modality::Image);
    assert_eq!(g.root, "/nonexistent");
}

#[test]
fn descriptor_advertises_cfg_txt2img_surface() {
    let d = descriptor(samplers(), schedulers());
    assert!(d.capabilities.supports_guidance);
    assert!(d.capabilities.supports_negative_prompt);
    assert!(!d.capabilities.mac_only);
    assert!(d.capabilities.conditioning.is_empty());
    assert!(!d.capabilities.supports_lora);
    assert!(d.capabilities.supported_quants.is_empty());
    assert!(d.capabilities.supported_guidance_methods.is_empty());
    assert_eq!(d.capabilities.min_size, 256);
    assert_eq!(d.capabilities.max_size, 2048);
    assert_eq!(d.capabilities.samplers, samplers());
    assert!(!d.capabilities.accepts(ConditioningKind::Reference));
}

#[test]
fn validate_accepts_txt2img_and_rejects_unsupported() {
    let g = large();
    assert!(g
        .validate(&prompt("a rusty robot holding a lit candle"))
        .is_ok());
    for bad in [
        GenerationRequest::default(),
        GenerationRequest {
            width: 1000,
            ..prompt("x")
        },
        GenerationRequest {
            steps: Some(0),
            ..prompt("x")
        },
        GenerationRequest {
            conditioning: vec![ConditioningKind::Reference],
            ..prompt("x")
        },
    ] {
        assert!(g.validate(&bad).is_err(), "should reject: {bad:?}");
    }
    let Err(Error::Msg(m)) = g.validate(&GenerationRequest {
        width: 1000,
        ..prompt("x")
    }) else {
        panic!("a size that is no multiple must error")
    };
    assert_eq!(
        m,
        "stable_diffusion_3_5_large: width/height must be multiples of 16 (got 1000x1024)"
    );
}

#[test]
fn turbo_registers_and_advertises_distilled_surface() {
    let g = load_turbo(&dir("/nonexistent"), samplers(), schedulers()).unwrap();
    assert_eq!(g.descriptor.id, MODEL_ID_TURBO);
    assert_eq!(g.descriptor.family, "stable-diffusion-3");
    assert_eq!(g.descriptor.backend, "candle");
    let d = descriptor_turbo(samplers(), schedulers());
    assert!(!d.capabilities.supports_guidance, "turbo is distilled");
    assert!(!d.capabilities.supports_negative_prompt);
    assert!(!d.capabilities.mac_only);
    for bad in [
        GenerationRequest {
            guidance: Some(single(5.0)),
            ..prompt("x")
        },
        GenerationRequest {
            negative_prompt: Some("blurry".into()),
            ..prompt("x")
        },
    ] {
        assert!(g.validate(&bad).is_err(), "turbo should reject: {bad:?}");
        assert!(large().validate(&bad).is_ok());
    }
}

#[test]
fn load_rejects_unwired_surfaces() {
    let refused = |spec: LoadSpec| match load(&spec, samplers(), schedulers()) {
        Err(Error::Unsupported(m)) => m,
        other => panic!("must be refused: {other:?}"),
    };
    let m = refused(LoadSpec {
        quantize: Some(Quant::Q8),
        ..dir("/snap")
    });
    assert!(m.contains("quantization"));
    let lora = AdapterSpec {
        path: "/lora.safetensors".into(),
        scale: single(1.0),
        kind: AdapterKind::Lora,
    };
    let m = refused(LoadSpec {
        adapters: vec![lora],
        ..dir("/snap")
    });
    assert!(m.contains("LoRA/LoKr"));
    let m = refused(LoadSpec {
        extra_controls: vec!["/c".into()],
        ..dir("/snap")
    });
    assert!(m.contains("control"));
    let m = refused(LoadSpec {
        ip_adapter: Some("/i".into()),
        ..dir("/snap")
    });
    assert!(m.contains("IP-adapter"));
}

#[test]
fn load_rejects_single_file_source() {
    let spec = LoadSpec::new(WeightsSource::File("/tmp/sd3.safetensors".into()));
    let Err(e) = load(&spec, samplers(), schedulers()) else {
        panic!("single-file source must be refused")
    };
    assert!(e.message().contains("snapshot directory"));
}

#[test]
fn every_unserved_part_is_named() {
    let caps = descriptor_for(Variant::LargeTurbo, samplers(), schedulers()).capabilities;
    let why = |r: GenerationRequest| check_request(&caps, &r, 16).unwrap_err();
    let cases = [
        (
            GenerationRequest {
                count: 0,
                ..prompt("x")
            },
            Unserved::Count,
        ),
        (
            GenerationRequest {
                count: 9,
                ..prompt("x")
            },
            Unserved::Count,
        ),
        (
            GenerationRequest {
                height: 2064,
                ..prompt("x")
            },
            Unserved::Size,
        ),
        (
            GenerationRequest {
                guidance: Some(single(1.0)),
                ..prompt("x")
            },
            Unserved::Guidance,
        ),
        (
            GenerationRequest {
                negative_prompt: Some("y".into()),
                ..prompt("x")
            },
            Unserved::NegativePrompt,
        ),
        (
            GenerationRequest {
                sampler: Some("ddim".into()),
                ..prompt("x")
            },
            Unserved::Sampler,
        ),
        (
            GenerationRequest {
                conditioning: vec![ConditioningKind::Mask],
                ..prompt("x")
            },
            Unserved::Conditioning,
        ),
    ];
    for (req, want) in cases {
        assert_eq!(why(req), Invalid::Unserved(want));
    }
    assert_eq!(why(prompt("")), Invalid::EmptyPrompt);
    assert_eq!(
        why(GenerationRequest {
            steps: Some(0),
            ..prompt("x")
        }),
        Invalid::ZeroSteps
    );
    assert!(check_request(
        &caps,
        &GenerationRequest {
            sampler: Some("heun".into()),
            ..prompt("x")
        },
        16
    )
    .is_ok());
    assert_eq!(model_id(Variant::LargeTurbo), MODEL_ID_TURBO);
}

#[test]
fn errors_have_words() {
    assert_eq!(Error::Canceled.message(), "canceled");
    assert_eq!(Error::Unsupported("x".into()).message(), "unsupported: x");
    assert_eq!(Error::Msg("y".into()).message(), "y");
}

use std::collections::HashMap;

use candle_core::{DType, Device, Tensor};
use candle_gen_sd::adapter::{AdapterFile, KohyaTable, TensorEntry};
use candle_gen_sd::factors::{
    lora_strength, lycoris_strength, metadata_numbers, LoraAdapterMeta, Role, Strength,
};
use candle_gen_sd::float::Real32;
use candle_gen_sd::request::{AdapterKind, AdapterSpec};
use candle_gen_sd::sdxl::adapters::{
    build_kohya_table, classify_lokr_key, classify_lora_key, merge_adapters, merge_family,
    resolve_lokr_path, route_file, Family, Fault, MergeError, MergeReport, Module,
};
use safetensors::tensor::TensorView;
use safetensors::Dtype;

const TO_Q: &str = "down_blocks.0.attentions.0.transformer_blocks.0.attn1.to_q";

fn base_map() -> HashMap<String, Tensor> {
    let dev = Device::Cpu;
    let mut m = HashMap::new();
    m.insert(
        format!("{TO_Q}.weight"),
        Tensor::zeros((4, 4), DType::F16, &dev).unwrap(),
    );
    m.insert(
        "down_blocks.0.attentions.0.transformer_blocks.0.attn1.to_out.0.weight".into(),
        Tensor::zeros((4, 4), DType::F16, &dev).unwrap(),
    );
    m.insert(
        "conv_in.weight".into(),
        Tensor::zeros((4, 4, 3, 3), DType::F16, &dev).unwrap(),
    );
    m
}

fn t2(data: &[f32], r: usize, c: usize) -> Tensor {
    Tensor::from_vec(data.to_vec(), (r, c), &Device::Cpu).unwrap()
}

fn entries_of(map: &HashMap<String, Tensor>) -> Vec<TensorEntry> {
    let mut names: Vec<&String> = map.keys().collect();
    names.sort();
    names
        .into_iter()
        .map(|n| TensorEntry {
            name: n.clone(),
            dims: map[n].dims().to_vec(),
        })
        .collect()
}

fn file_of(tensors: &HashMap<String, Tensor>, meta: &[(&str, &str)]) -> AdapterFile {
    AdapterFile {
        tensors: entries_of(tensors),
        meta: meta
            .iter()
            .map(|(k, v)| (k.to_string(), v.to_string()))
            .collect(),
    }
}

fn max_abs(t: &Tensor) -> f32 {
    t.abs()
        .unwrap()
        .max_all()
        .unwrap()
        .to_scalar::<f32>()
        .unwrap()
}

fn kron(a: &Tensor, b: &Tensor) -> Tensor {
    let (ar, ac) = a.dims2().unwrap();
    let (br, bc) = b.dims2().unwrap();
    let a = a.reshape((ar, 1, ac, 1)).unwrap();
    let b = b.reshape((1, br, 1, bc)).unwrap();
    a.broadcast_mul(&b)
        .unwrap()
        .reshape((ar * br, ac * bc))
        .unwrap()
}

/// The LoRA delta of a module, a convolution's in the shape of its weight.
fn lora_delta(m: &Module, af: &AdapterFile, tensors: &HashMap<String, Tensor>, dims: &[usize]) -> Tensor {
    let get = |slot: usize| m.factors[slot].map(|i| &tensors[&af.tensors[i].name]);
    let (down, up) = (get(0).unwrap(), get(1).unwrap());
    let rank = m.rank.unwrap() as f64;
    let alpha = match get(2) {
        Some(a) => a.flatten_all().unwrap().to_vec1::<f32>().unwrap()[0] as f64,
        None => rank,
    };
    let (d, u) = if m.conv {
        let r = down.dims()[0];
        (
            down.reshape((r, down.elem_count() / r)).unwrap(),
            up.reshape((up.dims()[0], r)).unwrap(),
        )
    } else {
        (down.clone(), up.clone())
    };
    (u.matmul(&d).unwrap() * (alpha / rank))
        .unwrap()
        .reshape(dims)
        .unwrap()
}

fn add(map: &mut HashMap<String, Tensor>, name: &str, delta: &Tensor) {
    let w = map[name].to_dtype(DType::F32).unwrap();
    let sum = (w + delta).unwrap();
    map.insert(name.into(), sum);
}

fn apply_lora(
    map: &mut HashMap<String, Tensor>,
    base: &[TensorEntry],
    af: &AdapterFile,
    tensors: &HashMap<String, Tensor>,
    modules: &[Module],
) {
    for m in modules {
        let entry = &base[m.base];
        let delta = lora_delta(m, af, tensors, &entry.dims);
        add(map, &entry.name, &delta);
    }
}

fn spec(kind: AdapterKind) -> AdapterSpec {
    AdapterSpec {
        path: "a.safetensors".into(),
        scale: Real32 {
            bits: 1f32.to_bits(),
        },
        kind,
    }
}

fn safetensors_bytes(tensors: &[(&str, Vec<usize>)], meta: Option<HashMap<String, String>>) -> Vec<u8> {
    let data: Vec<(String, Vec<usize>, Vec<u8>)> = tensors
        .iter()
        .map(|(n, d)| {
            let n_el: usize = d.iter().product();
            (n.to_string(), d.clone(), vec![0u8; n_el * 4])
        })
        .collect();
    let views: Vec<(String, TensorView)> = data
        .iter()
        .map(|(n, d, b)| (n.clone(), TensorView::new(Dtype::F32, d.clone(), b).unwrap()))
        .collect();
    safetensors::serialize(views, meta).unwrap()
}

#[test]
fn classify_lora_resolves_peft_kohya_and_bare() {
    let table = build_kohya_table(&entries_of(&base_map()));
    let (p, _) = classify_lora_key(
        "base_model.model.unet.down_blocks.0.attentions.0.transformer_blocks.0.attn1.to_q.lora_A.weight",
        &table,
    )
    .unwrap();
    assert_eq!(p, TO_Q);
    assert!(matches!(
        classify_lora_key(
            "base_model.model.unet.down_blocks.0.attentions.0.transformer_blocks.0.attn1.to_q.lora_B.default.weight",
            &table,
        )
        .unwrap()
        .1,
        Role::Up
    ));
    let (p, _) = classify_lora_key(
        "lora_unet_down_blocks_0_attentions_0_transformer_blocks_0_attn1_to_out_0.lora_down.weight",
        &table,
    )
    .unwrap();
    assert_eq!(
        p,
        "down_blocks.0.attentions.0.transformer_blocks.0.attn1.to_out.0"
    );
    assert!(classify_lora_key(
        "lora_te1_text_model_encoder_layers_0_self_attn_q_proj.lora_down.weight",
        &table
    )
    .is_none());
    for suffix in ["alpha", "lora_A.weight", "lora_B.weight"] {
        let key = format!("lora_te1_text_model_encoder_layers_0_self_attn_q_proj.{suffix}");
        assert!(classify_lora_key(&key, &table).is_none());
    }
    assert!(classify_lokr_key("lora_te2_text_model.lokr_w1", &table).is_none());
}

#[test]
fn classify_lora_translates_original_sd_naming() {
    let path = "down_blocks.1.attentions.0.transformer_blocks.0.attn1.to_q";
    let table = KohyaTable {
        rows: vec![(path.replace('.', "_"), path.to_string())],
    };
    let (p, role) = classify_lora_key(
        "lora_unet_input_blocks_4_1_transformer_blocks_0_attn1_to_q.lora_down.weight",
        &table,
    )
    .expect("original-SD input_blocks key should translate + resolve");
    assert_eq!(p, path);
    assert!(matches!(role, Role::Down));
    assert_eq!(
        classify_lokr_key(
            "lora_unet_input_blocks_4_1_transformer_blocks_0_attn1_to_q.lokr_w1",
            &table,
        )
        .unwrap()
        .0,
        path
    );
}

#[test]
fn merge_lora_peft_folds_expected_delta() {
    let mut map = base_map();
    let base = entries_of(&map);
    let down = t2(&[1.0, 0.0, 0.0, 0.0, 0.0, 1.0, 0.0, 0.0], 2, 4);
    let up = t2(&[2.0, 0.0, 0.0, 3.0, 0.0, 0.0, 0.0, 0.0], 4, 2);
    let tensors = HashMap::from([
        (
            format!("base_model.model.unet.{TO_Q}.lora_A.weight"),
            down.clone(),
        ),
        (
            format!("base_model.model.unet.{TO_Q}.lora_B.weight"),
            up.clone(),
        ),
        (
            format!("base_model.model.unet.{TO_Q}.alpha"),
            Tensor::from_vec(vec![4.0f32], (1,), &Device::Cpu).unwrap(),
        ),
    ]);
    let af = file_of(&tensors, &[]);
    let table = build_kohya_table(&base);
    let mut report = MergeReport::default();
    let modules = merge_family(Family::Lora, &base, &af, &table, &mut report).unwrap();
    assert_eq!(report.merged, 1);
    apply_lora(&mut map, &base, &af, &tensors, &modules);
    let merged = map[&format!("{TO_Q}.weight")].to_dtype(DType::F32).unwrap();
    let expected = (up.matmul(&down).unwrap() * 2.0).unwrap();
    let diff = max_abs(&(merged - expected).unwrap());
    assert!(diff < 1e-4, "merged weight off by {diff}");
}

fn number(s: Strength) -> f64 {
    match s {
        Strength::Given(x) => f32::from_bits(x.bits) as f64,
        Strength::Rank(r) => r as f64,
    }
}

#[test]
fn merge_lora_honors_lora_adapter_metadata_alpha() {
    let mut map = base_map();
    let base = entries_of(&map);
    let dev = Device::Cpu;
    let down = Tensor::randn(0f32, 1f32, (8, 4), &dev).unwrap();
    let up = Tensor::randn(0f32, 1f32, (4, 8), &dev).unwrap();
    let tensors = HashMap::from([
        (
            format!("base_model.model.unet.{TO_Q}.lora_A.weight"),
            down.clone(),
        ),
        (
            format!("base_model.model.unet.{TO_Q}.lora_B.weight"),
            up.clone(),
        ),
    ]);
    let af = file_of(
        &tensors,
        &[("lora_adapter_metadata", r#"{"lora_alpha": 16, "r": 8}"#)],
    );
    let table = build_kohya_table(&base);
    let mut report = MergeReport::default();
    let modules = merge_family(Family::Lora, &base, &af, &table, &mut report).unwrap();
    assert_eq!(report.merged, 1);
    // The file has no alpha tensor, so the metadata's alpha and rank scale the delta.
    assert!(modules[0].factors[2].is_none());
    let numbers = metadata_numbers(&af).unwrap();
    let single = |text: Option<String>| {
        text.map(|t| Real32 {
            bits: (t.parse::<f64>().unwrap() as f32).to_bits(),
        })
    };
    let meta = LoraAdapterMeta {
        lora_alpha: single(numbers.lora_alpha),
        r: single(numbers.r),
        alpha_pattern: vec![],
        rank_pattern: vec![],
    };
    let (meta_alpha, meta_rank) = meta.effective(&modules[0].stem);
    let (alpha, rank) = lora_strength(None, meta_alpha, meta_rank, modules[0].rank.unwrap());
    let scale = number(alpha) / number(rank);
    let delta = (up.matmul(&down).unwrap() * scale).unwrap();
    add(&mut map, &base[modules[0].base].name, &delta);
    let merged = map[&format!("{TO_Q}.weight")].to_dtype(DType::F32).unwrap();
    let expected = (up.matmul(&down).unwrap() * 2.0).unwrap();
    let diff = max_abs(&(&merged - &expected).unwrap());
    assert!(diff < 1e-4, "metadata-alpha merge off by {diff}");
    let unscaled = up.matmul(&down).unwrap();
    let gap = max_abs(&(&merged - &unscaled).unwrap());
    assert!(
        gap > 1e-3,
        "metadata alpha must differ from the alpha=rank default (gap {gap})"
    );
}

#[test]
fn metadata_numbers_are_read() {
    let of = |blob: &str| {
        metadata_numbers(&AdapterFile {
            tensors: vec![],
            meta: vec![("lora_adapter_metadata".into(), blob.into())],
        })
    };
    let n = of(
        r#"{"lora_alpha":-0.5,"r":"8","alpha_pattern":{"to_q":4,"to_k":"x","attn.to_v":1.5e1},"rank_pattern":[1]}"#,
    )
    .unwrap();
    assert_eq!(n.lora_alpha.as_deref(), Some("-0.5"));
    assert_eq!(n.r, None);
    assert_eq!(
        n.alpha_pattern,
        vec![
            ("attn.to_v".to_string(), "15.0".to_string()),
            ("to_q".to_string(), "4".to_string())
        ]
    );
    assert!(n.rank_pattern.is_empty());
    assert!(of("[1]").is_none());
    assert!(of("{").is_none());
    let none = AdapterFile {
        tensors: vec![],
        meta: vec![],
    };
    assert!(metadata_numbers(&none).is_none());
}

#[test]
fn strengths_fall_back_in_order() {
    let x = |v: f32| Some(Real32 { bits: v.to_bits() });
    assert_eq!(
        lora_strength(x(4.0), x(16.0), x(8.0), 2),
        (
            Strength::Given(x(4.0).unwrap()),
            Strength::Given(x(8.0).unwrap())
        )
    );
    assert_eq!(
        lora_strength(None, None, None, 2),
        (Strength::Rank(2), Strength::Rank(2))
    );
    assert_eq!(
        lora_strength(None, None, x(8.0), 2).0,
        Strength::Given(x(8.0).unwrap())
    );
    assert_eq!(lycoris_strength(x(4.0), None), None);
    assert_eq!(lycoris_strength(None, Some(4)), Some((Strength::Rank(4), 4)));
    assert_eq!(
        lycoris_strength(x(2.0), Some(4)),
        Some((Strength::Given(x(2.0).unwrap()), 4))
    );
}

#[test]
fn merge_conv_lora_folds_into_conv_weight() {
    let mut map = base_map();
    let base = entries_of(&map);
    let dev = Device::Cpu;
    let down = Tensor::randn(0f32, 1f32, (2, 4, 3, 3), &dev).unwrap();
    let up = Tensor::randn(0f32, 1f32, (4, 2, 1, 1), &dev).unwrap();
    let tensors = HashMap::from([
        (
            "base_model.model.unet.conv_in.lora_A.weight".to_string(),
            down.clone(),
        ),
        (
            "base_model.model.unet.conv_in.lora_B.weight".to_string(),
            up.clone(),
        ),
    ]);
    let af = file_of(&tensors, &[]);
    let table = build_kohya_table(&base);
    let mut report = MergeReport::default();
    let modules = merge_family(Family::Lora, &base, &af, &table, &mut report).unwrap();
    assert_eq!(report.merged, 1);
    assert_eq!(report.skipped_keys, 0);
    assert!(modules[0].conv);
    apply_lora(&mut map, &base, &af, &tensors, &modules);
    let merged = map["conv_in.weight"].to_dtype(DType::F32).unwrap();
    assert_eq!(merged.dims(), &[4, 4, 3, 3]);
    let expected = up
        .reshape((4, 2))
        .unwrap()
        .matmul(&down.reshape((2, 36)).unwrap())
        .unwrap()
        .reshape((4, 4, 3, 3))
        .unwrap();
    let diff = max_abs(&(merged - expected).unwrap());
    assert!(diff < 1e-4, "merged conv weight off by {diff}");
}

#[test]
fn merge_kohya_conv_lora_resolves_flattened_stem() {
    let dev = Device::Cpu;
    let map = HashMap::from([(
        "down_blocks.0.downsamplers.0.conv.weight".to_string(),
        Tensor::zeros((4, 4, 1, 1), DType::F16, &dev).unwrap(),
    )]);
    let tensors = HashMap::from([
        (
            "lora_unet_down_blocks_0_downsamplers_0_conv.lora_down.weight".to_string(),
            Tensor::randn(0f32, 1f32, (2, 4, 1, 1), &dev).unwrap(),
        ),
        (
            "lora_unet_down_blocks_0_downsamplers_0_conv.lora_up.weight".to_string(),
            Tensor::randn(0f32, 1f32, (4, 2, 1, 1), &dev).unwrap(),
        ),
    ]);
    let base = entries_of(&map);
    let af = file_of(&tensors, &[]);
    let table = build_kohya_table(&base);
    let mut report = MergeReport::default();
    merge_family(Family::Lora, &base, &af, &table, &mut report).unwrap();
    assert_eq!(report.merged, 1, "kohya conv stem must resolve and merge");
    assert_eq!(report.skipped_keys, 0);
}

#[test]
fn merge_lokr_folds_kron_delta() {
    let mut map = base_map();
    let base = entries_of(&map);
    let w1 = t2(&[1.0, 0.0, 0.0, 1.0], 2, 2);
    let w2 = t2(&[0.5, 0.0, 0.0, 0.5], 2, 2);
    let tensors = HashMap::from([
        (format!("{TO_Q}.lokr_w1"), w1.clone()),
        (format!("{TO_Q}.lokr_w2"), w2.clone()),
    ]);
    let af = file_of(
        &tensors,
        &[("networkType", "lokr"), ("rank", "2"), ("alpha", "2")],
    );
    let table = build_kohya_table(&base);
    let mut report = MergeReport::default();
    let modules = merge_family(Family::Lokr, &base, &af, &table, &mut report).unwrap();
    assert_eq!(report.merged, 1);
    for m in &modules {
        let factor = |slot: usize| &tensors[&af.tensors[m.factors[slot].unwrap()].name];
        let delta = kron(factor(2), factor(5));
        add(&mut map, &base[m.base].name, &delta);
    }
    let merged = map[&format!("{TO_Q}.weight")].to_dtype(DType::F32).unwrap();
    let diff = max_abs(&(merged - kron(&w1, &w2)).unwrap());
    assert!(diff < 1e-4, "merged lokr weight off by {diff}");
}

#[test]
fn merge_adapters_errors_when_nothing_matches() {
    let base = entries_of(&base_map());
    let tensors = HashMap::from([(
        "lora_unet_nonexistent_module.lora_down.weight".to_string(),
        t2(&[0.0, 0.0], 1, 2),
    )]);
    let af = file_of(&tensors, &[]);
    let table = build_kohya_table(&base);
    let mut report = MergeReport::default();
    merge_family(Family::Lora, &base, &af, &table, &mut report).unwrap();
    assert_eq!(report.merged, 0);
    assert!(report.skipped_keys >= 1);
    // Through the whole merge it is an error.
    let bytes = safetensors_bytes(
        &[("lora_unet_nonexistent_module.lora_down.weight", vec![1, 2])],
        None,
    );
    let Err(e) = merge_adapters(&base, &vec![spec(AdapterKind::Lora)], &vec![bytes]) else {
        panic!("nothing merged must error")
    };
    assert!(matches!(e, MergeError::NothingMatched { .. }));
}

#[test]
fn merge_adapters_rejects_kind_metadata_mismatch() {
    let af = AdapterFile {
        tensors: vec![],
        meta: vec![("networkType".to_string(), "lokr".to_string())],
    };
    assert!(af.declares_lokr());
    let base = entries_of(&base_map());
    let bytes = safetensors_bytes(
        &[("x.lokr_w1", vec![2, 2])],
        Some(HashMap::from([(
            "networkType".to_string(),
            "lokr".to_string(),
        )])),
    );
    let Err(e) = merge_adapters(&base, &vec![spec(AdapterKind::Lora)], &vec![bytes]) else {
        panic!("a mismatched kind must error")
    };
    assert!(matches!(e, MergeError::KindMismatch { .. }));
    assert!(e.message().contains("a.safetensors"));
}

#[test]
fn adapters_roundtrip_trainer_peft_file_merges() {
    let path = "down_blocks.0.attentions.0.transformer_blocks.0.attn1.to_v";
    let a = format!("base_model.model.unet.{path}.lora_A.weight");
    let b = format!("base_model.model.unet.{path}.lora_B.weight");
    let alpha = format!("base_model.model.unet.{path}.alpha");
    let bytes = safetensors_bytes(
        &[
            (a.as_str(), vec![2, 4]),
            (b.as_str(), vec![4, 2]),
            (alpha.as_str(), vec![1]),
        ],
        None,
    );
    let base = vec![TensorEntry {
        name: format!("{path}.weight"),
        dims: vec![4, 4],
    }];
    let (files, report) =
        merge_adapters(&base, &vec![spec(AdapterKind::Lora)], &vec![bytes]).unwrap();
    assert_eq!(report.merged, 1, "the trained to_v adapter must merge");
    assert_eq!(report.skipped_keys, 0);
    let m = &files[0].modules[0];
    assert_eq!((m.base, m.rank, m.conv), (0, Some(2), false));
    assert_eq!(m.stem, path);
    // The same file on the SD3 naming is out of this surface.
    assert!(m.factors[0].is_some() && m.factors[1].is_some() && m.factors[2].is_some());
}

#[test]
fn merge_thirdparty_lokr_routes_resolves_and_merges() {
    let base = entries_of(&base_map());
    let to_q = "lora_unet_down_blocks_0_attentions_0_transformer_blocks_0_attn1_to_q";
    let tensors = HashMap::from([
        (format!("{to_q}.lokr_w1"), t2(&[1.0, 0.0, 0.0, 1.0], 2, 2)),
        (format!("{to_q}.lokr_w2"), t2(&[0.5, 0.0, 0.0, 0.5], 2, 2)),
        ("lora_unet_conv_in.lokr_w1".to_string(), t2(&[1.0], 1, 1)),
        ("lora_unet_conv_in.lokr_w2".to_string(), t2(&[1.0], 1, 1)),
    ]);
    let af = file_of(&tensors, &[]);
    assert!(!af.declares_lokr());
    assert_eq!(
        route_file(AdapterKind::Lokr, &af),
        Some(Family::ThirdPartyLokr)
    );
    let table = build_kohya_table(&base);
    assert_eq!(resolve_lokr_path(to_q, &table).as_deref(), Some(TO_Q));
    let mut report = MergeReport::default();
    let modules = merge_family(Family::ThirdPartyLokr, &base, &af, &table, &mut report).unwrap();
    assert_eq!(report.merged, 1, "the to_q LoKr must merge");
    assert!(
        report.skipped_keys >= 1,
        "the conv-targeting LoKr is Linear-only ⇒ skipped"
    );
    assert_eq!(base[modules[0].base].name, format!("{TO_Q}.weight"));
    // Both factors are full, so no rank scales the delta.
    assert_eq!(modules[0].rank, None);
}

#[test]
fn merge_thirdparty_loha_routes_and_merges() {
    let base = entries_of(&base_map());
    let to_q = "lora_unet_down_blocks_0_attentions_0_transformer_blocks_0_attn1_to_q";
    let tensors = HashMap::from([
        (
            format!("{to_q}.hada_w1_a"),
            t2(&[0.5, 0.1, -0.2, 0.3], 4, 1),
        ),
        (
            format!("{to_q}.hada_w1_b"),
            t2(&[0.4, -0.1, 0.2, 0.6], 1, 4),
        ),
        (
            format!("{to_q}.hada_w2_a"),
            t2(&[0.2, 0.0, 0.1, -0.3], 4, 1),
        ),
        (
            format!("{to_q}.hada_w2_b"),
            t2(&[1.0, 0.5, -0.5, 0.25], 1, 4),
        ),
    ]);
    let af = file_of(&tensors, &[]);
    assert_eq!(
        route_file(AdapterKind::Lora, &af),
        Some(Family::ThirdPartyLoha)
    );
    let table = build_kohya_table(&base);
    let mut report = MergeReport::default();
    let modules = merge_family(Family::ThirdPartyLoha, &base, &af, &table, &mut report).unwrap();
    assert_eq!(report.merged, 1);
    assert_eq!(modules[0].rank, Some(1));
    assert_eq!(base[modules[0].base].name, format!("{TO_Q}.weight"));
}

#[test]
fn faulty_modules_are_reported() {
    let base = entries_of(&base_map());
    let table = build_kohya_table(&base);
    let mut report = MergeReport::default();
    // A LoHa leg is missing.
    let af = file_of(
        &HashMap::from([(
            format!("lora_unet_{}.hada_w1_a", TO_Q.replace('.', "_")),
            t2(&[0.0; 4], 4, 1),
        )]),
        &[],
    );
    assert_eq!(
        merge_family(Family::ThirdPartyLoha, &base, &af, &table, &mut report).unwrap_err(),
        Fault::MissingLeg
    );
    // Factors that do not multiply.
    let af = file_of(
        &HashMap::from([
            (format!("{TO_Q}.lora_A.weight"), t2(&[0.0; 8], 2, 4)),
            (format!("{TO_Q}.lora_B.weight"), t2(&[0.0; 12], 4, 3)),
        ]),
        &[],
    );
    assert_eq!(
        merge_family(Family::Lora, &base, &af, &table, &mut report).unwrap_err(),
        Fault::Shapes
    );
    assert_eq!((report.merged, report.skipped_keys), (0, 0));
}

#[test]
fn patterns_go_before_the_number_for_all_modules() {
    let x = |v: f32| Real32 { bits: v.to_bits() };
    let meta = LoraAdapterMeta {
        lora_alpha: Some(x(16.0)),
        r: None,
        alpha_pattern: vec![
            ("attn1.to_k".to_string(), x(4.0)),
            (TO_Q.to_string(), x(2.0)),
        ],
        rank_pattern: vec![("to_q".to_string(), x(8.0))],
    };
    assert_eq!(meta.effective(TO_Q), (Some(x(2.0)), Some(x(8.0))));
    assert_eq!(
        meta.effective("down_blocks.0.attn1.to_k"),
        (Some(x(4.0)), None)
    );
    // A pattern names whole segments.
    assert_eq!(
        meta.effective("down_blocks.0.xattn1.to_k"),
        (Some(x(16.0)), None)
    );
    assert_eq!(meta.effective("to_q"), (Some(x(16.0)), Some(x(8.0))));
}

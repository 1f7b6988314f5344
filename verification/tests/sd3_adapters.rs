use std::collections::HashMap;

use candle_core::{DType, Device, Tensor};
use candle_gen_sd::adapter::{read_adapter, AdapterFile, Fold, TensorEntry};
use candle_gen_sd::float::Real32;
use candle_gen_sd::request::{AdapterKind, AdapterSpec};
use candle_gen_sd::sd3::adapters::{
    merge_adapters, merge_lokr_file, merge_lora_file, split_lokr_factor, split_lora_role, FilePlan,
    LokrPlan, LoraModule, MergeError, MergeReport,
};
use candle_gen_sd::sd3::targets::{
    build_kohya_table, map_block_leaf, map_native_stem, resolve_targets, strip_peft_prefix, Target,
};
use safetensors::tensor::TensorView;
use safetensors::Dtype;

fn randn(r: usize, c: usize) -> Tensor {
    Tensor::randn(0f32, 1f32, (r, c), &Device::Cpu).unwrap()
}

fn max_abs(t: &Tensor) -> f32 {
    t.abs()
        .unwrap()
        .max_all()
        .unwrap()
        .to_scalar::<f32>()
        .unwrap()
}

/// The tensors of a transformer of width 4 with one joint block, its conv patch embedding among them.
fn base_map() -> HashMap<String, Tensor> {
    let dev = Device::Cpu;
    let mut m = HashMap::new();
    let z = |r: usize, c: usize| Tensor::zeros((r, c), DType::BF16, &dev).unwrap();
    for k in ["to_q", "to_k", "to_v", "to_out.0"] {
        m.insert(format!("transformer_blocks.0.attn.{k}.weight"), z(4, 4));
    }
    for k in ["add_q_proj", "add_k_proj", "add_v_proj", "to_add_out"] {
        m.insert(format!("transformer_blocks.0.attn.{k}.weight"), z(4, 4));
    }
    m.insert("transformer_blocks.0.ff.net.0.proj.weight".into(), z(8, 4));
    m.insert("transformer_blocks.0.ff.net.2.weight".into(), z(4, 8));
    m.insert(
        "transformer_blocks.0.ff_context.net.0.proj.weight".into(),
        z(8, 4),
    );
    m.insert(
        "transformer_blocks.0.ff_context.net.2.weight".into(),
        z(4, 8),
    );
    m.insert("transformer_blocks.0.norm1.linear.weight".into(), z(24, 4));
    m.insert(
        "transformer_blocks.0.norm1_context.linear.weight".into(),
        z(24, 4),
    );
    m.insert("context_embedder.weight".into(), z(4, 16));
    m.insert(
        "time_text_embed.timestep_embedder.linear_1.weight".into(),
        z(4, 4),
    );
    m.insert(
        "time_text_embed.text_embedder.linear_1.weight".into(),
        z(4, 8),
    );
    m.insert("norm_out.linear.weight".into(), z(8, 4));
    m.insert("proj_out.weight".into(), z(16, 4));
    m.insert(
        "pos_embed.proj.weight".into(),
        Tensor::zeros((4, 16, 2, 2), DType::BF16, &dev).unwrap(),
    );
    m
}

fn entries_of(map: &HashMap<String, Tensor>) -> Vec<TensorEntry> {
    let mut names: Vec<&String> = map.keys().collect();
    names.sort();
    names
        .into_iter()
        .map(|n| TensorEntry {
            name: n.clone(),
            dims: map[n].dims().to_vec(),
        })
        .collect()
}

fn file_of(tensors: &HashMap<String, Tensor>, meta: &[(&str, &str)]) -> AdapterFile {
    AdapterFile {
        tensors: entries_of(tensors),
        meta: meta
            .iter()
            .map(|(k, v)| (k.to_string(), v.to_string()))
            .collect(),
    }
}

/// Adds the rows that the folds name to the base weights.
fn fold_delta(map: &mut HashMap<String, Tensor>, base: &[TensorEntry], delta: &Tensor, folds: &[Fold]) {
    for f in folds {
        let name = &base[f.base].name;
        let w = map[name].to_dtype(DType::F32).unwrap();
        let d = delta.narrow(0, f.first_row, f.rows).unwrap();
        let sum = (w + d).unwrap();
        map.insert(name.clone(), sum);
    }
}

fn lora_delta(down: &Tensor, up: &Tensor, alpha: f64, rank: f64, scale: f64) -> Tensor {
    (up.matmul(down).unwrap() * (alpha / rank * scale)).unwrap()
}

/// Performs a LoRA plan on tensors.
fn apply_lora(
    map: &mut HashMap<String, Tensor>,
    base: &[TensorEntry],
    af: &AdapterFile,
    tensors: &HashMap<String, Tensor>,
    modules: &[LoraModule],
    scale: f64,
) {
    for m in modules {
        let get = |i: usize| &tensors[&af.tensors[i].name];
        let alpha = match m.alpha {
            Some(i) => get(i).flatten_all().unwrap().to_vec1::<f32>().unwrap()[0] as f64,
            None => m.rank as f64,
        };
        let delta = lora_delta(get(m.down), get(m.up), alpha, m.rank as f64, scale);
        fold_delta(map, base, &delta, &m.folds);
    }
}

fn kron(a: &Tensor, b: &Tensor) -> Tensor {
    let (ar, ac) = a.dims2().unwrap();
    let (br, bc) = b.dims2().unwrap();
    let a = a.reshape((ar, 1, ac, 1)).unwrap();
    let b = b.reshape((1, br, 1, bc)).unwrap();
    a.broadcast_mul(&b)
        .unwrap()
        .reshape((ar * br, ac * bc))
        .unwrap()
}

/// Performs a LoKr plan of full factors on tensors.
fn apply_lokr(
    map: &mut HashMap<String, Tensor>,
    base: &[TensorEntry],
    af: &AdapterFile,
    tensors: &HashMap<String, Tensor>,
    plan: &LokrPlan,
    scale: f64,
) {
    let number = |s: &Option<String>| s.as_ref().and_then(|s| s.parse::<f64>().ok());
    let eff = match (number(&plan.rank), number(&plan.alpha)) {
        (Some(r), Some(a)) => a / r * scale,
        _ => scale,
    };
    for m in &plan.modules {
        let factor = |slot: usize| &tensors[&af.tensors[m.factors[slot].unwrap()].name];
        let delta = (kron(factor(2), factor(5)) * eff).unwrap();
        fold_delta(map, base, &delta, &m.folds);
    }
}

fn safetensors_bytes(tensors: &[(&str, Vec<usize>)], meta: Option<HashMap<String, String>>) -> Vec<u8> {
    let data: Vec<(String, Vec<usize>, Vec<u8>)> = tensors
        .iter()
        .map(|(n, d)| {
            let n_el: usize = d.iter().product();
            (n.to_string(), d.clone(), vec![0u8; n_el * 4])
        })
        .collect();
    let views: Vec<(String, TensorView)> = data
        .iter()
        .map(|(n, d, b)| (n.clone(), TensorView::new(Dtype::F32, d.clone(), b).unwrap()))
        .collect();
    safetensors::serialize(views, meta).unwrap()
}

fn spec(path: &str, kind: AdapterKind) -> AdapterSpec {
    AdapterSpec {
        path: path.into(),
        scale: Real32 {
            bits: 1f32.to_bits(),
        },
        kind,
    }
}

#[test]
fn native_stem_mapping_covers_the_surface() {
    assert_eq!(
        map_native_stem("joint_blocks_7_x_block_attn_qkv").unwrap(),
        vec![
            Target::chunk("transformer_blocks.7.attn.to_q", 0, 3),
            Target::chunk("transformer_blocks.7.attn.to_k", 1, 3),
            Target::chunk("transformer_blocks.7.attn.to_v", 2, 3),
        ]
    );
    assert_eq!(
        map_native_stem("joint_blocks_7_x_block_attn_proj").unwrap(),
        vec![Target::single("transformer_blocks.7.attn.to_out.0")]
    );
    assert_eq!(
        map_native_stem("joint_blocks_3_x_block_mlp_fc1").unwrap(),
        vec![Target::single("transformer_blocks.3.ff.net.0.proj")]
    );
    assert_eq!(
        map_native_stem("joint_blocks_3_x_block_mlp_fc2").unwrap(),
        vec![Target::single("transformer_blocks.3.ff.net.2")]
    );
    assert_eq!(
        map_native_stem("joint_blocks_3_x_block_adaLN_modulation_1").unwrap(),
        vec![Target::single("transformer_blocks.3.norm1.linear")]
    );
    assert_eq!(
        map_native_stem("joint_blocks_2_context_block_attn_qkv").unwrap(),
        vec![
            Target::chunk("transformer_blocks.2.attn.add_q_proj", 0, 3),
            Target::chunk("transformer_blocks.2.attn.add_k_proj", 1, 3),
            Target::chunk("transformer_blocks.2.attn.add_v_proj", 2, 3),
        ]
    );
    assert_eq!(
        map_native_stem("joint_blocks_2_context_block_attn_proj").unwrap(),
        vec![Target::single("transformer_blocks.2.attn.to_add_out")]
    );
    assert_eq!(
        map_native_stem("joint_blocks_2_context_block_mlp_fc1").unwrap(),
        vec![Target::single("transformer_blocks.2.ff_context.net.0.proj")]
    );
    assert_eq!(
        map_native_stem("joint_blocks_2_context_block_adaLN_modulation_1").unwrap(),
        vec![Target::single("transformer_blocks.2.norm1_context.linear")]
    );
    for (native, diff) in [
        ("final_layer_linear", "proj_out"),
        ("final_layer_adaLN_modulation_1", "norm_out.linear"),
        ("context_embedder", "context_embedder"),
        ("x_embedder_proj", "pos_embed.proj"),
        (
            "t_embedder_mlp_0",
            "time_text_embed.timestep_embedder.linear_1",
        ),
        (
            "t_embedder_mlp_2",
            "time_text_embed.timestep_embedder.linear_2",
        ),
        ("y_embedder_mlp_0", "time_text_embed.text_embedder.linear_1"),
        ("y_embedder_mlp_2", "time_text_embed.text_embedder.linear_2"),
    ] {
        assert_eq!(
            map_native_stem(native).unwrap(),
            vec![Target::single(diff)],
            "native {native} must map to {diff}"
        );
    }
    assert!(map_native_stem("joint_blocks_0_x_block_bogus").is_none());
    assert!(map_native_stem("mystery_module").is_none());
}

#[test]
fn resolve_targets_handles_every_format() {
    let table = build_kohya_table(&entries_of(&base_map()));
    assert_eq!(
        resolve_targets("lora_unet_joint_blocks_0_x_block_attn_qkv", &table).unwrap(),
        vec![
            Target::chunk("transformer_blocks.0.attn.to_q", 0, 3),
            Target::chunk("transformer_blocks.0.attn.to_k", 1, 3),
            Target::chunk("transformer_blocks.0.attn.to_v", 2, 3),
        ]
    );
    assert_eq!(
        resolve_targets(
            "lora_transformer_transformer_blocks_0_attn_to_out_0",
            &table
        )
        .unwrap(),
        vec![Target::single("transformer_blocks.0.attn.to_out.0")]
    );
    assert_eq!(
        resolve_targets("transformer.transformer_blocks.0.attn.to_q", &table).unwrap(),
        vec![Target::single("transformer_blocks.0.attn.to_q")]
    );
    assert_eq!(
        resolve_targets("transformer_blocks.0.attn.to_k", &table).unwrap(),
        vec![Target::single("transformer_blocks.0.attn.to_k")]
    );
    assert!(resolve_targets(
        "lora_te1_text_model_encoder_layers_0_self_attn_q_proj",
        &table
    )
    .is_none());
}

fn qkv_tensors(down: &Tensor, up: &Tensor) -> HashMap<String, Tensor> {
    HashMap::from([
        (
            "lora_unet_joint_blocks_0_x_block_attn_qkv.lora_down.weight".to_string(),
            down.clone(),
        ),
        (
            "lora_unet_joint_blocks_0_x_block_attn_qkv.lora_up.weight".to_string(),
            up.clone(),
        ),
        (
            "lora_unet_joint_blocks_0_x_block_attn_qkv.alpha".to_string(),
            Tensor::from_vec(vec![4.0f32], (1,), &Device::Cpu).unwrap(),
        ),
    ])
}

#[test]
fn fused_qkv_lora_splits_into_three() {
    let mut map = base_map();
    let base = entries_of(&map);
    let down = randn(2, 4);
    let up = randn(12, 2);
    let tensors = qkv_tensors(&down, &up);
    let af = file_of(&tensors, &[]);
    let table = build_kohya_table(&base);
    let mut report = MergeReport::default();
    let modules = merge_lora_file(&base, &af, &table, &mut report).unwrap();
    assert_eq!(report.merged, 3, "fused qkv must merge q, k, v");
    assert_eq!(report.skipped_keys, 0);

    apply_lora(&mut map, &base, &af, &tensors, &modules, 1.0);
    let full = lora_delta(&down, &up, 4.0, 2.0, 1.0);
    for (i, proj) in ["to_q", "to_k", "to_v"].iter().enumerate() {
        let merged = map[&format!("transformer_blocks.0.attn.{proj}.weight")]
            .to_dtype(DType::F32)
            .unwrap();
        let expected = full.narrow(0, i * 4, 4).unwrap();
        assert!(
            max_abs(&(merged - expected).unwrap()) < 1e-4,
            "{proj} slice mismatch"
        );
    }
}

#[test]
fn diffusers_named_lora_merges_one_to_one() {
    let mut map = base_map();
    let base = entries_of(&map);
    let path = "transformer_blocks.0.attn.to_q";
    let down = randn(2, 4);
    let up = randn(4, 2);
    let tensors = HashMap::from([
        (format!("{path}.lora_A.weight"), down.clone()),
        (format!("{path}.lora_B.weight"), up.clone()),
        (
            format!("{path}.alpha"),
            Tensor::from_vec(vec![4.0f32], (1,), &Device::Cpu).unwrap(),
        ),
    ]);
    let af = file_of(&tensors, &[]);
    let table = build_kohya_table(&base);
    let mut report = MergeReport::default();
    let modules = merge_lora_file(&base, &af, &table, &mut report).unwrap();
    assert_eq!(report.merged, 1);
    apply_lora(&mut map, &base, &af, &tensors, &modules, 1.0);
    let merged = map[&format!("{path}.weight")].to_dtype(DType::F32).unwrap();
    let expected = lora_delta(&down, &up, 4.0, 2.0, 1.0);
    assert!(max_abs(&(merged - expected).unwrap()) < 1e-4);
}

#[test]
fn conv_target_is_skipped_not_merged() {
    let base = entries_of(&base_map());
    let tensors = HashMap::from([
        (
            "lora_unet_x_embedder_proj.lora_down.weight".to_string(),
            randn(2, 16),
        ),
        (
            "lora_unet_x_embedder_proj.lora_up.weight".to_string(),
            randn(4, 2),
        ),
    ]);
    let af = file_of(&tensors, &[]);
    let table = build_kohya_table(&base);
    let mut report = MergeReport::default();
    let modules = merge_lora_file(&base, &af, &table, &mut report).unwrap();
    assert_eq!(report.merged, 0, "the conv pos_embed.proj must not merge");
    assert_eq!(report.skipped_keys, 1);
    assert!(modules.iter().all(|m| m.folds.is_empty()));
}

#[test]
fn unresolvable_specs_error() {
    let base = entries_of(&base_map());
    let bytes = safetensors_bytes(
        &[
            (
                "lora_te1_text_model_encoder_layers_0_self_attn_q_proj.lora_down.weight",
                vec![2, 4],
            ),
            (
                "lora_te1_text_model_encoder_layers_0_self_attn_q_proj.lora_up.weight",
                vec![4, 2],
            ),
        ],
        None,
    );
    let res = merge_adapters(
        &base,
        &vec![spec("none.safetensors", AdapterKind::Lora)],
        &vec![bytes],
    );
    let Err(e) = res else {
        panic!("text-encoder-only adapter must error (nothing merged)")
    };
    assert!(e.message().contains("no adapter target modules matched"));
}

#[test]
fn scale_zero_merge_is_base_byte_exact() {
    let mut map = base_map();
    let bases: Vec<(String, Tensor)> = ["to_q", "to_k", "to_v"]
        .iter()
        .map(|p| {
            let key = format!("transformer_blocks.0.attn.{p}.weight");
            let w = randn(4, 4).to_dtype(DType::BF16).unwrap();
            map.insert(key.clone(), w.clone());
            (key, w.to_dtype(DType::F32).unwrap())
        })
        .collect();
    let base = entries_of(&map);
    let tensors = qkv_tensors(&randn(2, 4), &randn(12, 2));
    let af = file_of(&tensors, &[]);
    let table = build_kohya_table(&base);
    let mut report = MergeReport::default();
    let modules = merge_lora_file(&base, &af, &table, &mut report).unwrap();
    assert_eq!(report.merged, 3, "targets still 'merge' a zero delta");
    apply_lora(&mut map, &base, &af, &tensors, &modules, 0.0);
    for (key, original) in bases {
        let merged = map[&key].to_dtype(DType::F32).unwrap();
        assert_eq!(
            max_abs(&(merged - original).unwrap()),
            0.0,
            "scale-0 merge must be byte-exact with the base at {key}"
        );
    }
}

#[test]
fn lokr_merges_kron_delta() {
    let mut map = base_map();
    let base = entries_of(&map);
    let w1 = Tensor::from_vec(vec![1.0f32, 0.0, 0.0, 1.0], (2, 2), &Device::Cpu).unwrap();
    let w2 = Tensor::from_vec(vec![0.5f32, 0.0, 0.0, 0.5], (2, 2), &Device::Cpu).unwrap();
    let path = "transformer_blocks.0.attn.to_q";
    let tensors = HashMap::from([
        (format!("{path}.lokr_w1"), w1.clone()),
        (format!("{path}.lokr_w2"), w2.clone()),
    ]);
    let af = file_of(
        &tensors,
        &[("networkType", "lokr"), ("rank", "2"), ("alpha", "2")],
    );
    let table = build_kohya_table(&base);
    let mut report = MergeReport::default();
    let plan = merge_lokr_file(&base, &af, &table, &mut report);
    assert_eq!(report.merged, 1);
    assert_eq!(plan.rank.as_deref(), Some("2"));
    assert_eq!(plan.alpha.as_deref(), Some("2"));
    apply_lokr(&mut map, &base, &af, &tensors, &plan, 1.0);
    let merged = map[&format!("{path}.weight")].to_dtype(DType::F32).unwrap();
    let expected = kron(&w1, &w2);
    assert!(max_abs(&(merged - expected).unwrap()) < 1e-2);
}

#[test]
fn roundtrip_trainer_peft_file_merges() {
    let map = base_map();
    let base = entries_of(&map);
    let path = "transformer_blocks.0.attn.to_v";
    let a = format!("{path}.lora_A.weight");
    let b = format!("{path}.lora_B.weight");
    let alpha = format!("{path}.alpha");
    let bytes = safetensors_bytes(
        &[
            (a.as_str(), vec![2, 4]),
            (b.as_str(), vec![4, 2]),
            (alpha.as_str(), vec![1]),
        ],
        None,
    );
    let (files, report) = merge_adapters(
        &base,
        &vec![spec("trained.safetensors", AdapterKind::Lora)],
        &vec![bytes],
    )
    .unwrap();
    assert_eq!(report.merged, 1, "the trained to_v adapter must merge");
    assert_eq!(report.skipped_keys, 0);
    let (_, plan) = &files[0];
    let FilePlan::Lora(modules) = plan else {
        panic!("a LoRA file gives a LoRA plan")
    };
    assert_eq!(modules.len(), 1);
    assert_eq!(modules[0].rank, 2);
    assert!(modules[0].alpha.is_some());
    let folded = &base[modules[0].folds[0].base].name;
    assert_eq!(folded, &format!("{path}.weight"));
    assert_eq!(
        (modules[0].folds[0].first_row, modules[0].folds[0].rows),
        (0, 4)
    );
}

#[test]
fn sd3_merge_reports_each_error() {
    let base = entries_of(&base_map());
    // Bytes that are no safetensors file.
    let Err(e) = merge_adapters(
        &base,
        &vec![spec("broken.safetensors", AdapterKind::Lora)],
        &vec![vec![1, 2, 3]],
    ) else {
        panic!("broken bytes must error")
    };
    assert!(matches!(e, MergeError::Unreadable { .. }));
    assert!(e.message().starts_with("read adapter metadata broken.safetensors: "));

    // Declared a LoRA, tagged a LoKr.
    let bytes = safetensors_bytes(
        &[("transformer_blocks.0.attn.to_q.lokr_w1", vec![2, 2])],
        Some(HashMap::from([(
            "networkType".to_string(),
            "lokr".to_string(),
        )])),
    );
    let Err(e) = merge_adapters(
        &base,
        &vec![spec("a.safetensors", AdapterKind::Lora)],
        &vec![bytes],
    ) else {
        panic!("a mismatched kind must error")
    };
    assert!(matches!(e, MergeError::KindMismatch { .. }));

    // Factors that do not multiply.
    let bytes = safetensors_bytes(
        &[
            ("transformer_blocks.0.attn.to_q.lora_A.weight", vec![2, 4]),
            ("transformer_blocks.0.attn.to_q.lora_B.weight", vec![4, 3]),
        ],
        None,
    );
    let Err(e) = merge_adapters(
        &base,
        &vec![spec("a.safetensors", AdapterKind::Lora)],
        &vec![bytes],
    ) else {
        panic!("mismatched factors must error")
    };
    assert!(matches!(e, MergeError::FactorMismatch));
}

#[test]
fn adapter_headers_are_read() {
    let bytes = safetensors_bytes(
        &[("b", vec![2, 3]), ("a", vec![4])],
        Some(HashMap::from([("rank".to_string(), "8".to_string())])),
    );
    let f = read_adapter(&bytes).unwrap();
    let mut got: Vec<(String, Vec<usize>)> = f
        .tensors
        .iter()
        .map(|t| (t.name.clone(), t.dims.clone()))
        .collect();
    got.sort();
    assert_eq!(
        got,
        vec![("a".to_string(), vec![4]), ("b".to_string(), vec![2, 3])]
    );
    assert_eq!(f.meta_get("rank").map(|s| s.as_str()), Some("8"));
    assert!(!f.declares_lokr());
    assert!(read_adapter(&[0u8; 4]).is_err());
}

fn raw_file(header: &str, data: usize) -> Vec<u8> {
    let mut bytes = (header.len() as u64).to_le_bytes().to_vec();
    bytes.extend(header.as_bytes());
    bytes.extend(vec![0u8; data]);
    bytes
}

#[test]
fn tensors_end_within_the_file() {
    let outside = "the header does not keep its tensors within the file";
    let most = usize::MAX;
    let far = format!(r#"{{"a":{{"dtype":"U8","shape":[{most}],"data_offsets":[0,{most}]}}}}"#);
    assert_eq!(read_adapter(&raw_file(&far, 4)).unwrap_err(), outside);
    // Eight tensors and a last one that end at the largest count.
    let part = usize::MAX / 8;
    let mut entries: Vec<String> = (0..8)
        .map(|i| {
            let (a, b) = (i * part, (i + 1) * part);
            format!(r#""t{i}":{{"dtype":"U8","shape":[{part}],"data_offsets":[{a},{b}]}}"#)
        })
        .collect();
    let (a, rest) = (8 * part, most - 8 * part);
    entries.push(format!(
        r#""z":{{"dtype":"U8","shape":[{rest}],"data_offsets":[{a},{most}]}}"#
    ));
    let full = format!("{{{}}}", entries.join(","));
    assert_eq!(read_adapter(&raw_file(&full, 4)).unwrap_err(), outside);
    assert_eq!(read_adapter(&raw_file("[]", 0)).unwrap_err(), outside);
    // Both spellings of an entry.
    for entry in [
        r#"{"a":{"dtype":"U8","shape":[4],"data_offsets":[0,4]}}"#,
        r#"{"a":["U8",[4],[0,4]]}"#,
    ] {
        let f = read_adapter(&raw_file(entry, 4)).unwrap();
        assert_eq!(f.tensors[0].dims, vec![4]);
        assert!(read_adapter(&raw_file(entry, 3)).is_err());
        assert!(read_adapter(&raw_file(entry, 5)).is_err());
    }
}

#[test]
fn key_suffixes_split() {
    let (stem, _) = split_lora_role("a.b.lora_A.default.weight").unwrap();
    assert_eq!(stem, "a.b");
    assert_eq!(split_lora_role("a.b.alpha").unwrap().0, "a.b");
    assert!(split_lora_role("a.b.weight").is_none());
    assert_eq!(split_lokr_factor("m.lokr_w2_a"), Some(("m", "lokr_w2_a")));
    assert!(split_lokr_factor("m.lokr_w3").is_none());
}

#[test]
fn peft_prefixes_are_stripped() {
    assert_eq!(
        strip_peft_prefix("base_model.model.transformer.proj_out"),
        "proj_out"
    );
    assert_eq!(strip_peft_prefix("transformer.proj_out"), "proj_out");
    assert_eq!(strip_peft_prefix("proj_out"), "proj_out");
}

#[test]
fn block_leaves_map_by_stream() {
    assert_eq!(
        map_block_leaf(5, "mlp_fc2", true).unwrap(),
        vec![Target::single("transformer_blocks.5.ff_context.net.2")]
    );
    assert!(map_block_leaf(5, "attn_bogus", false).is_none());
}

#[test]
fn native_stems_share_no_path() {
    let leaves = ["attn_qkv", "attn_proj", "mlp_fc1", "mlp_fc2", "adaLN_modulation_1"];
    let mut stems: Vec<String> = [
        "final_layer_linear",
        "final_layer_adaLN_modulation_1",
        "context_embedder",
        "x_embedder_proj",
        "t_embedder_mlp_0",
        "t_embedder_mlp_2",
        "y_embedder_mlp_0",
        "y_embedder_mlp_2",
    ]
    .iter()
    .map(|s| s.to_string())
    .collect();
    for i in [0, 1, 10, 11] {
        for stream in ["x_block", "context_block"] {
            stems.extend(leaves.iter().map(|l| format!("joint_blocks_{i}_{stream}_{l}")));
        }
    }
    let mut paths: Vec<String> = stems
        .iter()
        .flat_map(|s| map_native_stem(s).unwrap())
        .map(|t| t.path)
        .collect();
    let all = paths.len();
    paths.sort();
    paths.dedup();
    assert_eq!(paths.len(), all);
    // An index with a leading zero names the same block again.
    let again = map_native_stem("joint_blocks_01_x_block_attn_proj").unwrap();
    let plain = map_native_stem("joint_blocks_1_x_block_attn_proj").unwrap();
    assert_eq!(again, plain);
}
